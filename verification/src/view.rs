//! Chain heads, block numbers and the views that peers advertise of them.
use vstd::prelude::*;
use vstd::view::View as DeepModel;

verus! {

/// A block number on the relay chain.
pub type BlockNumber = u32;

/// A 256-bit block hash, held as its big-endian upper and lower halves, so that
/// the order of `(high, low)` is the order of the hash's bytes.
#[derive(Debug, Clone, Copy, PartialEq, Eq, Structural)]
pub struct Hash {
    /// The first sixteen bytes, read as a big-endian integer.
    pub high: u128,
    /// The last sixteen bytes, read as a big-endian integer.
    pub low: u128,
}

/// The order of hashes: by the upper half, then by the lower half.
pub open spec fn hash_le(a: Hash, b: Hash) -> bool {
    a.high < b.high || (a.high == b.high && a.low <= b.low)
}

/// The hash as the 256-bit number whose big-endian bytes are its thirty-two
/// bytes: the first sixteen bytes are the most significant.
pub open spec fn hash_value(h: Hash) -> nat {
    h.high as nat * 0x1_0000_0000_0000_0000_0000_0000_0000_0000nat + h.low as nat
}

/// Hashes are ordered as the numbers their bytes spell, first byte most
/// significant: a hash with smaller first sixteen bytes comes first, whatever
/// its last sixteen bytes.
pub proof fn lemma_hash_le_is_byte_order(a: Hash, b: Hash)
    ensures
        hash_le(a, b) <==> hash_value(a) <= hash_value(b),
        a.high < b.high ==> hash_le(a, b) && !hash_le(b, a),
{
    let m = 0x1_0000_0000_0000_0000_0000_0000_0000_0000nat;
    let (ah, al, bh, bl) = (a.high as nat, a.low as nat, b.high as nat, b.low as nat);
    assert(al < m && bl < m);
    if ah < bh {
        assert(ah * m + al < bh * m + bl) by (nonlinear_arith)
            requires
                ah < bh,
                al < m,
                m > 0,
        ;
    } else if bh < ah {
        assert(bh * m + bl < ah * m + al) by (nonlinear_arith)
            requires
                bh < ah,
                bl < m,
                m > 0,
        ;
    }
}

/// `s` is in ascending order.
pub open spec fn sorted_hashes(s: Seq<Hash>) -> bool {
    forall|i: int, j: int| 0 <= i < j < s.len() ==> hash_le(#[trigger] s[i], #[trigger] s[j])
}

impl Hash {
    /// The hash whose thirty-two bytes all equal `byte`.
    pub fn repeat_byte(byte: u8) -> (h: Hash)
        ensures
            h.high == byte as u128 * 0x0101_0101_0101_0101_0101_0101_0101_0101u128,
            h.low == h.high,
    {
        let word: u128 = (byte as u128) * 0x0101_0101_0101_0101_0101_0101_0101_0101u128;
        Hash { high: word, low: word }
    }

    /// Whether `self` comes no later than `other` in the order of hashes.
    pub fn le(&self, other: &Hash) -> (r: bool)
        ensures
            r == hash_le(*self, *other),
    {
        self.high < other.high || (self.high == other.high && self.low <= other.low)
    }
}

/// Returns `heads` in ascending order.
pub fn sort_hashes(heads: Vec<Hash>) -> (r: Vec<Hash>)
    ensures
        sorted_hashes(r@),
        r@.to_multiset() == heads@.to_multiset(),
{
    broadcast use vstd::seq_lib::group_to_multiset_ensures;

    let mut out: Vec<Hash> = Vec::new();
    let n = heads.len();
    let mut i: usize = 0;
    while i < n
        invariant
            n == heads.len(),
            i <= n,
            sorted_hashes(out@),
            out@.to_multiset() == heads@.subrange(0, i as int).to_multiset(),
        decreases n - i,
    {
        let h = heads[i];
        let mut j: usize = 0;
        while j < out.len() && out[j].le(&h)
            invariant
                j <= out.len(),
                forall|k: int| 0 <= k < j ==> hash_le(#[trigger] out@[k], h),
            decreases out.len() - j,
        {
            j = j + 1;
        }
        proof {
            assert(j < out.len() ==> !hash_le(out@[j as int], h));
            vstd::seq_lib::to_multiset_insert(out@, j as int, h);
            assert(heads@.subrange(0, i + 1) == heads@.subrange(0, i as int).push(h));
            vstd::seq_lib::to_multiset_build(heads@.subrange(0, i as int), h);
        }
        out.insert(j, h);
        i = i + 1;
    }
    assert(heads@.subrange(0, n as int) == heads@);
    out
}

/// A succinct representation of a peer's view: a bounded amount of chain heads,
/// kept in ascending order, and the highest known finalized block number.
#[derive(Debug)]
pub struct View {
    heads: Vec<Hash>,
    /// The highest known finalized block number.
    pub finalized_number: BlockNumber,
}

impl View {
    /// The chain heads in view, in the order in which they are held.
    pub closed spec fn heads(&self) -> Seq<Hash> {
        self.heads@
    }

    /// The highest known finalized block number.
    pub closed spec fn finalized(&self) -> BlockNumber {
        self.finalized_number
    }

    /// The heads are held in ascending order.
    pub open spec fn wf(&self) -> bool {
        sorted_hashes(self.heads())
    }

    /// Constructs a view of the given heads, sorted, and the given finalized number.
    pub fn new(heads: Vec<Hash>, finalized_number: BlockNumber) -> (v: View)
        ensures
            v.wf(),
            v.heads().to_multiset() == heads@.to_multiset(),
            v.finalized() == finalized_number,
    {
        View { heads: sort_hashes(heads), finalized_number }
    }

    /// A view with no heads, only a finalized block number.
    pub fn with_finalized(finalized_number: BlockNumber) -> (v: View)
        ensures
            v.wf(),
            v.heads() == Seq::<Hash>::empty(),
            v.finalized() == finalized_number,
    {
        View { heads: Vec::new(), finalized_number }
    }

    /// The number of heads in view.
    pub fn len(&self) -> (n: usize)
        ensures
            n == self.heads().len(),
    {
        self.heads.len()
    }

    /// Whether no head is in view.
    pub fn is_empty(&self) -> (b: bool)
        ensures
            b == (self.heads().len() == 0),
    {
        self.heads.len() == 0
    }

    /// All heads, in the order in which they are held.
    pub fn iter(&self) -> (r: Vec<Hash>)
        ensures
            r@ == self.heads(),
    {
        self.heads.clone()
    }

    /// Consumes the view and returns its heads.
    pub fn into_iter(self) -> (r: Vec<Hash>)
        ensures
            r@ == self.heads(),
    {
        self.heads
    }

    /// Whether the view holds `hash`.
    pub fn contains(&self, hash: &Hash) -> (b: bool)
        ensures
            b == self.heads().contains(*hash),
    {
        let mut i: usize = 0;
        while i < self.heads.len()
            invariant
                i <= self.heads@.len(),
                forall|k: int| 0 <= k < i ==> self.heads@[k] != *hash,
            decreases self.heads@.len() - i,
        {
            if self.heads[i] == *hash {
                return true;
            }
            i = i + 1;
        }
        false
    }

    /// The heads of `self` that `other` does not hold, in the order of `self`.
    pub fn difference(&self, other: &View) -> (r: Vec<Hash>)
        ensures
            r@ == self.heads().filter(|h: Hash| !other.heads().contains(h)),
    {
        let ghost pred = |h: Hash| !other.heads().contains(h);
        let mut out: Vec<Hash> = Vec::new();
        let mut i: usize = 0;
        while i < self.heads.len()
            invariant
                i <= self.heads@.len(),
                pred == (|h: Hash| !other.heads().contains(h)),
                out@ == self.heads@.subrange(0, i as int).filter(pred),
            decreases self.heads@.len() - i,
        {
            let h = self.heads[i];
            proof {
                reveal_with_fuel(Seq::filter, 1);
                assert(self.heads@.subrange(0, i + 1).drop_last() == self.heads@.subrange(
                    0,
                    i as int,
                ));
            }
            if !other.contains(&h) {
                out.push(h);
            }
            i = i + 1;
        }
        assert(self.heads@.subrange(0, self.heads@.len() as int) == self.heads@);
        out
    }

    /// The heads of `self` that `other` holds too, in the order of `self`.
    pub fn intersection(&self, other: &View) -> (r: Vec<Hash>)
        ensures
            r@ == self.heads().filter(|h: Hash| other.heads().contains(h)),
    {
        let ghost pred = |h: Hash| other.heads().contains(h);
        let mut out: Vec<Hash> = Vec::new();
        let mut i: usize = 0;
        while i < self.heads.len()
            invariant
                i <= self.heads@.len(),
                pred == (|h: Hash| other.heads().contains(h)),
                out@ == self.heads@.subrange(0, i as int).filter(pred),
            decreases self.heads@.len() - i,
        {
            let h = self.heads[i];
            proof {
                reveal_with_fuel(Seq::filter, 1);
                assert(self.heads@.subrange(0, i + 1).drop_last() == self.heads@.subrange(
                    0,
                    i as int,
                ));
            }
            if other.contains(&h) {
                out.push(h);
            }
            i = i + 1;
        }
        assert(self.heads@.subrange(0, self.heads@.len() as int) == self.heads@);
        out
    }

    /// Replaces `self` with `new` and returns the heads of `new` that the old
    /// view did not hold, in the order of `new`.
    pub fn replace_difference(&mut self, new: View) -> (r: Vec<Hash>)
        ensures
            *final(self) == new,
            r@ == new.heads().filter(|h: Hash| !old(self).heads().contains(h)),
    {
        let mut old_view = new;
        std::mem::swap(self, &mut old_view);
        self.difference(&old_view)
    }

    /// Whether two views hold the same heads in the same order, whatever their
    /// finalized numbers.
    pub fn check_heads_eq(&self, other: &View) -> (b: bool)
        ensures
            b == (self.heads() == other.heads()),
    {
        if self.heads.len() != other.heads.len() {
            return false;
        }
        let mut i: usize = 0;
        while i < self.heads.len()
            invariant
                self.heads@.len() == other.heads@.len(),
                i <= self.heads@.len(),
                forall|k: int| 0 <= k < i ==> self.heads@[k] == other.heads@[k],
            decreases self.heads@.len() - i,
        {
            if self.heads[i] != other.heads[i] {
                return false;
            }
            i = i + 1;
        }
        assert(self.heads@ =~= other.heads@);
        true
    }
}

/// Splitting a sequence by a predicate and by its negation keeps every element
/// once.
proof fn lemma_filter_split(s: Seq<Hash>, p: spec_fn(Hash) -> bool)
    ensures
        s.filter(p).len() + s.filter(|h: Hash| !p(h)).len() == s.len(),
    decreases s.len(),
{
    reveal_with_fuel(Seq::filter, 1);
    if s.len() > 0 {
        lemma_filter_split(s.drop_last(), p);
    }
}

/// The heads of a view are in ascending order of the numbers their bytes spell,
/// first byte most significant.
pub proof fn lemma_view_heads_ascending(v: View)
    requires
        v.wf(),
    ensures
        forall|i: int, j: int|
            0 <= i < j < v.heads().len() ==> hash_value(#[trigger] v.heads()[i]) <= hash_value(
                #[trigger] v.heads()[j],
            ),
{
    assert forall|i: int, j: int| 0 <= i < j < v.heads().len() implies hash_value(
        #[trigger] v.heads()[i],
    ) <= hash_value(#[trigger] v.heads()[j]) by {
        lemma_hash_le_is_byte_order(v.heads()[i], v.heads()[j]);
    }
}

/// The heads of a view that another view does not hold and those that it does
/// hold together number the heads of the view.
pub proof fn lemma_difference_intersection_partition(a: View, b: View)
    ensures
        a.heads().filter(|h: Hash| !b.heads().contains(h)).len() + a.heads().filter(
            |h: Hash| b.heads().contains(h),
        ).len() == a.heads().len(),
        forall|h: Hash|
            #[trigger] a.heads().contains(h) ==> (a.heads().filter(
                |x: Hash| !b.heads().contains(x),
            ).contains(h) <==> !b.heads().contains(h)),
{
    let p = |h: Hash| b.heads().contains(h);
    lemma_filter_split(a.heads(), p);
    assert(a.heads().filter(|h: Hash| !p(h)) =~= a.heads().filter(
        |h: Hash| !b.heads().contains(h),
    )) by {
        assert((|h: Hash| !p(h)) =~= (|h: Hash| !b.heads().contains(h)));
    }
    assert(a.heads().filter(p) =~= a.heads().filter(|h: Hash| b.heads().contains(h))) by {
        assert(p =~= (|h: Hash| b.heads().contains(h)));
    }
    assert forall|h: Hash| #[trigger] a.heads().contains(h) implies (a.heads().filter(
        |x: Hash| !b.heads().contains(x),
    ).contains(h) <==> !b.heads().contains(h)) by {
        let q = |x: Hash| !b.heads().contains(x);
        a.heads().filter_lemma(q);
        if !b.heads().contains(h) {
            let i = choose|i: int| 0 <= i < a.heads().len() && a.heads()[i] == h;
            a.heads().lemma_filter_contains(q, i);
        }
    }
}

impl Clone for View {
    fn clone(&self) -> (r: View)
        ensures
            r.heads() == self.heads(),
            r.finalized() == self.finalized(),
    {
        View { heads: self.heads.clone(), finalized_number: self.finalized_number }
    }
}

impl PartialEq for View {
    fn eq(&self, other: &View) -> (r: bool) {
        self.finalized_number == other.finalized_number && self.check_heads_eq(other)
    }
}

impl vstd::std_specs::cmp::PartialEqSpecImpl for View {
    open spec fn obeys_eq_spec() -> bool {
        true
    }

    open spec fn eq_spec(&self, other: &View) -> bool {
        self.heads() == other.heads() && self.finalized() == other.finalized()
    }
}

impl Eq for View {

}

/// Our own view of the chain, as told to peers.
#[derive(Debug, Clone)]
pub struct OurView {
    view: View,
}

impl OurView {
    /// The view that this wraps.
    pub closed spec fn inner(&self) -> View {
        self.view
    }

    /// Creates a new instance with the given heads, sorted, and finalized number.
    pub fn new(heads: Vec<Hash>, finalized_number: BlockNumber) -> (v: OurView)
        ensures
            v.inner().wf(),
            v.inner().heads().to_multiset() == heads@.to_multiset(),
            v.inner().finalized() == finalized_number,
    {
        OurView { view: View::new(heads, finalized_number) }
    }

    /// The view that this wraps.
    pub fn as_view(&self) -> (v: &View)
        ensures
            *v == self.inner(),
    {
        &self.view
    }
}

impl PartialEq for OurView {
    fn eq(&self, other: &OurView) -> (r: bool) {
        self.view.eq(&other.view)
    }
}

impl vstd::std_specs::cmp::PartialEqSpecImpl for OurView {
    open spec fn obeys_eq_spec() -> bool {
        true
    }

    open spec fn eq_spec(&self, other: &OurView) -> bool {
        self.inner().heads() == other.inner().heads() && self.inner().finalized()
            == other.inner().finalized()
    }
}

impl core::ops::Deref for OurView {
    type Target = View;

    fn deref(&self) -> (v: &View)
        ensures
            *v == self.inner(),
    {
        &self.view
    }
}

} // verus!
