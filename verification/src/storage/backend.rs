//! A key-value store of byte strings that keeps its keys in lexicographic order,
//! as the runtime's storage does.
use vstd::prelude::*;

use crate::storage::bytes::{
    lemma_prefix_between,
    bytes_equal,
    bytes_less,
    bytes_lt,
    lemma_bytes_lt_irreflexive,
    lemma_bytes_lt_total,
    lemma_bytes_lt_transitive,
};

verus! {

/// Each byte string of `s` comes strictly before the ones after it.
pub open spec fn strictly_sorted(s: Seq<Seq<u8>>) -> bool {
    forall|i: int, j: int| 0 <= i < j < s.len() ==> bytes_lt(#[trigger] s[i], #[trigger] s[j])
}

/// In a strictly sorted sequence, the position of an element is the only one
/// that holds it.
pub proof fn lemma_index_of_sorted(s: Seq<Seq<u8>>, i: int)
    requires
        strictly_sorted(s),
        0 <= i < s.len(),
    ensures
        s.index_of(s[i]) == i,
{
    let j = s.index_of(s[i]);
    assert(s.contains(s[i]));
    assert(0 <= j < s.len() && s[j] == s[i]);
    if j < i {
        lemma_bytes_lt_irreflexive(s[i]);
        assert(bytes_lt(s[j], s[i]));
    } else if j > i {
        lemma_bytes_lt_irreflexive(s[i]);
        assert(bytes_lt(s[i], s[j]));
    }
}

/// The keys of `ks` from the first one after `start` on.
pub open spec fn keys_after(ks: Seq<Seq<u8>>, start: Seq<u8>) -> Seq<Seq<u8>>
    decreases ks.len(),
{
    if ks.len() == 0 {
        ks
    } else if bytes_lt(start, ks[0]) {
        ks
    } else {
        keys_after(ks.drop_first(), start)
    }
}

/// The keys that `ks` begins with that all begin with `prefix`.
pub open spec fn leading_with_prefix(ks: Seq<Seq<u8>>, prefix: Seq<u8>) -> Seq<Seq<u8>>
    decreases ks.len(),
{
    if ks.len() > 0 && prefix.is_prefix_of(ks[0]) {
        seq![ks[0]] + leading_with_prefix(ks.drop_first(), prefix)
    } else {
        Seq::empty()
    }
}

/// The keys that walking the store from `start` visits while they begin with
/// `prefix`: the keys after `start`, in order, up to the first that does not
/// begin with `prefix`.
pub open spec fn prefix_run(ks: Seq<Seq<u8>>, prefix: Seq<u8>, start: Seq<u8>) -> Seq<Seq<u8>> {
    leading_with_prefix(keys_after(ks, start), prefix)
}

/// `keys_after` is a suffix of the keys.
proof fn lemma_keys_after_suffix(ks: Seq<Seq<u8>>, start: Seq<u8>)
    ensures
        keys_after(ks, start).len() <= ks.len(),
        keys_after(ks, start) == ks.skip(ks.len() - keys_after(ks, start).len()),
    decreases ks.len(),
{
    if ks.len() == 0 {
        assert(ks.skip(0) =~= ks);
    } else if bytes_lt(start, ks[0]) {
        assert(ks.skip(0) =~= ks);
    } else {
        lemma_keys_after_suffix(ks.drop_first(), start);
        let r = keys_after(ks.drop_first(), start);
        assert(ks.drop_first().skip(ks.drop_first().len() - r.len()) =~= ks.skip(ks.len() - r.len()));
    }
}

/// `leading_with_prefix` is a prefix of the keys.
proof fn lemma_leading_take(ks: Seq<Seq<u8>>, prefix: Seq<u8>)
    ensures
        leading_with_prefix(ks, prefix).len() <= ks.len(),
        leading_with_prefix(ks, prefix) == ks.take(leading_with_prefix(ks, prefix).len() as int),
        forall|i: int|
            0 <= i < leading_with_prefix(ks, prefix).len() ==> prefix.is_prefix_of(
                #[trigger] leading_with_prefix(ks, prefix)[i],
            ),
    decreases ks.len(),
{
    if ks.len() > 0 && prefix.is_prefix_of(ks[0]) {
        lemma_leading_take(ks.drop_first(), prefix);
        let r = leading_with_prefix(ks.drop_first(), prefix);
        assert(seq![ks[0]] + r =~= ks.take(r.len() + 1 as int));
        assert forall|i: int|
            0 <= i < leading_with_prefix(ks, prefix).len() implies prefix.is_prefix_of(
            #[trigger] leading_with_prefix(ks, prefix)[i],
        ) by {
            if i > 0 {
                assert(leading_with_prefix(ks, prefix)[i] == r[i - 1]);
            }
        }
    } else {
        assert(ks.take(0) =~= Seq::<Seq<u8>>::empty());
    }
}

/// The keys that a walk visits are keys of `ks` that begin with the prefix and
/// follow `start`; where `ks` is strictly sorted, so are they.
pub proof fn lemma_prefix_run(ks: Seq<Seq<u8>>, prefix: Seq<u8>, start: Seq<u8>)
    ensures
        forall|i: int|
            0 <= i < prefix_run(ks, prefix, start).len() ==> ks.contains(
                #[trigger] prefix_run(ks, prefix, start)[i],
            ) && prefix.is_prefix_of(prefix_run(ks, prefix, start)[i]),
        strictly_sorted(ks) ==> strictly_sorted(prefix_run(ks, prefix, start)),
{
    let after = keys_after(ks, start);
    lemma_keys_after_suffix(ks, start);
    lemma_leading_take(after, prefix);
    let run = prefix_run(ks, prefix, start);
    let a = ks.len() - after.len();
    assert forall|i: int| 0 <= i < run.len() implies ks.contains(#[trigger] run[i])
        && prefix.is_prefix_of(run[i]) by {
        assert(run[i] == after[i]);
        assert(after[i] == ks[a + i]);
    }
    if strictly_sorted(ks) {
        assert forall|i: int, j: int| 0 <= i < j < run.len() implies bytes_lt(
            #[trigger] run[i],
            #[trigger] run[j],
        ) by {
            assert(run[i] == ks[a + i]);
            assert(run[j] == ks[a + j]);
        }
    }
}

/// The keys after `start` all come after `start`, where the keys are sorted.
proof fn lemma_keys_after_gt(ks: Seq<Seq<u8>>, start: Seq<u8>)
    requires
        strictly_sorted(ks),
    ensures
        forall|i: int|
            0 <= i < keys_after(ks, start).len() ==> bytes_lt(
                start,
                #[trigger] keys_after(ks, start)[i],
            ),
    decreases ks.len(),
{
    if ks.len() == 0 {
    } else if bytes_lt(start, ks[0]) {
        assert forall|i: int| 0 <= i < ks.len() implies bytes_lt(start, #[trigger] ks[i]) by {
            if i > 0 {
                lemma_bytes_lt_transitive(start, ks[0], ks[i]);
            }
        }
    } else {
        assert(strictly_sorted(ks.drop_first())) by {
            assert forall|i: int, j: int| 0 <= i < j < ks.drop_first().len() implies bytes_lt(
                #[trigger] ks.drop_first()[i],
                #[trigger] ks.drop_first()[j],
            ) by {
                assert(ks.drop_first()[i] == ks[i + 1] && ks.drop_first()[j] == ks[j + 1]);
            }
        }
        lemma_keys_after_gt(ks.drop_first(), start);
        assert(keys_after(ks, start) == keys_after(ks.drop_first(), start));
    }
}

/// A key after `start` is among the keys after `start`.
proof fn lemma_keys_after_contains(ks: Seq<Seq<u8>>, start: Seq<u8>, k: Seq<u8>)
    requires
        strictly_sorted(ks),
        ks.contains(k),
        bytes_lt(start, k),
    ensures
        keys_after(ks, start).contains(k),
    decreases ks.len(),
{
    if bytes_lt(start, ks[0]) {
    } else {
        let j = choose|j: int| 0 <= j < ks.len() && ks[j] == k;
        if j == 0 {
            assert(false);
        }
        assert(ks.drop_first()[j - 1] == k);
        assert(strictly_sorted(ks.drop_first())) by {
            assert forall|a: int, b: int| 0 <= a < b < ks.drop_first().len() implies bytes_lt(
                #[trigger] ks.drop_first()[a],
                #[trigger] ks.drop_first()[b],
            ) by {
                assert(ks.drop_first()[a] == ks[a + 1] && ks.drop_first()[b] == ks[b + 1]);
            }
        }
        lemma_keys_after_contains(ks.drop_first(), start, k);
    }
}

/// A key with the prefix is among the leading keys with the prefix, where all
/// keys before it have the prefix too.
proof fn lemma_leading_contains(ks: Seq<Seq<u8>>, prefix: Seq<u8>, k: Seq<u8>)
    requires
        strictly_sorted(ks),
        ks.contains(k),
        prefix.is_prefix_of(k),
        forall|j: int|
            0 <= j < ks.len() && bytes_lt(#[trigger] ks[j], k) ==> prefix.is_prefix_of(ks[j]),
    ensures
        leading_with_prefix(ks, prefix).contains(k),
    decreases ks.len(),
{
    let j = choose|j: int| 0 <= j < ks.len() && ks[j] == k;
    if j == 0 {
        assert(leading_with_prefix(ks, prefix)[0] == k);
    } else {
        assert(bytes_lt(ks[0], ks[j]));
        assert(prefix.is_prefix_of(ks[0]));
        let rest = ks.drop_first();
        assert(rest[j - 1] == k);
        assert(strictly_sorted(rest)) by {
            assert forall|a: int, b: int| 0 <= a < b < rest.len() implies bytes_lt(
                #[trigger] rest[a],
                #[trigger] rest[b],
            ) by {
                assert(rest[a] == ks[a + 1] && rest[b] == ks[b + 1]);
            }
        }
        assert forall|i: int| 0 <= i < rest.len() && bytes_lt(#[trigger] rest[i], k) implies prefix.is_prefix_of(
            rest[i],
        ) by {
            assert(rest[i] == ks[i + 1]);
        }
        lemma_leading_contains(rest, prefix, k);
        let l = leading_with_prefix(rest, prefix);
        let i = choose|i: int| 0 <= i < l.len() && l[i] == k;
        assert(leading_with_prefix(ks, prefix)[i + 1] == k);
    }
}

/// Walking sorted keys from a prefix visits every key that has the prefix and
/// is longer than it.
pub proof fn lemma_prefix_run_complete(ks: Seq<Seq<u8>>, prefix: Seq<u8>, k: Seq<u8>)
    requires
        strictly_sorted(ks),
        ks.contains(k),
        prefix.is_prefix_of(k),
        k != prefix,
    ensures
        prefix_run(ks, prefix, prefix).contains(k),
{
    assert(bytes_lt(prefix, k)) by {
        lemma_bytes_lt_total(prefix, k);
        if bytes_lt(k, prefix) {
            lemma_prefix_not_after(prefix, k);
        }
    }
    lemma_keys_after_contains(ks, prefix, k);
    lemma_keys_after_gt(ks, prefix);
    lemma_keys_after_suffix(ks, prefix);
    let after = keys_after(ks, prefix);
    let a = ks.len() - after.len();
    assert(strictly_sorted(after)) by {
        assert forall|i: int, j: int| 0 <= i < j < after.len() implies bytes_lt(
            #[trigger] after[i],
            #[trigger] after[j],
        ) by {
            assert(after[i] == ks[a + i] && after[j] == ks[a + j]);
        }
    }
    assert forall|j: int| 0 <= j < after.len() && bytes_lt(#[trigger] after[j], k) implies prefix.is_prefix_of(
        after[j],
    ) by {
        assert(prefix.is_prefix_of(prefix));
        lemma_prefix_between(prefix, prefix, after[j], k);
    }
    lemma_leading_contains(after, prefix, k);
}

/// A string with the prefix `p` does not come before `p`.
proof fn lemma_prefix_not_after(p: Seq<u8>, k: Seq<u8>)
    requires
        p.is_prefix_of(k),
    ensures
        !bytes_lt(k, p),
    decreases p.len(),
{
    if p.len() > 0 {
        assert(k[0] == p[0]);
        assert(p.drop_first().is_prefix_of(k.drop_first()));
        lemma_prefix_not_after(p.drop_first(), k.drop_first());
    }
}

/// A walk visits no more keys than there are.
pub proof fn lemma_prefix_run_len(ks: Seq<Seq<u8>>, prefix: Seq<u8>, start: Seq<u8>)
    ensures
        prefix_run(ks, prefix, start).len() <= ks.len(),
{
    lemma_keys_after_suffix(ks, start);
    lemma_leading_take(keys_after(ks, start), prefix);
}

/// A key-value store of byte strings.
pub struct Storage {
    keys: Vec<Vec<u8>>,
    values: Vec<Vec<u8>>,
}

impl Storage {
    /// The keys held, in the order in which they are held.
    pub closed spec fn key_seq(&self) -> Seq<Seq<u8>> {
        Seq::new(self.keys@.len(), |i: int| self.keys@[i]@)
    }

    /// The values held, each at the position of its key.
    pub closed spec fn value_seq(&self) -> Seq<Seq<u8>> {
        Seq::new(self.values@.len(), |i: int| self.values@[i]@)
    }

    /// Each key has a value, and the keys are held in ascending order.
    pub open spec fn wf(&self) -> bool {
        &&& self.key_seq().len() == self.value_seq().len()
        &&& strictly_sorted(self.key_seq())
    }

    /// The value held under each key.
    pub open spec fn contents(&self) -> Map<Seq<u8>, Seq<u8>> {
        Map::new(
            |k: Seq<u8>| self.key_seq().contains(k),
            |k: Seq<u8>| self.value_seq()[self.key_seq().index_of(k)],
        )
    }

    /// An empty store.
    pub fn new() -> (s: Storage)
        ensures
            s.wf(),
            s.key_seq() == Seq::<Seq<u8>>::empty(),
            s.contents() == Map::<Seq<u8>, Seq<u8>>::empty(),
    {
        let s = Storage { keys: Vec::new(), values: Vec::new() };
        assert(s.key_seq() =~= Seq::<Seq<u8>>::empty());
        assert(s.contents() =~= Map::<Seq<u8>, Seq<u8>>::empty());
        s
    }

    /// The number of keys held.
    pub fn len(&self) -> (n: usize)
        requires
            self.wf(),
        ensures
            n == self.key_seq().len(),
    {
        self.keys.len()
    }

    /// The position of the first key that does not come before `key`.
    fn lower_bound(&self, key: &[u8]) -> (pos: usize)
        requires
            self.wf(),
        ensures
            pos <= self.key_seq().len(),
            forall|i: int| 0 <= i < pos ==> bytes_lt(#[trigger] self.key_seq()[i], key@),
            forall|i: int|
                pos <= i < self.key_seq().len() ==> !bytes_lt(#[trigger] self.key_seq()[i], key@),
    {
        let mut pos: usize = 0;
        while pos < self.keys.len() && bytes_less(self.keys[pos].as_slice(), key)
            invariant
                self.wf(),
                pos <= self.keys@.len(),
                forall|i: int| 0 <= i < pos ==> bytes_lt(#[trigger] self.key_seq()[i], key@),
            decreases self.keys@.len() - pos,
        {
            pos = pos + 1;
        }
        proof {
            assert forall|i: int| pos <= i < self.key_seq().len() implies !bytes_lt(
                #[trigger] self.key_seq()[i],
                key@,
            ) by {
                if i > pos && bytes_lt(self.key_seq()[i], key@) {
                    lemma_bytes_lt_transitive(self.key_seq()[pos as int], self.key_seq()[i], key@);
                }
            }
        }
        pos
    }

    /// The position of `key`, if it is held.
    fn find(&self, key: &[u8]) -> (r: (usize, bool))
        requires
            self.wf(),
        ensures
            r.0 <= self.key_seq().len(),
            forall|i: int| 0 <= i < r.0 ==> bytes_lt(#[trigger] self.key_seq()[i], key@),
            forall|i: int|
                r.0 < i < self.key_seq().len() ==> bytes_lt(key@, #[trigger] self.key_seq()[i]),
            r.1 == self.key_seq().contains(key@),
            r.1 ==> r.0 < self.key_seq().len() && self.key_seq()[r.0 as int] == key@,
            !r.1 ==> forall|i: int|
                r.0 <= i < self.key_seq().len() ==> bytes_lt(key@, #[trigger] self.key_seq()[i]),
    {
        let pos = self.lower_bound(key);
        let found = pos < self.keys.len() && bytes_equal(self.keys[pos].as_slice(), key);
        proof {
            let ks = self.key_seq();
            assert forall|i: int| pos < i < ks.len() implies bytes_lt(key@, #[trigger] ks[i]) by {
                lemma_bytes_lt_total(ks[pos as int], key@);
                if ks[pos as int] == key@ {
                } else {
                    lemma_bytes_lt_transitive(key@, ks[pos as int], ks[i]);
                }
            }
            if !found {
                assert forall|i: int| pos <= i < ks.len() implies bytes_lt(key@, #[trigger] ks[i]) by {
                    lemma_bytes_lt_total(ks[i], key@);
                    if i > pos {
                        lemma_bytes_lt_total(ks[pos as int], key@);
                        lemma_bytes_lt_transitive(key@, ks[pos as int], ks[i]);
                    }
                }
                if ks.contains(key@) {
                    let j = ks.index_of(key@);
                    lemma_bytes_lt_irreflexive(key@);
                    assert(ks[j] == key@);
                    if j < pos {
                        assert(bytes_lt(ks[j], key@));
                    } else {
                        assert(bytes_lt(key@, ks[j]));
                    }
                }
            } else {
                assert(ks[pos as int] == key@);
            }
        }
        (pos, found)
    }

    /// The value held under `key`, if any.
    pub fn get(&self, key: &[u8]) -> (r: Option<Vec<u8>>)
        requires
            self.wf(),
        ensures
            r matches Some(v) ==> self.contents().contains_key(key@) && v@ == self.contents()[key@],
            r is None ==> !self.contents().contains_key(key@),
    {
        let (pos, found) = self.find(key);
        if found {
            proof {
                lemma_index_of_sorted(self.key_seq(), pos as int);
            }
            Some(self.values[pos].clone())
        } else {
            None
        }
    }

    /// Whether a value is held under `key`.
    pub fn contains(&self, key: &[u8]) -> (b: bool)
        requires
            self.wf(),
        ensures
            b == self.contents().contains_key(key@),
    {
        let (_, found) = self.find(key);
        found
    }

    /// Holds `value` under `key`, replacing what was held there.
    pub fn set(&mut self, key: &[u8], value: &[u8])
        requires
            old(self).wf(),
        ensures
            final(self).wf(),
            final(self).contents() == old(self).contents().insert(key@, value@),
    {
        let (pos, found) = self.find(key);
        let ghost ks = self.key_seq();
        let ghost vs = self.value_seq();
        let ghost m = self.contents();
        let v = vstd::slice::slice_to_vec(value);
        if found {
            self.values.set(pos, v);
            proof {
                assert(self.key_seq() =~= ks);
                assert(self.value_seq() =~= vs.update(pos as int, value@));
                assert forall|k: Seq<u8>| #[trigger] self.contents().contains_key(k) implies self.contents()[k]
                    == m.insert(key@, value@)[k] by {
                    let j = ks.index_of(k);
                    lemma_index_of_sorted(ks, j);
                    if k == key@ {
                        lemma_index_of_sorted(ks, pos as int);
                    } else {
                        assert(j != pos);
                    }
                }
                assert(self.contents() =~= m.insert(key@, value@));
            }
        } else {
            let k = vstd::slice::slice_to_vec(key);
            self.keys.insert(pos, k);
            self.values.insert(pos, v);
            proof {
                let nks = self.key_seq();
                assert(nks =~= ks.insert(pos as int, key@));
                assert(self.value_seq() =~= vs.insert(pos as int, value@));
                assert forall|i: int, j: int| 0 <= i < j < nks.len() implies bytes_lt(
                    #[trigger] nks[i],
                    #[trigger] nks[j],
                ) by {
                    if j < pos {
                    } else if j == pos {
                    } else if i < pos {
                        lemma_bytes_lt_transitive(nks[i], key@, nks[j]);
                    } else if i == pos {
                    } else {
                        assert(nks[i] == ks[i - 1] && nks[j] == ks[j - 1]);
                    }
                }
                assert forall|k: Seq<u8>| nks.contains(k) == (ks.contains(k) || k == key@) by {
                    if nks.contains(k) {
                        let j = nks.index_of(k);
                        if j < pos {
                            assert(ks[j] == k);
                        } else if j > pos {
                            assert(ks[j - 1] == k);
                        }
                    }
                    if ks.contains(k) {
                        let j = ks.index_of(k);
                        if j < pos {
                            assert(nks[j] == k);
                        } else {
                            assert(nks[j + 1] == k);
                        }
                    }
                    if k == key@ {
                        assert(nks[pos as int] == k);
                    }
                }
                assert forall|k: Seq<u8>| #[trigger] self.contents().contains_key(k) implies self.contents()[k]
                    == m.insert(key@, value@)[k] by {
                    let j = nks.index_of(k);
                    lemma_index_of_sorted(nks, j);
                    if j < pos {
                        lemma_index_of_sorted(ks, j);
                    } else if j > pos {
                        lemma_index_of_sorted(ks, j - 1);
                    }
                }
                assert(self.contents() =~= m.insert(key@, value@));
            }
        }
    }

    /// The keys that walking the store from `start` visits while they begin
    /// with `prefix`, in ascending order.
    pub fn keys_in_run(&self, prefix: &[u8], start: &[u8]) -> (r: Vec<Vec<u8>>)
        requires
            self.wf(),
        ensures
            r@.len() == prefix_run(self.key_seq(), prefix@, start@).len(),
            forall|i: int|
                0 <= i < r@.len() ==> (#[trigger] r@[i])@ == prefix_run(
                    self.key_seq(),
                    prefix@,
                    start@,
                )[i],
    {
        let ghost ks = self.key_seq();
        let mut i: usize = 0;
        assert(ks.skip(0) =~= ks);
        while i < self.keys.len() && !bytes_less(start, self.keys[i].as_slice())
            invariant
                self.wf(),
                ks == self.key_seq(),
                i <= ks.len(),
                keys_after(ks, start@) == keys_after(ks.skip(i as int), start@),
            decreases ks.len() - i,
        {
            proof {
                assert(ks.skip(i as int)[0] == ks[i as int]);
                assert(ks.skip(i as int).drop_first() =~= ks.skip(i + 1));
            }
            i = i + 1;
        }
        let ghost first = i as int;
        proof {
            if i < ks.len() {
                assert(ks.skip(i as int)[0] == ks[i as int]);
            } else {
                assert(ks.skip(i as int) =~= Seq::<Seq<u8>>::empty());
            }
            assert(keys_after(ks.skip(i as int), start@) == ks.skip(i as int));
        }
        let mut out: Vec<Vec<u8>> = Vec::new();
        while i < self.keys.len() && crate::storage::bytes::starts_with(self.keys[i].as_slice(), prefix)
            invariant
                self.wf(),
                ks == self.key_seq(),
                0 <= first <= i <= ks.len(),
                out@.len() == i - first,
                forall|k: int| 0 <= k < out@.len() ==> (#[trigger] out@[k])@ == ks[first + k],
                leading_with_prefix(ks.skip(first), prefix@) == ks.subrange(first, i as int)
                    + leading_with_prefix(ks.skip(i as int), prefix@),
            decreases ks.len() - i,
        {
            proof {
                let rest = ks.skip(i as int);
                assert(rest[0] == ks[i as int]);
                assert(prefix@.is_prefix_of(rest[0])) by {
                    assert(ks[i as int].subrange(0, prefix@.len() as int) == prefix@);
                }
                assert(rest.drop_first() =~= ks.skip(i + 1));
                assert(i < ks.len());
                assert(leading_with_prefix(rest, prefix@) == seq![ks[i as int]]
                    + leading_with_prefix(ks.skip(i + 1), prefix@));
                assert(ks.subrange(first, i + 1) =~= ks.subrange(first, i as int).push(ks[i as int]));
                assert(ks.subrange(first, i + 1) + leading_with_prefix(ks.skip(i + 1), prefix@)
                    =~= ks.subrange(first, i as int) + (seq![ks[i as int]]
                    + leading_with_prefix(ks.skip(i + 1), prefix@)));
            }
            out.push(self.keys[i].clone());
            i = i + 1;
        }
        proof {
            let rest = ks.skip(i as int);
            if i < ks.len() {
                assert(rest[0] == ks[i as int]);
                if prefix@.is_prefix_of(rest[0]) {
                    assert(ks[i as int].subrange(0, prefix@.len() as int) =~= prefix@);
                }
            }
            assert(leading_with_prefix(rest, prefix@) =~= Seq::<Seq<u8>>::empty());
            assert(prefix_run(ks, prefix@, start@) =~= ks.subrange(first, i as int));
        }
        out
    }

    /// Removes what is held under `key`, if anything.
    pub fn clear(&mut self, key: &[u8])
        requires
            old(self).wf(),
        ensures
            final(self).wf(),
            final(self).contents() == old(self).contents().remove(key@),
    {
        let (pos, found) = self.find(key);
        let ghost ks = self.key_seq();
        let ghost vs = self.value_seq();
        let ghost m = self.contents();
        if found {
            self.keys.remove(pos);
            self.values.remove(pos);
            proof {
                let nks = self.key_seq();
                assert(nks =~= ks.remove(pos as int));
                assert(self.value_seq() =~= vs.remove(pos as int));
                assert forall|i: int, j: int| 0 <= i < j < nks.len() implies bytes_lt(
                    #[trigger] nks[i],
                    #[trigger] nks[j],
                ) by {
                    if j < pos {
                    } else if i < pos {
                        assert(nks[j] == ks[j + 1]);
                    } else {
                        assert(nks[i] == ks[i + 1] && nks[j] == ks[j + 1]);
                    }
                }
                assert forall|k: Seq<u8>| nks.contains(k) == (ks.contains(k) && k != key@) by {
                    if nks.contains(k) {
                        let j = nks.index_of(k);
                        lemma_bytes_lt_irreflexive(k);
                        if j < pos {
                            assert(ks[j] == k);
                            assert(bytes_lt(ks[j], ks[pos as int]));
                        } else {
                            assert(ks[j + 1] == k);
                            assert(bytes_lt(ks[pos as int], ks[j + 1]));
                        }
                    }
                    if ks.contains(k) && k != key@ {
                        let j = ks.index_of(k);
                        if j < pos {
                            assert(nks[j] == k);
                        } else {
                            assert(j != pos);
                            assert(nks[j - 1] == k);
                        }
                    }
                }
                assert forall|k: Seq<u8>| #[trigger] self.contents().contains_key(k) implies self.contents()[k]
                    == m.remove(key@)[k] by {
                    let j = nks.index_of(k);
                    lemma_index_of_sorted(nks, j);
                    if j < pos {
                        lemma_index_of_sorted(ks, j);
                    } else {
                        lemma_index_of_sorted(ks, j + 1);
                    }
                }
                assert(self.contents() =~= m.remove(key@));
            }
        } else {
            proof {
                assert(!m.contains_key(key@));
                assert(self.contents() =~= m.remove(key@));
            }
        }
    }
}

} // verus!
