//! The bit-vectors of the `bitvec` crate, as the statement filters hold them.
use vstd::prelude::*;

use bitvec::order::Lsb0;
use bitvec::vec::BitVec;

verus! {

/// A `bitvec::vec::BitVec<u8, Lsb0>`: a growable vector of bits, packed into
/// bytes from their least significant bit. Verus refuses a declaration of
/// `BitVec` itself (its bounds name traits of `bitvec`), so the vector stands in
/// a private field here, and the items below say what each call does to it.
#[verifier::external_body]
pub struct Bits {
    inner: BitVec<u8, Lsb0>,
}

/// The bits that a bit-vector holds, first bit first.
pub uninterp spec fn bits_of(v: Bits) -> Seq<bool>;

/// The most bits that a bit-vector can hold (`BitSlice::MAX_BITS`: all bits of a
/// `usize` but the three that address a bit within a byte).
pub open spec fn max_bits() -> nat {
    (usize::MAX / 8) as nat
}

impl Bits {
    /// `BitVec::repeat`: a bit-vector of `len` copies of `bit`. It panics where
    /// `len` exceeds `BitSlice::MAX_BITS`, which `requires` leaves out.
    #[verifier::external_body]
    pub(crate) fn repeat(bit: bool, len: usize) -> (r: Bits)
        requires
            len <= max_bits(),
        ensures
            bits_of(r) == Seq::new(len as nat, |i: int| bit),
    {
        Bits { inner: BitVec::repeat(bit, len) }
    }

    /// `BitVec::len`: the number of bits held.
    #[verifier::external_body]
    pub(crate) fn len(&self) -> (n: usize)
        ensures
            n == bits_of(*self).len(),
    {
        self.inner.len()
    }

    /// Indexing by a bit position (`Index<usize>` of `BitSlice`): the bit at
    /// `index`. It panics out of bounds, which `requires` leaves out.
    #[verifier::external_body]
    pub(crate) fn get(&self, index: usize) -> (b: bool)
        requires
            index < bits_of(*self).len(),
        ensures
            b == bits_of(*self)[index as int],
    {
        self.inner[index]
    }

    /// `BitSlice::set`: writes `value` into the bit at `index` and leaves the
    /// others. It panics out of bounds, which `requires` leaves out.
    #[verifier::external_body]
    pub(crate) fn set(&mut self, index: usize, value: bool)
        requires
            index < bits_of(*old(self)).len(),
        ensures
            bits_of(*final(self)) == bits_of(*old(self)).update(index as int, value),
    {
        self.inner.set(index, value)
    }

    /// `BitVec::push`: appends `value` after the last bit. It panics where the
    /// vector already holds `BitSlice::MAX_BITS` bits, which `requires` leaves out.
    #[verifier::external_body]
    pub(crate) fn push(&mut self, value: bool)
        requires
            bits_of(*old(self)).len() < max_bits(),
        ensures
            bits_of(*final(self)) == bits_of(*old(self)).push(value),
    {
        self.inner.push(value)
    }
}

/// A bit-vector holding the given bits, first bit first.
pub fn bits_from(values: &Vec<bool>) -> (r: Bits)
    requires
        values@.len() <= max_bits(),
    ensures
        bits_of(r) == values@,
{
    let mut r = Bits::repeat(false, 0);
    let mut i: usize = 0;
    while i < values.len()
        invariant
            i <= values@.len() <= max_bits(),
            bits_of(r) == values@.subrange(0, i as int),
        decreases values@.len() - i,
    {
        r.push(values[i]);
        proof {
            assert(values@.subrange(0, i + 1) == values@.subrange(0, i as int).push(values@[i as int]));
        }
        i = i + 1;
    }
    assert(values@.subrange(0, values@.len() as int) == values@);
    r
}

/// The bits that a bit-vector holds, first bit first.
pub fn bits_to_vec(v: &Bits) -> (r: Vec<bool>)
    ensures
        r@ == bits_of(*v),
{
    let n = v.len();
    let mut r: Vec<bool> = Vec::new();
    let mut i: usize = 0;
    while i < n
        invariant
            i <= n == bits_of(*v).len(),
            r@ == bits_of(*v).subrange(0, i as int),
        decreases n - i,
    {
        r.push(v.get(i));
        proof {
            assert(bits_of(*v).subrange(0, i + 1) == bits_of(*v).subrange(0, i as int).push(
                bits_of(*v)[i as int],
            ));
        }
        i = i + 1;
    }
    assert(bits_of(*v).subrange(0, n as int) == bits_of(*v));
    r
}

} // verus!
