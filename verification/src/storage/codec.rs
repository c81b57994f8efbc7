//! The encoding of storage keys and values: fixed-width integers as their
//! little-endian bytes, and lengths in the compact form that prefixes an
//! encoded vector.
use vstd::prelude::*;

verus! {

/// `256` to the power `n`.
pub open spec fn pow256(n: nat) -> nat
    decreases n,
{
    if n == 0 {
        1
    } else {
        256 * pow256((n - 1) as nat)
    }
}

/// The `n` lowest bytes of `x`, least significant first.
pub open spec fn le_bytes(x: nat, n: nat) -> Seq<u8>
    decreases n,
{
    if n == 0 {
        Seq::empty()
    } else {
        seq![(x % 256) as u8] + le_bytes(x / 256, (n - 1) as nat)
    }
}

/// The number whose bytes, least significant first, are `s`.
pub open spec fn le_value(s: Seq<u8>) -> nat
    decreases s.len(),
{
    if s.len() == 0 {
        0
    } else {
        s[0] as nat + 256 * le_value(s.drop_first())
    }
}

/// `le_bytes` has the length asked for.
pub proof fn lemma_le_bytes_len(x: nat, n: nat)
    ensures
        le_bytes(x, n).len() == n,
    decreases n,
{
    if n > 0 {
        lemma_le_bytes_len(x / 256, (n - 1) as nat);
    }
}

/// A number of `n` bytes is below `256^n`.
pub proof fn lemma_le_value_bound(s: Seq<u8>)
    ensures
        le_value(s) < pow256(s.len()),
    decreases s.len(),
{
    if s.len() > 0 {
        lemma_le_value_bound(s.drop_first());
        let r = le_value(s.drop_first());
        let p = pow256((s.len() - 1) as nat);
        assert(s[0] as nat + 256 * r < 256 * p) by (nonlinear_arith)
            requires
                r < p,
                s[0] < 256,
        ;
    }
}

/// Reading back the `n` bytes of a number below `256^n` gives the number.
pub proof fn lemma_le_roundtrip(x: nat, n: nat)
    requires
        x < pow256(n),
    ensures
        le_value(le_bytes(x, n)) == x,
    decreases n,
{
    if n > 0 {
        let p = pow256((n - 1) as nat);
        assert(x / 256 < p) by (nonlinear_arith)
            requires
                x < 256 * p,
        ;
        lemma_le_roundtrip(x / 256, (n - 1) as nat);
        let s = le_bytes(x, n);
        assert(s.drop_first() =~= le_bytes(x / 256, (n - 1) as nat));
        vstd::arithmetic::div_mod::lemma_fundamental_div_mod(x as int, 256);
    }
}

/// The 16-byte power of 256 is `2^128`.
pub proof fn lemma_pow256_16()
    ensures
        pow256(16) == 0x1_0000_0000_0000_0000_0000_0000_0000_0000nat,
{
    reveal_with_fuel(pow256, 17);
}

/// The powers of 256 grow with the exponent.
pub proof fn lemma_pow256_monotone(a: nat, b: nat)
    requires
        a <= b,
    ensures
        pow256(a) <= pow256(b),
    decreases b,
{
    if a < b {
        lemma_pow256_monotone(a, (b - 1) as nat);
    }
}

/// The `n` lowest bytes of `x`, least significant first.
pub fn encode_le(x: u128, n: usize) -> (r: Vec<u8>)
    requires
        n <= 16,
    ensures
        r@ == le_bytes(x as nat, n as nat),
{
    let mut out: Vec<u8> = Vec::new();
    let mut v: u128 = x;
    let mut i: usize = 0;
    while i < n
        invariant
            i <= n,
            out@ + le_bytes(v as nat, (n - i) as nat) == le_bytes(x as nat, n as nat),
        decreases n - i,
    {
        let b = (v % 256) as u8;
        proof {
            let rest = le_bytes((v / 256) as nat, (n - i - 1) as nat);
            assert(le_bytes(v as nat, (n - i) as nat) == seq![b] + rest);
            assert(out@.push(b) + rest =~= out@ + (seq![b] + rest));
        }
        out.push(b);
        v = v / 256;
        i = i + 1;
    }
    assert(out@ + le_bytes(v as nat, 0) =~= out@);
    out
}

/// The number whose `n` bytes, least significant first, begin `bytes`, or
/// `None` where `bytes` is shorter than `n`.
pub fn decode_le(bytes: &[u8], n: usize) -> (r: Option<u128>)
    requires
        n <= 16,
    ensures
        r == if bytes@.len() >= n {
            Some(le_value(bytes@.take(n as int)) as u128)
        } else {
            None::<u128>
        },
        r matches Some(v) ==> v as nat == le_value(bytes@.take(n as int)),
{
    if bytes.len() < n {
        return None;
    }
    let ghost s = bytes@.take(n as int);
    let mut acc: u128 = 0;
    let mut i: usize = n;
    proof {
        lemma_pow256_16();
    }
    while i > 0
        invariant
            n <= 16,
            n <= bytes@.len(),
            s == bytes@.take(n as int),
            i <= n,
            acc as nat == le_value(s.subrange(i as int, n as int)),
            pow256(16) == 0x1_0000_0000_0000_0000_0000_0000_0000_0000nat,
        decreases i,
    {
        let ghost tail = s.subrange(i as int, n as int);
        proof {
            lemma_le_value_bound(tail);
            lemma_pow256_monotone(tail.len() + 1, 16);
            let p = pow256(tail.len());
            assert(acc * 256 + bytes@[i - 1] < 256 * p) by (nonlinear_arith)
                requires
                    acc < p,
                    bytes@[i - 1] < 256,
            ;
            assert(s.subrange(i - 1, n as int).drop_first() =~= tail);
            assert(s.subrange(i - 1, n as int)[0] == bytes@[i - 1]);
        }
        acc = acc * 256 + bytes[i - 1] as u128;
        i = i - 1;
    }
    assert(s.subrange(0, n as int) =~= s);
    proof {
        lemma_le_value_bound(s);
        lemma_pow256_monotone(n as nat, 16);
    }
    Some(acc)
}

/// The compact encoding of a 32-bit number `n`: in one byte where it is below
/// `2^6`, in two where below `2^14`, in four where below `2^30`, and otherwise
/// the marker byte `3` followed by the four bytes of `n`; the lowest two bits
/// of the first byte tell which.
pub open spec fn spec_compact_encode(n: nat) -> Seq<u8> {
    if n < 64 {
        seq![(4 * n) as u8]
    } else if n < 16384 {
        le_bytes(4 * n + 1, 2)
    } else if n < 1073741824 {
        le_bytes(4 * n + 2, 4)
    } else {
        seq![3u8] + le_bytes(n, 4)
    }
}

/// The 32-bit number that `b` begins with in compact encoding and the number of
/// bytes it takes, or `None` where `b` begins with no canonical compact encoding.
pub open spec fn spec_compact_decode(b: Seq<u8>) -> Option<(nat, nat)> {
    if b.len() == 0 {
        None
    } else if b[0] % 4 == 0 {
        Some(((b[0] / 4) as nat, 1))
    } else if b[0] % 4 == 1 {
        if b.len() >= 2 && le_value(b.take(2)) / 4 > 63 {
            Some((le_value(b.take(2)) / 4, 2))
        } else {
            None
        }
    } else if b[0] % 4 == 2 {
        if b.len() >= 4 && le_value(b.take(4)) / 4 > 16383 {
            Some((le_value(b.take(4)) / 4, 4))
        } else {
            None
        }
    } else {
        if b[0] / 4 == 0 && b.len() >= 5 && le_value(b.subrange(1, 5)) >= 1073741824 {
            Some((le_value(b.subrange(1, 5)), 5))
        } else {
            None
        }
    }
}

/// The first byte of `le_bytes(x, n)` is the lowest byte of `x`.
proof fn lemma_le_bytes_first(x: nat, n: nat)
    requires
        n > 0,
    ensures
        le_bytes(x, n)[0] == x % 256,
        le_bytes(x, n).len() == n,
{
    lemma_le_bytes_len(x, n);
}

/// Decoding the compact encoding of `n`, whatever follows it, gives `n` and the
/// length of the encoding.
pub proof fn lemma_compact_roundtrip(n: nat, rest: Seq<u8>)
    requires
        n <= u32::MAX,
    ensures
        spec_compact_decode(spec_compact_encode(n) + rest) == Some(
            (n, spec_compact_encode(n).len()),
        ),
{
    let e = spec_compact_encode(n);
    let b = e + rest;
    if n < 64 {
        assert(b[0] == (4 * n) as u8);
        assert(b[0] % 4 == 0);
    } else if n < 16384 {
        let x = 4 * n + 1;
        reveal_with_fuel(pow256, 3);
        lemma_le_bytes_first(x, 2);
        lemma_le_roundtrip(x, 2);
        assert(b[0] == x % 256);
        assert((x % 256) % 4 == 1) by {
            vstd::arithmetic::div_mod::lemma_mod_mod(x as int, 4, 64);
        }
        assert(b.take(2) =~= e);
        assert(x / 4 == n);
    } else if n < 1073741824 {
        let x = 4 * n + 2;
        reveal_with_fuel(pow256, 5);
        lemma_le_bytes_first(x, 4);
        lemma_le_roundtrip(x, 4);
        assert(b[0] == x % 256);
        assert((x % 256) % 4 == 2) by {
            vstd::arithmetic::div_mod::lemma_mod_mod(x as int, 4, 64);
        }
        assert(b.take(4) =~= e);
        assert(x / 4 == n);
    } else {
        reveal_with_fuel(pow256, 5);
        lemma_le_bytes_len(n, 4);
        lemma_le_roundtrip(n, 4);
        assert(b[0] == 3u8);
        assert(b.subrange(1, 5) =~= le_bytes(n, 4));
    }
}

/// The compact encoding of `n`.
pub fn compact_encode(n: u32) -> (r: Vec<u8>)
    ensures
        r@ == spec_compact_encode(n as nat),
{
    if n < 64 {
        let mut r = Vec::new();
        r.push((4 * n) as u8);
        r
    } else if n < 16384 {
        encode_le((4 * n + 1) as u128, 2)
    } else if n < 1073741824 {
        encode_le((4 * (n as u128) + 2) as u128, 4)
    } else {
        let mut r = Vec::new();
        r.push(3u8);
        let tail = encode_le(n as u128, 4);
        let mut i: usize = 0;
        while i < tail.len()
            invariant
                i <= tail@.len(),
                r@ == seq![3u8] + tail@.subrange(0, i as int),
            decreases tail@.len() - i,
        {
            r.push(tail[i]);
            proof {
                assert(tail@.subrange(0, i + 1) =~= tail@.subrange(0, i as int).push(tail@[i as int]));
                assert(seq![3u8] + tail@.subrange(0, i + 1) =~= (seq![3u8] + tail@.subrange(
                    0,
                    i as int,
                )).push(tail@[i as int]));
            }
            i = i + 1;
        }
        assert(tail@.subrange(0, tail@.len() as int) =~= tail@);
        r
    }
}

/// The number that `bytes` begins with in compact encoding and the number of
/// bytes it takes, if `bytes` begins with a canonical compact encoding.
pub fn compact_decode(bytes: &[u8]) -> (r: Option<(u32, usize)>)
    ensures
        match (r, spec_compact_decode(bytes@)) {
            (Some((v, c)), Some((sv, sc))) => v == sv && c == sc,
            (None, None) => true,
            _ => false,
        },
{
    if bytes.len() == 0 {
        return None;
    }
    let b0 = bytes[0];
    if b0 % 4 == 0 {
        Some(((b0 / 4) as u32, 1))
    } else if b0 % 4 == 1 {
        match decode_le(bytes, 2) {
            Some(v) => {
                proof {
                    reveal_with_fuel(pow256, 3);
                    lemma_le_value_bound(bytes@.take(2));
                }
                if v / 4 > 63 {
                    Some(((v / 4) as u32, 2))
                } else {
                    None
                }
            },
            None => None,
        }
    } else if b0 % 4 == 2 {
        match decode_le(bytes, 4) {
            Some(v) => {
                proof {
                    reveal_with_fuel(pow256, 5);
                    lemma_le_value_bound(bytes@.take(4));
                }
                if v / 4 > 16383 {
                    Some(((v / 4) as u32, 4))
                } else {
                    None
                }
            },
            None => None,
        }
    } else {
        if b0 / 4 != 0 || bytes.len() < 5 {
            return None;
        }
        let tail = crate::storage::bytes::skip_bytes(bytes, 1);
        match decode_le(tail.as_slice(), 4) {
            Some(v) => {
                proof {
                    reveal_with_fuel(pow256, 5);
                    lemma_le_value_bound(tail@.take(4));
                    assert(tail@.take(4) =~= bytes@.subrange(1, 5));
                }
                if v >= 1073741824 {
                    Some((v as u32, 5))
                } else {
                    None
                }
            },
            None => None,
        }
    }
}

/// A value that the storage holds as bytes.
pub trait Codec: Sized {
    /// The encoding of the value.
    spec fn spec_encode(&self) -> Seq<u8>;

    /// The value that `bytes` begins with, or `None` where they begin with none.
    spec fn spec_decode(bytes: Seq<u8>) -> Option<Self>;

    /// The greatest length of an encoding.
    spec fn spec_max_encoded_len() -> nat;

    /// The name of the type, as the metadata gives it.
    spec fn spec_metadata_name() -> Seq<char>;

    /// The encoding of the value.
    fn encode(&self) -> (r: Vec<u8>)
        ensures
            r@ == self.spec_encode(),
    ;

    /// The value that `bytes` begins with, if any.
    fn decode(bytes: &[u8]) -> (r: Option<Self>)
        ensures
            r == Self::spec_decode(bytes@),
    ;

    /// The greatest length of an encoding.
    fn max_encoded_len() -> (n: usize)
        ensures
            n == Self::spec_max_encoded_len(),
    ;

    /// The name of the type, as the metadata gives it.
    fn metadata_name() -> (s: String)
        ensures
            s@ == Self::spec_metadata_name(),
    ;

    /// A copy of the value.
    fn duplicate(&self) -> (r: Self)
        ensures
            r == *self,
    ;

    /// Decoding an encoding gives back the value.
    proof fn lemma_decode_encode(v: Self)
        ensures
            Self::spec_decode(v.spec_encode()) == Some(v),
    ;

    /// An encoding is no longer than the greatest length.
    proof fn lemma_encoded_len(v: Self)
        ensures
            v.spec_encode().len() <= Self::spec_max_encoded_len(),
    ;
}

/// The encoding of `x` in `n` bytes, and what `bytes` begin with.
pub open spec fn fixed_decode(bytes: Seq<u8>, n: nat) -> Option<nat> {
    if bytes.len() >= n {
        Some(le_value(bytes.take(n as int)))
    } else {
        None
    }
}

proof fn lemma_fixed_roundtrip(x: nat, n: nat)
    requires
        x < pow256(n),
    ensures
        fixed_decode(le_bytes(x, n), n) == Some(x),
{
    lemma_le_bytes_len(x, n);
    lemma_le_roundtrip(x, n);
    assert(le_bytes(x, n).take(n as int) =~= le_bytes(x, n));
}

impl Codec for u8 {
    open spec fn spec_encode(&self) -> Seq<u8> {
        le_bytes(*self as nat, 1)
    }

    open spec fn spec_decode(bytes: Seq<u8>) -> Option<u8> {
        match fixed_decode(bytes, 1) {
            Some(v) => Some(v as u8),
            None => None,
        }
    }

    open spec fn spec_max_encoded_len() -> nat {
        1
    }

    open spec fn spec_metadata_name() -> Seq<char> {
        "u8"@
    }

    fn encode(&self) -> (r: Vec<u8>) {
        encode_le(*self as u128, 1)
    }

    fn decode(bytes: &[u8]) -> (r: Option<u8>) {
        match decode_le(bytes, 1) {
            Some(v) => {
                proof {
                    lemma_le_value_bound(bytes@.take(1));
                    reveal_with_fuel(pow256, 2);
                }
                Some(v as u8)
            },
            None => None,
        }
    }

    fn max_encoded_len() -> (n: usize) {
        1
    }

    fn metadata_name() -> (s: String) {
        "u8".to_owned()
    }

    fn duplicate(&self) -> (r: u8) {
        *self
    }

    proof fn lemma_decode_encode(v: u8) {
        reveal_with_fuel(pow256, 2);
        lemma_fixed_roundtrip(v as nat, 1);
    }

    proof fn lemma_encoded_len(v: u8) {
        lemma_le_bytes_len(v as nat, 1);
    }
}

impl Codec for u16 {
    open spec fn spec_encode(&self) -> Seq<u8> {
        le_bytes(*self as nat, 2)
    }

    open spec fn spec_decode(bytes: Seq<u8>) -> Option<u16> {
        match fixed_decode(bytes, 2) {
            Some(v) => Some(v as u16),
            None => None,
        }
    }

    open spec fn spec_max_encoded_len() -> nat {
        2
    }

    open spec fn spec_metadata_name() -> Seq<char> {
        "u16"@
    }

    fn encode(&self) -> (r: Vec<u8>) {
        encode_le(*self as u128, 2)
    }

    fn decode(bytes: &[u8]) -> (r: Option<u16>) {
        match decode_le(bytes, 2) {
            Some(v) => {
                proof {
                    lemma_le_value_bound(bytes@.take(2));
                    reveal_with_fuel(pow256, 3);
                }
                Some(v as u16)
            },
            None => None,
        }
    }

    fn max_encoded_len() -> (n: usize) {
        2
    }

    fn metadata_name() -> (s: String) {
        "u16".to_owned()
    }

    fn duplicate(&self) -> (r: u16) {
        *self
    }

    proof fn lemma_decode_encode(v: u16) {
        reveal_with_fuel(pow256, 3);
        lemma_fixed_roundtrip(v as nat, 2);
    }

    proof fn lemma_encoded_len(v: u16) {
        lemma_le_bytes_len(v as nat, 2);
    }
}

impl Codec for u32 {
    open spec fn spec_encode(&self) -> Seq<u8> {
        le_bytes(*self as nat, 4)
    }

    open spec fn spec_decode(bytes: Seq<u8>) -> Option<u32> {
        match fixed_decode(bytes, 4) {
            Some(v) => Some(v as u32),
            None => None,
        }
    }

    open spec fn spec_max_encoded_len() -> nat {
        4
    }

    open spec fn spec_metadata_name() -> Seq<char> {
        "u32"@
    }

    fn encode(&self) -> (r: Vec<u8>) {
        encode_le(*self as u128, 4)
    }

    fn decode(bytes: &[u8]) -> (r: Option<u32>) {
        match decode_le(bytes, 4) {
            Some(v) => {
                proof {
                    lemma_le_value_bound(bytes@.take(4));
                    reveal_with_fuel(pow256, 5);
                }
                Some(v as u32)
            },
            None => None,
        }
    }

    fn max_encoded_len() -> (n: usize) {
        4
    }

    fn metadata_name() -> (s: String) {
        "u32".to_owned()
    }

    fn duplicate(&self) -> (r: u32) {
        *self
    }

    proof fn lemma_decode_encode(v: u32) {
        reveal_with_fuel(pow256, 5);
        lemma_fixed_roundtrip(v as nat, 4);
    }

    proof fn lemma_encoded_len(v: u32) {
        lemma_le_bytes_len(v as nat, 4);
    }
}

impl Codec for u64 {
    open spec fn spec_encode(&self) -> Seq<u8> {
        le_bytes(*self as nat, 8)
    }

    open spec fn spec_decode(bytes: Seq<u8>) -> Option<u64> {
        match fixed_decode(bytes, 8) {
            Some(v) => Some(v as u64),
            None => None,
        }
    }

    open spec fn spec_max_encoded_len() -> nat {
        8
    }

    open spec fn spec_metadata_name() -> Seq<char> {
        "u64"@
    }

    fn encode(&self) -> (r: Vec<u8>) {
        encode_le(*self as u128, 8)
    }

    fn decode(bytes: &[u8]) -> (r: Option<u64>) {
        match decode_le(bytes, 8) {
            Some(v) => {
                proof {
                    lemma_le_value_bound(bytes@.take(8));
                    reveal_with_fuel(pow256, 9);
                }
                Some(v as u64)
            },
            None => None,
        }
    }

    fn max_encoded_len() -> (n: usize) {
        8
    }

    fn metadata_name() -> (s: String) {
        "u64".to_owned()
    }

    fn duplicate(&self) -> (r: u64) {
        *self
    }

    proof fn lemma_decode_encode(v: u64) {
        reveal_with_fuel(pow256, 9);
        lemma_fixed_roundtrip(v as nat, 8);
    }

    proof fn lemma_encoded_len(v: u64) {
        lemma_le_bytes_len(v as nat, 8);
    }
}

impl Codec for u128 {
    open spec fn spec_encode(&self) -> Seq<u8> {
        le_bytes(*self as nat, 16)
    }

    open spec fn spec_decode(bytes: Seq<u8>) -> Option<u128> {
        match fixed_decode(bytes, 16) {
            Some(v) => Some(v as u128),
            None => None,
        }
    }

    open spec fn spec_max_encoded_len() -> nat {
        16
    }

    open spec fn spec_metadata_name() -> Seq<char> {
        "u128"@
    }

    fn encode(&self) -> (r: Vec<u8>) {
        encode_le(*self, 16)
    }

    fn decode(bytes: &[u8]) -> (r: Option<u128>) {
        decode_le(bytes, 16)
    }

    fn max_encoded_len() -> (n: usize) {
        16
    }

    fn metadata_name() -> (s: String) {
        "u128".to_owned()
    }

    fn duplicate(&self) -> (r: u128) {
        *self
    }

    proof fn lemma_decode_encode(v: u128) {
        lemma_pow256_16();
        lemma_fixed_roundtrip(v as nat, 16);
    }

    proof fn lemma_encoded_len(v: u128) {
        lemma_le_bytes_len(v as nat, 16);
    }
}

} // verus!
