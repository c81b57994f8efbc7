//! The hash functions of `sp-crypto-hashing`, and the hashers that turn an
//! encoded key into the last part of a storage key.
use vstd::prelude::*;

use crate::storage::bytes::{concat, skip_bytes};

verus! {

/// What `sp_crypto_hashing::twox_64` returns for `data`.
pub uninterp spec fn twox_64_of(data: Seq<u8>) -> Seq<u8>;

/// What `sp_crypto_hashing::twox_128` returns for `data`.
pub uninterp spec fn twox_128_of(data: Seq<u8>) -> Seq<u8>;

/// What `sp_crypto_hashing::twox_256` returns for `data`.
pub uninterp spec fn twox_256_of(data: Seq<u8>) -> Seq<u8>;

/// What `sp_crypto_hashing::blake2_128` returns for `data`.
pub uninterp spec fn blake2_128_of(data: Seq<u8>) -> Seq<u8>;

/// What `sp_crypto_hashing::blake2_256` returns for `data`.
pub uninterp spec fn blake2_256_of(data: Seq<u8>) -> Seq<u8>;

/// `sp_crypto_hashing::twox_64`: the 64-bit xxHash of `data`, as its 8 bytes.
#[verifier::external_body]
pub(crate) fn twox_64(data: &[u8]) -> (r: Vec<u8>)
    ensures
        r@ == twox_64_of(data@),
        r@.len() == 8,
{
    sp_crypto_hashing::twox_64(data).to_vec()
}

/// `sp_crypto_hashing::twox_128`: two 64-bit xxHashes of `data` (seeds 0 and
/// 1), as their 16 bytes.
#[verifier::external_body]
pub(crate) fn twox_128(data: &[u8]) -> (r: Vec<u8>)
    ensures
        r@ == twox_128_of(data@),
        r@.len() == 16,
{
    sp_crypto_hashing::twox_128(data).to_vec()
}

/// `sp_crypto_hashing::twox_256`: four 64-bit xxHashes of `data` (seeds 0 to
/// 3), as their 32 bytes.
#[verifier::external_body]
pub(crate) fn twox_256(data: &[u8]) -> (r: Vec<u8>)
    ensures
        r@ == twox_256_of(data@),
        r@.len() == 32,
{
    sp_crypto_hashing::twox_256(data).to_vec()
}

/// `sp_crypto_hashing::blake2_128`: the 128-bit Blake2b hash of `data`, as
/// its 16 bytes.
#[verifier::external_body]
pub(crate) fn blake2_128(data: &[u8]) -> (r: Vec<u8>)
    ensures
        r@ == blake2_128_of(data@),
        r@.len() == 16,
{
    sp_crypto_hashing::blake2_128(data).to_vec()
}

/// `sp_crypto_hashing::blake2_256`: the 256-bit Blake2b hash of `data`, as
/// its 32 bytes.
#[verifier::external_body]
pub(crate) fn blake2_256(data: &[u8]) -> (r: Vec<u8>)
    ensures
        r@ == blake2_256_of(data@),
        r@.len() == 32,
{
    sp_crypto_hashing::blake2_256(data).to_vec()
}

/// A hasher of storage keys.
#[allow(non_camel_case_types)]
#[derive(Debug, Clone, Copy, PartialEq, Eq, Structural)]
pub enum StorageHasher {
    /// The 128-bit Blake2b hash.
    Blake2_128,
    /// The 256-bit Blake2b hash.
    Blake2_256,
    /// The 128-bit Blake2b hash followed by the key itself.
    Blake2_128Concat,
    /// The 128-bit xxHash.
    Twox128,
    /// The 256-bit xxHash.
    Twox256,
    /// The 64-bit xxHash followed by the key itself.
    Twox64Concat,
    /// The key itself.
    Identity,
}

/// What `hasher` makes of `x`.
pub open spec fn spec_hash(hasher: StorageHasher, x: Seq<u8>) -> Seq<u8> {
    match hasher {
        StorageHasher::Blake2_128 => blake2_128_of(x),
        StorageHasher::Blake2_256 => blake2_256_of(x),
        StorageHasher::Blake2_128Concat => blake2_128_of(x) + x,
        StorageHasher::Twox128 => twox_128_of(x),
        StorageHasher::Twox256 => twox_256_of(x),
        StorageHasher::Twox64Concat => twox_64_of(x) + x,
        StorageHasher::Identity => x,
    }
}

/// Whether the hasher's output holds the key, so that the key can be read back.
pub open spec fn is_reversible(hasher: StorageHasher) -> bool {
    match hasher {
        StorageHasher::Blake2_128Concat | StorageHasher::Twox64Concat
        | StorageHasher::Identity => true,
        _ => false,
    }
}

/// The key that a reversible hasher's output `x` holds: what follows the hash,
/// or nothing where `x` is shorter than the hash.
pub open spec fn spec_reverse(hasher: StorageHasher, x: Seq<u8>) -> Seq<u8> {
    match hasher {
        StorageHasher::Blake2_128Concat => if x.len() < 16 {
            Seq::empty()
        } else {
            x.skip(16)
        },
        StorageHasher::Twox64Concat => if x.len() < 8 {
            Seq::empty()
        } else {
            x.skip(8)
        },
        _ => x,
    }
}

/// `a + b`, or `usize::MAX` where that is larger.
pub open spec fn saturating_add(a: nat, b: nat) -> nat {
    if a + b > usize::MAX {
        usize::MAX as nat
    } else {
        a + b
    }
}

/// The greatest length of the hasher's output, for keys whose encoding is at
/// most `key_max` bytes long.
pub open spec fn spec_max_len(hasher: StorageHasher, key_max: nat) -> nat {
    match hasher {
        StorageHasher::Blake2_128 => 16,
        StorageHasher::Blake2_256 => 32,
        StorageHasher::Blake2_128Concat => saturating_add(key_max, 16),
        StorageHasher::Twox128 => 16,
        StorageHasher::Twox256 => 32,
        StorageHasher::Twox64Concat => saturating_add(key_max, 8),
        StorageHasher::Identity => key_max,
    }
}

impl StorageHasher {
    /// What the hasher makes of `x`. A reversible hasher's output gives `x` back.
    pub fn hash(&self, x: &[u8]) -> (r: Vec<u8>)
        ensures
            r@ == spec_hash(*self, x@),
            is_reversible(*self) ==> spec_reverse(*self, r@) == x@,
    {
        let r = match self {
            StorageHasher::Blake2_128 => blake2_128(x),
            StorageHasher::Blake2_256 => blake2_256(x),
            StorageHasher::Blake2_128Concat => {
                let h = blake2_128(x);
                concat(h.as_slice(), x)
            },
            StorageHasher::Twox128 => twox_128(x),
            StorageHasher::Twox256 => twox_256(x),
            StorageHasher::Twox64Concat => {
                let h = twox_64(x);
                concat(h.as_slice(), x)
            },
            StorageHasher::Identity => vstd::slice::slice_to_vec(x),
        };
        proof {
            match self {
                StorageHasher::Blake2_128Concat => {
                    assert(r@.skip(16) =~= x@);
                },
                StorageHasher::Twox64Concat => {
                    assert(r@.skip(8) =~= x@);
                },
                _ => {},
            }
        }
        r
    }

    /// The key that a reversible hasher's output `x` holds.
    pub fn reverse(&self, x: &[u8]) -> (r: Vec<u8>)
        requires
            is_reversible(*self),
        ensures
            r@ == spec_reverse(*self, x@),
    {
        match self {
            StorageHasher::Blake2_128Concat => if x.len() < 16 {
                Vec::new()
            } else {
                skip_bytes(x, 16)
            },
            StorageHasher::Twox64Concat => if x.len() < 8 {
                Vec::new()
            } else {
                skip_bytes(x, 8)
            },
            _ => vstd::slice::slice_to_vec(x),
        }
    }

    /// The greatest length of the hasher's output, for keys whose encoding is
    /// at most `key_max` bytes long.
    pub fn max_len(&self, key_max: usize) -> (n: usize)
        ensures
            n == spec_max_len(*self, key_max as nat),
    {
        match self {
            StorageHasher::Blake2_128 => 16,
            StorageHasher::Blake2_256 => 32,
            StorageHasher::Blake2_128Concat => key_max.saturating_add(16),
            StorageHasher::Twox128 => 16,
            StorageHasher::Twox256 => 32,
            StorageHasher::Twox64Concat => key_max.saturating_add(8),
            StorageHasher::Identity => key_max,
        }
    }
}

} // verus!
