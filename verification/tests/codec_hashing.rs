use polkadot_parts::storage::codec::{compact_decode, compact_encode, Codec};
use polkadot_parts::storage::hashing::StorageHasher;

#[test]
fn integers_encode_little_endian() {
    assert_eq!(0x0102u16.encode(), vec![2, 1]);
    assert_eq!(0x0102_0304u32.encode(), vec![4, 3, 2, 1]);
    assert_eq!(u128::MAX.encode(), vec![255u8; 16]);
    assert_eq!(u32::decode(&[4, 3, 2, 1, 9]), Some(0x0102_0304));
    assert_eq!(u32::decode(&[4, 3, 2]), None);
    assert_eq!(u8::decode(&[7, 1]), Some(7));
    assert_eq!(u64::decode(&0xdead_beefu64.encode()), Some(0xdead_beef));
    assert_eq!(u16::max_encoded_len(), 2);
    assert_eq!(u64::metadata_name(), "u64");
}

#[test]
fn compact_lengths() {
    assert_eq!(compact_encode(1), vec![4]);
    assert_eq!(compact_encode(63), vec![252]);
    assert_eq!(compact_encode(64), vec![1, 1]);
    assert_eq!(compact_encode(16383), vec![0xfd, 0xff]);
    assert_eq!(compact_encode(16384), vec![2, 0, 1, 0]);
    assert_eq!(compact_encode(1 << 30), vec![3, 0, 0, 0, 64]);
    for n in [0u32, 1, 63, 64, 16383, 16384, (1 << 30) - 1, 1 << 30, u32::MAX] {
        let mut e = compact_encode(n);
        let len = e.len();
        e.push(0xaa);
        assert_eq!(compact_decode(&e), Some((n, len)));
    }
    // Not canonical: 1 written in two bytes.
    assert_eq!(compact_decode(&[5, 0]), None);
    assert_eq!(compact_decode(&[]), None);
    assert_eq!(compact_decode(&[7, 0, 0, 0, 0]), None);
}

#[test]
fn hashers_match_the_hash_functions() {
    let x = [1u8, 2, 3];
    let mut concat = sp_crypto_hashing::blake2_128(&x).to_vec();
    concat.extend_from_slice(&x);
    assert_eq!(StorageHasher::Blake2_128Concat.hash(&x), concat);
    assert_eq!(StorageHasher::Blake2_128.hash(&x), sp_crypto_hashing::blake2_128(&x).to_vec());
    assert_eq!(StorageHasher::Blake2_256.hash(&x), sp_crypto_hashing::blake2_256(&x).to_vec());
    assert_eq!(StorageHasher::Twox128.hash(&x), sp_crypto_hashing::twox_128(&x).to_vec());
    assert_eq!(StorageHasher::Twox256.hash(&x), sp_crypto_hashing::twox_256(&x).to_vec());
    let mut twox_concat = sp_crypto_hashing::twox_64(&x).to_vec();
    twox_concat.extend_from_slice(&x);
    assert_eq!(StorageHasher::Twox64Concat.hash(&x), twox_concat);
    assert_eq!(StorageHasher::Identity.hash(&x), x.to_vec());
    assert_ne!(StorageHasher::Twox128.hash(&x), x.to_vec());
}

#[test]
fn reversible_hashers_give_the_key_back() {
    let x = [9u8, 8, 7, 6];
    for h in [StorageHasher::Blake2_128Concat, StorageHasher::Twox64Concat, StorageHasher::Identity] {
        assert_eq!(h.reverse(&h.hash(&x)), x.to_vec());
    }
    assert_eq!(StorageHasher::Blake2_128Concat.reverse(&[1, 2]), Vec::<u8>::new());
}

#[test]
fn max_lengths_of_hashers() {
    assert_eq!(StorageHasher::Blake2_128Concat.max_len(4), 20);
    assert_eq!(StorageHasher::Twox64Concat.max_len(usize::MAX), usize::MAX);
    assert_eq!(StorageHasher::Blake2_256.max_len(100), 32);
    assert_eq!(StorageHasher::Identity.max_len(5), 5);
}
