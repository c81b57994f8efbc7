use polkadot_parts::storage::backend::Storage;
use polkadot_parts::storage::hashing::StorageHasher;
use polkadot_parts::storage::map::{
    ItemDeprecationInfo, KeyLenOf, KillStorageResult, OptionQuery, StorageEntryMetadata,
    StorageEntryModifier, StorageMap, ValueQuery,
};

fn map_a() -> StorageMap<u16, u32, OptionQuery> {
    StorageMap::new("test", "foo", StorageHasher::Blake2_128Concat, OptionQuery, None)
}

fn map_a_value_query_with_an_on_empty() -> StorageMap<u16, u32, ValueQuery<u32>> {
    StorageMap::new(
        "test",
        "foo",
        StorageHasher::Blake2_128Concat,
        ValueQuery { on_empty: 97 },
        None,
    )
}

#[test]
fn keylenof_works() {
    // Works with Blake2_128Concat.
    let a: StorageMap<u32, u32, OptionQuery> =
        StorageMap::new("test", "foo", StorageHasher::Blake2_128Concat, OptionQuery, None);
    let size = 16 * 2 // Two Twox128
        + 16 + 4; // Blake2_128Concat = hash + key
    assert_eq!(KeyLenOf(&a).get(), size);

    // Works with Blake2_256.
    let b: StorageMap<u32, u32, OptionQuery> =
        StorageMap::new("test", "foo", StorageHasher::Blake2_256, OptionQuery, None);
    let size = 16 * 2 // Two Twox128
        + 32; // Blake2_256
    assert_eq!(KeyLenOf(&b).get(), size);

    // Works with Twox64Concat.
    let c: StorageMap<u32, u32, OptionQuery> =
        StorageMap::new("test", "foo", StorageHasher::Twox64Concat, OptionQuery, None);
    let size = 16 * 2 // Two Twox128
        + 8 + 4; // Twox64Concat = hash + key
    assert_eq!(KeyLenOf(&c).get(), size);
}

#[test]
fn test() {
    let a = map_a();
    let a_value_query_with_an_on_empty = map_a_value_query_with_an_on_empty();
    let b: StorageMap<u16, u32, ValueQuery<u32>> = StorageMap::new(
        "test",
        "foo",
        StorageHasher::Blake2_256,
        ValueQuery { on_empty: 0 },
        None,
    );
    let c: StorageMap<u16, u8, ValueQuery<u8>> = StorageMap::new(
        "test",
        "foo",
        StorageHasher::Blake2_128Concat,
        ValueQuery { on_empty: 0 },
        None,
    );
    let with_len: StorageMap<u16, Vec<u32>, OptionQuery> =
        StorageMap::new("test", "foo", StorageHasher::Blake2_128Concat, OptionQuery, None);

    let mut st = Storage::new();

    let mut k: Vec<u8> = vec![];
    k.extend(&sp_crypto_hashing::twox_128(b"test"));
    k.extend(&sp_crypto_hashing::twox_128(b"foo"));
    k.extend(&sp_crypto_hashing::blake2_128(&3u16.to_le_bytes()));
    k.extend(&3u16.to_le_bytes());
    assert_eq!(a.hashed_key_for(3).to_vec(), k);

    assert_eq!(a.contains_key(&st, 3), false);
    assert_eq!(a.get(&st, 3), None);
    assert_eq!(a_value_query_with_an_on_empty.get(&st, 3), 97);

    a.insert(&mut st, 3, 10);
    assert_eq!(a.contains_key(&st, 3), true);
    assert_eq!(a.get(&st, 3), Some(10));
    assert_eq!(a.try_get(&st, 3), Ok(10));
    assert_eq!(a_value_query_with_an_on_empty.get(&st, 3), 10);

    a.swap(&mut st, 3, 2);
    assert_eq!(a.contains_key(&st, 3), false);
    assert_eq!(a.contains_key(&st, 2), true);
    assert_eq!(a.get(&st, 3), None);
    assert_eq!(a.try_get(&st, 3), Err(()));
    assert_eq!(a_value_query_with_an_on_empty.get(&st, 3), 97);
    assert_eq!(a.get(&st, 2), Some(10));
    assert_eq!(a_value_query_with_an_on_empty.get(&st, 2), 10);

    a.remove(&mut st, 2);
    assert_eq!(a.contains_key(&st, 2), false);
    assert_eq!(a.get(&st, 2), None);

    a_value_query_with_an_on_empty.mutate(&mut st, 2, |v| (v * 2, ()));
    a_value_query_with_an_on_empty.mutate(&mut st, 2, |v| (v * 2, ()));
    assert_eq!(a_value_query_with_an_on_empty.contains_key(&st, 2), true);
    assert_eq!(a_value_query_with_an_on_empty.get(&st, 2), 97 * 4);

    a.remove(&mut st, 2);
    let _: Result<(), ()> =
        a_value_query_with_an_on_empty.try_mutate(&mut st, 2, |v| (v * 2, Ok(())));
    let _: Result<(), ()> =
        a_value_query_with_an_on_empty.try_mutate(&mut st, 2, |v| (v * 2, Ok(())));
    assert_eq!(a.contains_key(&st, 2), true);
    assert_eq!(a.get(&st, 2), Some(97 * 4));

    a.remove(&mut st, 2);
    let _: Result<(), ()> =
        a_value_query_with_an_on_empty.try_mutate(&mut st, 2, |v| (v * 2, Err(())));
    assert_eq!(a.contains_key(&st, 2), false);

    a.remove(&mut st, 2);
    a_value_query_with_an_on_empty.mutate_exists(&mut st, 2, |v| {
        assert!(v.is_none());
        (Some(10), ())
    });
    assert_eq!(a.contains_key(&st, 2), true);
    assert_eq!(a.get(&st, 2), Some(10));
    a_value_query_with_an_on_empty.mutate_exists(&mut st, 2, |v| (Some(v.unwrap() * 10), ()));
    assert_eq!(a.contains_key(&st, 2), true);
    assert_eq!(a.get(&st, 2), Some(100));

    a.remove(&mut st, 2);
    let _: Result<(), ()> = a_value_query_with_an_on_empty.try_mutate_exists(&mut st, 2, |v| {
        assert!(v.is_none());
        (Some(10), Ok(()))
    });
    assert_eq!(a.contains_key(&st, 2), true);
    assert_eq!(a.get(&st, 2), Some(10));
    let _: Result<(), ()> = a_value_query_with_an_on_empty
        .try_mutate_exists(&mut st, 2, |v| (Some(v.unwrap() * 10), Ok(())));
    assert_eq!(a.contains_key(&st, 2), true);
    assert_eq!(a.get(&st, 2), Some(100));
    let _: Result<(), ()> = a_value_query_with_an_on_empty
        .try_mutate_exists(&mut st, 2, |v| (Some(v.unwrap() * 10), Err(())));
    assert_eq!(a.contains_key(&st, 2), true);
    assert_eq!(a.get(&st, 2), Some(100));

    a.insert(&mut st, 2, 10);
    assert_eq!(a.take(&mut st, 2), Some(10));
    assert_eq!(a.contains_key(&st, 2), false);
    assert_eq!(a_value_query_with_an_on_empty.take(&mut st, 2), 97);
    assert_eq!(a.contains_key(&st, 2), false);

    // Set non-existing.
    b.set(&mut st, 30, 100);

    assert_eq!(b.contains_key(&st, 30), true);
    assert_eq!(b.get(&st, 30), 100);
    assert_eq!(b.try_get(&st, 30), Ok(100));

    // Set existing.
    b.set(&mut st, 30, 101);

    assert_eq!(b.contains_key(&st, 30), true);
    assert_eq!(b.get(&st, 30), 101);
    assert_eq!(b.try_get(&st, 30), Ok(101));

    // Set non-existing.
    a.set(&mut st, 30, Some(100));

    assert_eq!(a.contains_key(&st, 30), true);
    assert_eq!(a.get(&st, 30), Some(100));
    assert_eq!(a.try_get(&st, 30), Ok(100));

    // Set existing.
    a.set(&mut st, 30, Some(101));

    assert_eq!(a.contains_key(&st, 30), true);
    assert_eq!(a.get(&st, 30), Some(101));
    assert_eq!(a.try_get(&st, 30), Ok(101));

    // Unset existing.
    a.set(&mut st, 30, None);

    assert_eq!(a.contains_key(&st, 30), false);
    assert_eq!(a.get(&st, 30), None);
    assert_eq!(a.try_get(&st, 30), Err(()));

    // Unset non-existing.
    a.set(&mut st, 31, None);

    assert_eq!(a.contains_key(&st, 31), false);
    assert_eq!(a.get(&st, 31), None);
    assert_eq!(a.try_get(&st, 31), Err(()));

    b.insert(&mut st, 2, 10);
    assert_eq!(a.migrate_key(&mut st, 2, StorageHasher::Blake2_256), Some(10));
    assert_eq!(a.contains_key(&st, 2), true);
    assert_eq!(a.get(&st, 2), Some(10));

    a.insert(&mut st, 3, 10);
    a.insert(&mut st, 4, 10);
    let _ = a.clear(&mut st, u32::MAX, None);
    assert_eq!(a.contains_key(&st, 3), false);
    assert_eq!(a.contains_key(&st, 4), false);

    a.insert(&mut st, 3, 10);
    a.insert(&mut st, 4, 10);
    assert_eq!(a.iter_values(&st), vec![10, 10]);

    c.insert(&mut st, 3, 10);
    c.insert(&mut st, 4, 10);
    a.translate_values::<u8, _>(&mut st, |v| Some(u32::from(v * 2)));
    assert_eq!(a.iter(&st), vec![(4, 20), (3, 20)]);

    a.insert(&mut st, 3, 10);
    a.insert(&mut st, 4, 10);
    assert_eq!(a.iter(&st), vec![(4, 10), (3, 10)]);
    assert_eq!(a.drain(&mut st), vec![(4, 10), (3, 10)]);
    assert_eq!(a.iter(&st), vec![]);

    c.insert(&mut st, 3, 10);
    c.insert(&mut st, 4, 10);
    a.translate::<u8, _>(&mut st, |k, v| Some(u32::from(k * v as u16)));
    assert_eq!(a.iter(&st), vec![(4, 40), (3, 30)]);

    let translate_next = |k: u16, v: u8| Some(u32::from(v as u16 / k));
    let k = a.translate_next::<u8, _>(&mut st, None, translate_next);
    let k = a.translate_next::<u8, _>(&mut st, k, translate_next);
    assert_eq!(None, a.translate_next::<u8, _>(&mut st, k, translate_next));
    assert_eq!(a.iter(&st), vec![(4, 10), (3, 10)]);

    let _ = a.translate_next::<u8, _>(&mut st, None, |_, _| None);
    assert_eq!(a.iter(&st), vec![(3, 10)]);

    let mut entries = vec![];
    a.build_metadata(ItemDeprecationInfo::NotDeprecated, vec![], &mut entries);
    a_value_query_with_an_on_empty.build_metadata(
        ItemDeprecationInfo::NotDeprecated,
        vec![],
        &mut entries,
    );
    assert_eq!(
        entries,
        vec![
            StorageEntryMetadata {
                name: "foo".to_string(),
                modifier: StorageEntryModifier::Optional,
                hashers: vec![StorageHasher::Blake2_128Concat],
                key: "u16".to_string(),
                value: "u32".to_string(),
                default: vec![0u8],
                docs: vec![],
                deprecation_info: ItemDeprecationInfo::NotDeprecated,
            },
            StorageEntryMetadata {
                name: "foo".to_string(),
                modifier: StorageEntryModifier::Default,
                hashers: vec![StorageHasher::Blake2_128Concat],
                key: "u16".to_string(),
                value: "u32".to_string(),
                default: 97u32.to_le_bytes().to_vec(),
                docs: vec![],
                deprecation_info: ItemDeprecationInfo::NotDeprecated,
            },
        ]
    );

    let _ = with_len.clear(&mut st, u32::MAX, None);
    assert_eq!(with_len.decode_len(&st, 3), None);
    with_len.append(&mut st, 0, 10);
    assert_eq!(with_len.decode_len(&st, 0), Some(1));
}

#[test]
fn iteration_from_a_key_and_over_keys() {
    let a = map_a();
    let mut st = Storage::new();
    for k in [1u16, 2, 3, 4, 5] {
        a.insert(&mut st, k, u32::from(k) * 100);
    }
    let all = a.iter(&st);
    assert_eq!(all.len(), 5);
    let keys = a.iter_keys(&st);
    assert_eq!(keys, all.iter().map(|e| e.0).collect::<Vec<_>>());
    let mut values = a.iter_values(&st);
    values.sort();
    assert_eq!(values, vec![100, 200, 300, 400, 500]);
    // Starting after the second entry in storage order gives the rest.
    let second = all[1].0;
    assert_eq!(a.iter_from_key(&st, second), all[2..].to_vec());
    assert_eq!(a.iter_from(&st, a.hashed_key_for(second)), all[2..].to_vec());
    assert_eq!(a.iter_keys_from_key(&st, second), keys[2..].to_vec());
    assert_eq!(a.iter_keys_from(&st, a.hashed_key_for(second)), keys[2..].to_vec());
    // Entries of another map are not visited.
    let other: StorageMap<u16, u32, OptionQuery> =
        StorageMap::new("test", "bar", StorageHasher::Blake2_128Concat, OptionQuery, None);
    other.insert(&mut st, 9, 9);
    assert_eq!(a.iter(&st).len(), 5);
    assert_eq!(other.iter(&st), vec![(9, 9)]);
}

#[test]
fn clearing_with_a_limit_and_a_cursor() {
    let a = map_a();
    let mut st = Storage::new();
    for k in [1u16, 2, 3, 4, 5] {
        a.insert(&mut st, k, 1);
    }
    let first = a.clear(&mut st, 2, None);
    assert_eq!((first.backend, first.unique, first.loops), (2, 2, 2));
    assert!(first.maybe_cursor.is_some());
    assert_eq!(a.iter(&st).len(), 3);
    let cursor = first.maybe_cursor.unwrap();
    let second = a.clear(&mut st, 10, Some(cursor.as_slice()));
    assert_eq!(second.backend, 3);
    assert!(second.maybe_cursor.is_none());
    assert!(a.iter(&st).is_empty());

    for k in [1u16, 2, 3] {
        a.insert(&mut st, k, 1);
    }
    let r = a.remove_all(&mut st, Some(1));
    assert_eq!(r, KillStorageResult::SomeRemaining(1));
    let r = a.remove_all(&mut st, None);
    assert_eq!(r, KillStorageResult::AllRemoved(2));
    assert!(a.iter_keys(&st).is_empty());
}

#[test]
fn appending_and_reading_lengths() {
    let with_len: StorageMap<u16, Vec<u32>, OptionQuery> =
        StorageMap::new("test", "foo", StorageHasher::Blake2_128Concat, OptionQuery, None);
    let mut st = Storage::new();
    for i in 0..70u32 {
        with_len.append(&mut st, 1, i);
    }
    assert_eq!(with_len.decode_len(&st, 1), Some(70));
    assert_eq!(with_len.decode_non_dedup_len(&st, 1), Some(70));
    assert_eq!(with_len.try_append(&mut st, 1, 70, 71), Ok(()));
    assert_eq!(with_len.try_append(&mut st, 1, 71, 71), Err(()));
    assert_eq!(with_len.decode_len(&st, 1), Some(71));
    assert_eq!(with_len.try_append(&mut st, 2, 5, 1), Ok(()));
    assert_eq!(with_len.decode_len(&st, 2), Some(1));
    // A value whose length prefix does not decode is replaced by a fresh vector.
    let raw: StorageMap<u16, u8, OptionQuery> =
        StorageMap::new("test", "foo", StorageHasher::Blake2_128Concat, OptionQuery, None);
    raw.insert(&mut st, 3, 0b01);
    assert_eq!(with_len.decode_len(&st, 3), None);
    with_len.append(&mut st, 3, 7);
    assert_eq!(with_len.decode_len(&st, 3), Some(1));
}

#[test]
fn mutate_extant_only_touches_held_values() {
    let a = map_a();
    let mut st = Storage::new();
    let r: u32 = a.mutate_extant(&mut st, 1, |v| (v + 1, v));
    assert_eq!(r, 0);
    assert!(!a.contains_key(&st, 1));
    a.insert(&mut st, 1, 41);
    let r: u32 = a.mutate_extant(&mut st, 1, |v| (v + 1, v));
    assert_eq!(r, 41);
    assert_eq!(a.get(&st, 1), Some(42));
    let r: u32 = a.mutate(&mut st, 1, |q| (None, q.unwrap()));
    assert_eq!(r, 42);
    assert!(!a.contains_key(&st, 1));
}

#[test]
fn storage_info_and_prefixes() {
    let a: StorageMap<u16, u32, OptionQuery> =
        StorageMap::new("test", "foo", StorageHasher::Blake2_128Concat, OptionQuery, Some(7));
    assert_eq!(a.pallet_prefix(), b"test".to_vec());
    assert_eq!(a.storage_prefix(), b"foo".to_vec());
    let mut prefix = sp_crypto_hashing::twox_128(b"test").to_vec();
    prefix.extend_from_slice(&sp_crypto_hashing::twox_128(b"foo"));
    assert_eq!(a.prefix_hash(), prefix);
    let info = a.storage_info();
    assert_eq!(info.len(), 1);
    assert_eq!(info[0].pallet_name, b"test".to_vec());
    assert_eq!(info[0].storage_name, b"foo".to_vec());
    assert_eq!(info[0].prefix, prefix);
    assert_eq!(info[0].max_values, Some(7));
    assert_eq!(info[0].max_size, Some(16 + 2 + 4));
    let partial = a.partial_storage_info();
    assert_eq!(partial[0].max_size, None);
    assert_eq!(partial[0].max_values, Some(7));
}

#[test]
fn other_keys_are_left_alone() {
    let a = map_a();
    let b = map_a_value_query_with_an_on_empty();
    let mut st = Storage::new();
    a.insert(&mut st, 1, 5);
    a.insert(&mut st, 2, 6);
    a.swap(&mut st, 1, 3);
    assert_eq!(a.get(&st, 3), Some(5));
    assert_eq!(a.get(&st, 1), None);
    assert_eq!(a.get(&st, 2), Some(6));
    a.swap(&mut st, 2, 2);
    assert_eq!(a.get(&st, 2), Some(6));
    assert_eq!(b.take(&mut st, 3), 5);
    assert_eq!(b.get(&st, 3), 97);
}
