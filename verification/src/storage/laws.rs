//! What the operations of a storage map promise of one another.
use vstd::prelude::*;

use crate::storage::backend::{lemma_prefix_run_complete, Storage};
use crate::storage::codec::{lemma_compact_roundtrip, spec_compact_decode, spec_compact_encode, Codec};
use crate::storage::hashing::spec_hash;
use crate::storage::map::{
    raw_at,
    spec_append,
    spec_decode_len,
    store,
    store_raw,
    QueryKind,
    StorageMap,
};

verus! {

/// Reading a key after a value was inserted for it gives that value.
pub proof fn lemma_get_after_insert<K: Codec, V: Codec, Q: QueryKind<V>>(
    map: StorageMap<K, V, Q>,
    m: Map<Seq<u8>, Seq<u8>>,
    key: K,
    val: V,
)
    ensures
        map.stored(m.insert(map.final_key(key), val.spec_encode()), key) == Some(val),
        m.insert(map.final_key(key), val.spec_encode()).contains_key(map.final_key(key)),
{
    V::lemma_decode_encode(val);
}

/// Inserting a value for one key leaves what is read for every key with another
/// storage key.
pub proof fn lemma_insert_keeps_others<K: Codec, V: Codec, Q: QueryKind<V>>(
    map: StorageMap<K, V, Q>,
    m: Map<Seq<u8>, Seq<u8>>,
    key: K,
    val: V,
    other: K,
)
    requires
        map.final_key(other) != map.final_key(key),
    ensures
        map.stored(m.insert(map.final_key(key), val.spec_encode()), other) == map.stored(m, other),
{
}

/// Reading a key after its value was removed reads as missing.
pub proof fn lemma_get_after_remove<K: Codec, V: Codec, Q: QueryKind<V>>(
    map: StorageMap<K, V, Q>,
    m: Map<Seq<u8>, Seq<u8>>,
    key: K,
)
    ensures
        map.stored(m.remove(map.final_key(key)), key) is None,
        !m.remove(map.final_key(key)).contains_key(map.final_key(key)),
{
}

/// Reading a key after `set` wrote `q` for it gives `q`.
pub proof fn lemma_get_after_set<K: Codec, V: Codec, Q: QueryKind<V>>(
    map: StorageMap<K, V, Q>,
    m: Map<Seq<u8>, Seq<u8>>,
    key: K,
    q: Q::Query,
)
    ensures
        map.spec_query().spec_to_query(
            map.stored(
                store(m, map.final_key(key), map.spec_query().spec_from_query(q)),
                key,
            ),
        ) == q,
{
    map.spec_query().lemma_query_roundtrip(q);
    match map.spec_query().spec_from_query(q) {
        Some(v) => {
            V::lemma_decode_encode(v);
        },
        None => {},
    }
}

/// After `swap`, each of the two keys reads what the other read before.
pub proof fn lemma_swap_exchanges<K: Codec, V: Codec, Q: QueryKind<V>>(
    map: StorageMap<K, V, Q>,
    m: Map<Seq<u8>, Seq<u8>>,
    key1: K,
    key2: K,
)
    ensures
        ({
            let k1 = map.final_key(key1);
            let k2 = map.final_key(key2);
            let swapped = store_raw(store_raw(m, k1, raw_at(m, k2)), k2, raw_at(m, k1));
            &&& map.stored(swapped, key1) == map.stored(m, key2)
            &&& map.stored(swapped, key2) == map.stored(m, key1)
        }),
{
}

/// Enumerating a map visits the storage key of every key whose value is held,
/// where the hashed key is not empty.
pub proof fn lemma_iteration_complete<K: Codec, V: Codec, Q: QueryKind<V>>(
    map: StorageMap<K, V, Q>,
    storage: Storage,
    key: K,
)
    requires
        storage.wf(),
        storage.contents().contains_key(map.final_key(key)),
        spec_hash(map.spec_hasher(), key.spec_encode()).len() > 0,
    ensures
        map.all_keys(storage.key_seq()).contains(map.final_key(key)),
{
    let k = map.final_key(key);
    assert(map.final_prefix().is_prefix_of(k)) by {
        assert(k.subrange(0, map.final_prefix().len() as int) =~= map.final_prefix());
    }
    assert(k != map.final_prefix()) by {
        assert(k.len() > map.final_prefix().len());
    }
    lemma_prefix_run_complete(storage.key_seq(), map.final_prefix(), k);
}

/// Once the entries that enumerating a map visits are removed, as `drain`
/// removes them, the store holds no storage key of the map but possibly the
/// bare prefix.
pub proof fn lemma_drain_leaves_none<K: Codec, V: Codec, Q: QueryKind<V>>(
    map: StorageMap<K, V, Q>,
    storage: Storage,
)
    requires
        storage.wf(),
    ensures
        forall|k: Seq<u8>|
            #[trigger] storage.contents().remove_keys(
                map.all_keys(storage.key_seq()).to_set(),
            ).contains_key(k) ==> !(map.final_prefix().is_prefix_of(k) && k != map.final_prefix()),
{
    let run = map.all_keys(storage.key_seq());
    assert forall|k: Seq<u8>| #[trigger] storage.contents().remove_keys(run.to_set()).contains_key(
        k,
    ) implies !(map.final_prefix().is_prefix_of(k) && k != map.final_prefix()) by {
        if map.final_prefix().is_prefix_of(k) && k != map.final_prefix() {
            lemma_prefix_run_complete(storage.key_seq(), map.final_prefix(), k);
            assert(run.to_set().contains(k));
        }
    }
}

/// The number of items of the vector that appending to `old` leaves: one more
/// than `old` held where its length reads and can grow, one otherwise.
pub open spec fn appended_len(old: Option<Seq<u8>>) -> nat {
    match spec_decode_len(old) {
        Some(n) => if n < u32::MAX {
            n + 1
        } else {
            1
        },
        None => 1,
    }
}

/// After appending an item, the length read from the held vector is one more
/// than before, or one where no vector with a length that could grow was held.
pub proof fn lemma_decode_len_after_append(old: Option<Seq<u8>>, item: Seq<u8>)
    ensures
        spec_decode_len(Some(spec_append(old, item))) == Some(appended_len(old)),
{
    let fresh_rest = item;
    lemma_compact_roundtrip(1, fresh_rest);
    match old {
        None => {},
        Some(b) => {
            if b.len() == 0 {
                assert(spec_compact_decode(b) is None);
            } else {
                match spec_compact_decode(b) {
                    Some((n, c)) => {
                        if n + 1 <= u32::MAX {
                            let rest = b.skip(c as int) + item;
                            lemma_compact_roundtrip(n + 1, rest);
                            assert(spec_compact_encode(n + 1) + b.skip(c as int) + item
                                =~= spec_compact_encode(n + 1) + rest);
                        }
                    },
                    None => {},
                }
            }
        },
    }
}

/// The encodings of `xs`, one after another, first item first.
pub open spec fn encode_items<I: Codec>(xs: Seq<I>) -> Seq<u8>
    decreases xs.len(),
{
    if xs.len() == 0 {
        Seq::empty()
    } else {
        encode_items(xs.drop_last()) + xs.last().spec_encode()
    }
}

/// The encoding of the vector `xs`: its length in compact form, then its items.
pub open spec fn encode_vec<I: Codec>(xs: Seq<I>) -> Seq<u8> {
    spec_compact_encode(xs.len()) + encode_items(xs)
}

/// Appending an item to a held vector keeps the held items and puts the new one
/// after them: where the value held is the encoding of `xs`, appending `x` leaves
/// the encoding of `xs` followed by `x`; where nothing is held, the encoding of
/// `x` alone. The stored value under the key is that encoding after `append`.
pub proof fn lemma_append_pushes<K: Codec, I: Codec, Q>(
    map: StorageMap<K, Vec<I>, Q>,
    m: Map<Seq<u8>, Seq<u8>>,
    key: K,
    xs: Seq<I>,
    x: I,
)
    requires
        xs.len() < u32::MAX,
    ensures
        spec_append(Some(encode_vec(xs)), x.spec_encode()) == encode_vec(xs.push(x)),
        spec_append(None, x.spec_encode()) == encode_vec(seq![x]),
        raw_at(m, map.final_key(key)) == Some(encode_vec(xs)) ==> m.insert(
            map.final_key(key),
            spec_append(raw_at(m, map.final_key(key)), x.spec_encode()),
        )[map.final_key(key)] == encode_vec(xs.push(x)),
{
    let n = xs.len();
    let b = encode_vec(xs);
    lemma_compact_roundtrip(n, encode_items(xs));
    assert(spec_compact_encode(n).len() > 0) by {
        if n < 64 {
        } else if n < 16384 {
            crate::storage::codec::lemma_le_bytes_len(4 * n + 1, 2);
        } else if n < 1073741824 {
            crate::storage::codec::lemma_le_bytes_len(4 * n + 2, 4);
        }
    }
    assert(b.len() != 0);
    let c = spec_compact_encode(n).len();
    assert(b.skip(c as int) =~= encode_items(xs));
    assert(xs.push(x).drop_last() =~= xs);
    assert(encode_items(xs.push(x)) == encode_items(xs) + x.spec_encode());
    assert(spec_compact_encode(n + 1) + b.skip(c as int) + x.spec_encode() =~= encode_vec(
        xs.push(x),
    ));
    assert(seq![x].drop_last() =~= Seq::<I>::empty());
    assert(seq![x].last() == x);
    assert(encode_items(Seq::<I>::empty()) == Seq::<u8>::empty());
    assert(encode_items(seq![x]) == encode_items(Seq::<I>::empty()) + x.spec_encode());
    assert(encode_items(seq![x]) =~= x.spec_encode());
}

} // verus!
