//! A typed map kept in the key-value store: each key is encoded, hashed and put
//! after the map's prefix, and each value is held encoded under its key.
use vstd::prelude::*;

use core::marker::PhantomData;
use vstd::string::StringSliceAdditionalSpecFns;

use crate::storage::backend::{lemma_prefix_run, prefix_run, strictly_sorted, Storage};
use crate::storage::bytes::skip_bytes;
use crate::storage::bytes::concat;
use crate::storage::codec::{
    compact_decode,
    compact_encode,
    spec_compact_decode,
    spec_compact_encode,
    Codec,
};
use crate::storage::hashing::{
    saturating_add,
    is_reversible,
    spec_hash,
    spec_max_len,
    spec_reverse,
    twox_128,
    twox_128_of,
    StorageHasher,
};

verus! {

/// Whether reading a missing value gives `None` or a default.
#[derive(Debug, Clone, Copy, PartialEq, Eq, Structural)]
pub enum StorageEntryModifier {
    /// A missing value reads as `None`.
    Optional,
    /// A missing value reads as the default.
    Default,
}

/// How the values of a map are read and written: what a read gives for a
/// missing value, and which written values remove the entry.
pub trait QueryKind<V>: Sized {
    /// What a read gives.
    type Query;

    /// What a read gives, where `v` is the stored value, if any.
    spec fn spec_to_query(&self, v: Option<V>) -> Self::Query;

    /// The value to store for a written `q`; `None` removes the entry.
    spec fn spec_from_query(&self, q: Self::Query) -> Option<V>;

    /// Whether a missing value reads as `None` or as a default.
    spec fn spec_modifier(&self) -> StorageEntryModifier;

    /// The encoding of what a missing value reads as.
    spec fn spec_default_encoding(&self) -> Seq<u8>;

    /// What a read gives, where `v` is the stored value, if any.
    fn from_optional_value_to_query(&self, v: Option<V>) -> (q: Self::Query)
        ensures
            q == self.spec_to_query(v),
    ;

    /// The value to store for a written `q`; `None` removes the entry.
    fn from_query_to_optional_value(&self, q: Self::Query) -> (v: Option<V>)
        ensures
            v == self.spec_from_query(q),
    ;

    /// Storing what is written and reading it back gives what was written.
    proof fn lemma_query_roundtrip(&self, q: Self::Query)
        ensures
            self.spec_to_query(self.spec_from_query(q)) == q,
    ;

    /// Whether a missing value reads as `None` or as a default.
    fn modifier(&self) -> (m: StorageEntryModifier)
        ensures
            m == self.spec_modifier(),
    ;

    /// The encoding of what a missing value reads as.
    fn default_encoding(&self) -> (e: Vec<u8>)
        ensures
            e@ == self.spec_default_encoding(),
    ;
}

/// Reads give `Some` of the stored value, or `None`; writing `None` removes it.
#[derive(Debug, Clone, Copy, PartialEq, Eq, Structural)]
pub struct OptionQuery;

impl<V> QueryKind<V> for OptionQuery {
    type Query = Option<V>;

    open spec fn spec_to_query(&self, v: Option<V>) -> Option<V> {
        v
    }

    open spec fn spec_from_query(&self, q: Option<V>) -> Option<V> {
        q
    }

    open spec fn spec_modifier(&self) -> StorageEntryModifier {
        StorageEntryModifier::Optional
    }

    open spec fn spec_default_encoding(&self) -> Seq<u8> {
        seq![0u8]
    }

    fn from_optional_value_to_query(&self, v: Option<V>) -> (q: Option<V>) {
        v
    }

    fn from_query_to_optional_value(&self, q: Option<V>) -> (v: Option<V>) {
        q
    }

    proof fn lemma_query_roundtrip(&self, q: Option<V>) {
    }

    fn modifier(&self) -> (m: StorageEntryModifier) {
        StorageEntryModifier::Optional
    }

    fn default_encoding(&self) -> (e: Vec<u8>) {
        let mut e = Vec::new();
        e.push(0u8);
        e
    }
}

/// Reads give the stored value, or `on_empty` where there is none; every
/// written value is stored.
#[derive(Debug, Clone, Copy, PartialEq, Eq, Structural)]
pub struct ValueQuery<V> {
    /// What a missing value reads as.
    pub on_empty: V,
}

impl<V: Codec> QueryKind<V> for ValueQuery<V> {
    type Query = V;

    open spec fn spec_to_query(&self, v: Option<V>) -> V {
        match v {
            Some(x) => x,
            None => self.on_empty,
        }
    }

    open spec fn spec_from_query(&self, q: V) -> Option<V> {
        Some(q)
    }

    open spec fn spec_modifier(&self) -> StorageEntryModifier {
        StorageEntryModifier::Default
    }

    open spec fn spec_default_encoding(&self) -> Seq<u8> {
        self.on_empty.spec_encode()
    }

    fn from_optional_value_to_query(&self, v: Option<V>) -> (q: V) {
        match v {
            Some(x) => x,
            None => self.on_empty.duplicate(),
        }
    }

    fn from_query_to_optional_value(&self, q: V) -> (v: Option<V>) {
        Some(q)
    }

    proof fn lemma_query_roundtrip(&self, q: V) {
    }

    fn modifier(&self) -> (m: StorageEntryModifier) {
        StorageEntryModifier::Default
    }

    fn default_encoding(&self) -> (e: Vec<u8>) {
        self.on_empty.encode()
    }
}

/// `m` with `k` holding the encoding of `v`, or without `k` where `v` is `None`.
pub open spec fn store<V: Codec>(m: Map<Seq<u8>, Seq<u8>>, k: Seq<u8>, v: Option<V>) -> Map<
    Seq<u8>,
    Seq<u8>,
> {
    match v {
        Some(x) => m.insert(k, x.spec_encode()),
        None => m.remove(k),
    }
}

/// `m` with `k` holding `raw`, or without `k` where `raw` is `None`.
pub open spec fn store_raw(m: Map<Seq<u8>, Seq<u8>>, k: Seq<u8>, raw: Option<Seq<u8>>) -> Map<
    Seq<u8>,
    Seq<u8>,
> {
    match raw {
        Some(x) => m.insert(k, x),
        None => m.remove(k),
    }
}

/// What `m` holds under `k`, if anything.
pub open spec fn raw_at(m: Map<Seq<u8>, Seq<u8>>, k: Seq<u8>) -> Option<Seq<u8>> {
    if m.contains_key(k) {
        Some(m[k])
    } else {
        None
    }
}

/// The value that `m` holds under `k`, decoded, or `None` where nothing is
/// held or what is held does not decode.
pub open spec fn decoded_at<V: Codec>(m: Map<Seq<u8>, Seq<u8>>, k: Seq<u8>) -> Option<V> {
    if m.contains_key(k) {
        V::spec_decode(m[k])
    } else {
        None
    }
}

/// What clearing a map removed, and where to go on from.
#[derive(Debug)]
pub struct MultiRemovalResults {
    /// Where a further call goes on from, or `None` where nothing of the map is
    /// left to remove.
    pub maybe_cursor: Option<Vec<u8>>,
    /// The number of entries removed from the store.
    pub backend: u32,
    /// The number of distinct keys removed.
    pub unique: u32,
    /// The number of keys visited.
    pub loops: u32,
}

/// What removing all entries of a map did, with the number of entries removed.
#[derive(Debug, Clone, Copy, PartialEq, Eq, Structural)]
pub enum KillStorageResult {
    /// Every entry was removed.
    AllRemoved(u32),
    /// Some entries remain.
    SomeRemaining(u32),
}

/// The size limits of a map, for the benchmarks of the runtime.
#[derive(Debug)]
pub struct StorageInfo {
    /// The name of the pallet that owns the map.
    pub pallet_name: Vec<u8>,
    /// The name of the map.
    pub storage_name: Vec<u8>,
    /// The bytes that every storage key of the map begins with.
    pub prefix: Vec<u8>,
    /// The most values that the map may hold, if bounded.
    pub max_values: Option<u32>,
    /// The greatest size of an entry (storage key after the prefix, and value),
    /// if known.
    pub max_size: Option<u32>,
}

/// `x`, or `u32::MAX` where `x` is larger.
pub open spec fn saturate_u32(x: nat) -> nat {
    if x <= u32::MAX {
        x
    } else {
        u32::MAX as nat
    }
}

/// `SaturatedConversion::saturated_into::<u32>` of `sp-arithmetic` on a `usize`:
/// the number itself where it fits in a `u32`, `u32::MAX` otherwise.
#[verifier::external_body]
fn saturated_into_u32(x: usize) -> (r: u32)
    ensures
        r == saturate_u32(x as nat),
{
    sp_arithmetic::traits::SaturatedConversion::saturated_into::<u32>(x)
}

/// The number of keys that clearing `n` keys with the limit `limit` removes.
pub open spec fn removed_count(n: nat, limit: Option<u32>) -> nat {
    match limit {
        Some(l) => if l < n {
            l as nat
        } else {
            n
        },
        None => n,
    }
}

/// The key that the storage key `raw` holds, read back with the reversible
/// `hasher` from what follows the first `plen` bytes, if it decodes.
pub open spec fn key_of<K: Codec>(raw: Seq<u8>, plen: nat, hasher: StorageHasher) -> Option<K> {
    K::spec_decode(spec_reverse(hasher, raw.skip(plen as int)))
}

/// For each storage key of `keys` in turn, the key read back from it and the
/// value that `m` holds under it, leaving out those where either does not decode.
pub open spec fn entries_of<K: Codec, V: Codec>(
    keys: Seq<Seq<u8>>,
    m: Map<Seq<u8>, Seq<u8>>,
    plen: nat,
    hasher: StorageHasher,
) -> Seq<(K, V)>
    decreases keys.len(),
{
    if keys.len() == 0 {
        Seq::empty()
    } else {
        let rest = entries_of::<K, V>(keys.drop_last(), m, plen, hasher);
        match (key_of::<K>(keys.last(), plen, hasher), V::spec_decode(m[keys.last()])) {
            (Some(k), Some(v)) => rest.push((k, v)),
            _ => rest,
        }
    }
}

/// For each storage key of `keys` in turn, the key read back from it, leaving
/// out those that do not decode.
pub open spec fn keys_of<K: Codec>(keys: Seq<Seq<u8>>, plen: nat, hasher: StorageHasher) -> Seq<K>
    decreases keys.len(),
{
    if keys.len() == 0 {
        Seq::empty()
    } else {
        let rest = keys_of::<K>(keys.drop_last(), plen, hasher);
        match key_of::<K>(keys.last(), plen, hasher) {
            Some(k) => rest.push(k),
            None => rest,
        }
    }
}

/// For each storage key of `keys` in turn, the value that `m` holds under it,
/// leaving out those that do not decode.
pub open spec fn values_of<V: Codec>(keys: Seq<Seq<u8>>, m: Map<Seq<u8>, Seq<u8>>) -> Seq<V>
    decreases keys.len(),
{
    if keys.len() == 0 {
        Seq::empty()
    } else {
        let rest = values_of::<V>(keys.drop_last(), m);
        match V::spec_decode(m[keys.last()]) {
            Some(v) => rest.push(v),
            None => rest,
        }
    }
}

/// `KeyLenOf` of a map: the greatest length of one of its storage keys.
pub struct KeyLenOf<'a, K, V, Q>(pub &'a StorageMap<K, V, Q>);

impl<'a, K: Codec, V, Q> KeyLenOf<'a, K, V, Q> {
    /// The greatest length of a storage key of the map, as a `u32`: the hashed
    /// key's, for the greatest encoding of a key, plus the two 16-byte hashes
    /// of the prefix.
    pub fn get(&self) -> (n: u32)
        requires
            self.0.spec_key_len() <= usize::MAX,
        ensures
            n == self.0.spec_key_len() as u32,
    {
        let z = self.0.hasher.max_len(K::max_encoded_len()) + StorageHasher::Twox128.max_len(0) * 2;
        z as u32
    }
}

/// Whether `new_raw` is what translating the stored value `old_raw` with `f`
/// may leave in its place: where `old_raw` decodes as an old value, what `f`
/// gives for it, encoded, or nothing where `f` gives `None`; where it does not
/// decode, `old_raw` itself.
pub open spec fn value_translated<O: Codec, V: Codec, F: Fn(O) -> Option<V>>(
    old_raw: Seq<u8>,
    new_raw: Option<Seq<u8>>,
    f: F,
) -> bool {
    match O::spec_decode(old_raw) {
        None => new_raw == Some(old_raw),
        Some(o) => (call_ensures(f, (o,), None::<V>) && new_raw is None) || exists|nv: V|
            #[trigger] call_ensures(f, (o,), Some(nv)) && new_raw == Some(nv.spec_encode()),
    }
}

/// Whether `new_raw` is what translating the entry with storage key `raw_key`
/// and stored value `old_raw` with `f` may leave in its place: where the key
/// reads back and the value decodes as an old value, what `f` gives for them,
/// encoded, or nothing where `f` gives `None`; otherwise `old_raw` itself.
pub open spec fn entry_translated<K: Codec, O: Codec, V: Codec, F: Fn(K, O) -> Option<V>>(
    raw_key: Seq<u8>,
    old_raw: Seq<u8>,
    new_raw: Option<Seq<u8>>,
    plen: nat,
    hasher: StorageHasher,
    f: F,
) -> bool {
    match (O::spec_decode(old_raw), key_of::<K>(raw_key, plen, hasher)) {
        (Some(o), Some(k)) => (call_ensures(f, (k, o), None::<V>) && new_raw is None) || exists|
            nv: V,
        |
            #[trigger] call_ensures(f, (k, o), Some(nv)) && new_raw == Some(nv.spec_encode()),
        _ => new_raw == Some(old_raw),
    }
}

/// No element of a strictly sorted sequence occurs before its position.
proof fn lemma_not_before(run: Seq<Seq<u8>>, i: int)
    requires
        strictly_sorted(run),
        0 <= i < run.len(),
    ensures
        !run.take(i).to_set().contains(run[i]),
{
    if run.take(i).to_set().contains(run[i]) {
        assert(run.take(i).contains(run[i]));
        let j = choose|j: int| 0 <= j < i && run.take(i)[j] == run[i];
        assert(run[j] == run[i]);
        crate::storage::bytes::lemma_bytes_lt_irreflexive(run[i]);
    }
}

/// A map of keys to values, kept in a key-value store under the storage key
/// `twox_128(pallet prefix) ++ twox_128(storage prefix) ++ hasher(encoded key)`.
pub struct StorageMap<K, V, Q> {
    storage_name: String,
    pallet_prefix: Vec<u8>,
    storage_prefix: Vec<u8>,
    hasher: StorageHasher,
    query: Q,
    max_values: Option<u32>,
    marker: PhantomData<(K, V)>,
}

impl<K: Codec, V, Q> StorageMap<K, V, Q> {
    /// The name of the pallet that owns the map, as bytes.
    pub closed spec fn spec_pallet_prefix(&self) -> Seq<u8> {
        self.pallet_prefix@
    }

    /// The name of the map within its pallet, as bytes.
    pub closed spec fn spec_storage_prefix(&self) -> Seq<u8> {
        self.storage_prefix@
    }

    /// The name of the map within its pallet.
    pub closed spec fn spec_storage_name(&self) -> Seq<char> {
        self.storage_name@
    }

    /// The hasher of the map's keys.
    pub closed spec fn spec_hasher(&self) -> StorageHasher {
        self.hasher
    }

    /// How the map's values are read and written.
    pub closed spec fn spec_query(&self) -> Q {
        self.query
    }

    /// The most values that the map may hold, if bounded.
    pub closed spec fn spec_max_values(&self) -> Option<u32> {
        self.max_values
    }

    /// The bytes that every storage key of the map begins with.
    pub open spec fn final_prefix(&self) -> Seq<u8> {
        twox_128_of(self.spec_pallet_prefix()) + twox_128_of(self.spec_storage_prefix())
    }

    /// The storage key under which the value of `key` is held.
    pub open spec fn final_key(&self, key: K) -> Seq<u8> {
        self.final_prefix() + spec_hash(self.spec_hasher(), key.spec_encode())
    }

    /// A map named `storage_prefix` in the pallet named `pallet_prefix`.
    pub fn new(
        pallet_prefix: &str,
        storage_prefix: &str,
        hasher: StorageHasher,
        query: Q,
        max_values: Option<u32>,
    ) -> (m: StorageMap<K, V, Q>)
        ensures
            m.spec_pallet_prefix() == pallet_prefix.spec_bytes(),
            m.spec_storage_prefix() == storage_prefix.spec_bytes(),
            m.spec_storage_name() == storage_prefix@,
            m.spec_hasher() == hasher,
            m.spec_query() == query,
            m.spec_max_values() == max_values,
    {
        StorageMap {
            storage_name: storage_prefix.to_owned(),
            pallet_prefix: vstd::slice::slice_to_vec(pallet_prefix.as_bytes()),
            storage_prefix: vstd::slice::slice_to_vec(storage_prefix.as_bytes()),
            hasher,
            query,
            max_values,
            marker: PhantomData,
        }
    }

    /// The name of the pallet that owns the map, as bytes.
    pub fn pallet_prefix(&self) -> (r: Vec<u8>)
        ensures
            r@ == self.spec_pallet_prefix(),
    {
        self.pallet_prefix.clone()
    }

    /// The name of the map within its pallet, as bytes.
    pub fn storage_prefix(&self) -> (r: Vec<u8>)
        ensures
            r@ == self.spec_storage_prefix(),
    {
        self.storage_prefix.clone()
    }

    /// The bytes that every storage key of the map begins with.
    pub fn prefix_hash(&self) -> (r: Vec<u8>)
        ensures
            r@ == self.final_prefix(),
    {
        let a = twox_128(self.pallet_prefix.as_slice());
        let b = twox_128(self.storage_prefix.as_slice());
        concat(a.as_slice(), b.as_slice())
    }

    /// The storage key used to fetch the value of `key`.
    pub fn hashed_key_for(&self, key: K) -> (r: Vec<u8>)
        ensures
            r@ == self.final_key(key),
    {
        let prefix = self.prefix_hash();
        let encoded = key.encode();
        let hashed = self.hasher.hash(encoded.as_slice());
        concat(prefix.as_slice(), hashed.as_slice())
    }

    /// Whether a value is (explicitly) held for `key`.
    pub fn contains_key(&self, storage: &Storage, key: K) -> (b: bool)
        requires
            storage.wf(),
        ensures
            b == storage.contents().contains_key(self.final_key(key)),
    {
        let k = self.hashed_key_for(key);
        storage.contains(k.as_slice())
    }

    /// The storage keys that walking the map from `start` visits: those after
    /// `start` that begin with the map's prefix, up to the first that does not.
    pub open spec fn walk(&self, ks: Seq<Seq<u8>>, start: Seq<u8>) -> Seq<Seq<u8>> {
        prefix_run(ks, self.final_prefix(), start)
    }

    /// The storage keys of all the map's entries, in ascending order.
    pub open spec fn all_keys(&self, ks: Seq<Seq<u8>>) -> Seq<Seq<u8>> {
        self.walk(ks, self.final_prefix())
    }

    /// The greatest length of a storage key of the map: that of the hashed key,
    /// for the greatest encoding of a key, after the two 16-byte hashes of the
    /// prefix.
    pub open spec fn spec_key_len(&self) -> nat {
        spec_max_len(self.spec_hasher(), K::spec_max_encoded_len()) + 32
    }

    /// Removes the first `limit` keys (all where `limit` is `None`) that walking
    /// the map from `start` visits.
    fn clear_walk(&self, storage: &mut Storage, start: &[u8], limit: Option<u32>) -> (r: (
        u32,
        Option<Vec<u8>>,
    ))
        requires
            old(storage).wf(),
            self.walk(old(storage).key_seq(), start@).len() <= u32::MAX,
        ensures
            final(storage).wf(),
            ({
                let run = self.walk(old(storage).key_seq(), start@);
                let n = removed_count(run.len(), limit);
                &&& r.0 == n
                &&& final(storage).contents() == old(storage).contents().remove_keys(
                    run.take(n as int).to_set(),
                )
                &&& match r.1 {
                    None => n == run.len(),
                    Some(c) => n < run.len() && c@ == if n == 0 {
                        start@
                    } else {
                        run[n - 1]
                    },
                }
            }),
    {
        let prefix = self.prefix_hash();
        let keys = storage.keys_in_run(prefix.as_slice(), start);
        let ghost run = self.walk(storage.key_seq(), start@);
        let ghost m0 = storage.contents();
        let n: usize = match limit {
            Some(l) => if (l as usize) < keys.len() {
                l as usize
            } else {
                keys.len()
            },
            None => keys.len(),
        };
        let mut i: usize = 0;
        while i < n
            invariant
                storage.wf(),
                keys@.len() == run.len(),
                forall|j: int| 0 <= j < keys@.len() ==> (#[trigger] keys@[j])@ == run[j],
                n <= keys@.len(),
                i <= n,
                storage.contents() == m0.remove_keys(run.take(i as int).to_set()),
            decreases n - i,
        {
            storage.clear(keys[i].as_slice());
            proof {
                assert(run.take(i + 1) =~= run.take(i as int).push(run[i as int]));
                run.take(i as int).lemma_push_to_set_commute(run[i as int]);
                assert(m0.remove_keys(run.take(i + 1).to_set()) =~= m0.remove_keys(
                    run.take(i as int).to_set(),
                ).remove(run[i as int]));
            }
            i = i + 1;
        }
        let cursor = if n == keys.len() {
            None
        } else if n == 0 {
            Some(vstd::slice::slice_to_vec(start))
        } else {
            Some(keys[n - 1].clone())
        };
        (n as u32, cursor)
    }

    /// Removes up to `limit` entries of the map, in ascending order of their
    /// storage keys, going on after `maybe_cursor` where it is given. The store
    /// has one layer, so the entries removed from the store, the keys removed and
    /// the keys visited all number the same. The cursor that comes back is the
    /// last key removed, or the one gone on from where none was.
    pub fn clear(&self, storage: &mut Storage, limit: u32, maybe_cursor: Option<&[u8]>) -> (r:
        MultiRemovalResults)
        requires
            old(storage).wf(),
            old(storage).key_seq().len() <= u32::MAX,
        ensures
            final(storage).wf(),
            ({
                let start = match maybe_cursor {
                    Some(c) => c@,
                    None => self.final_prefix(),
                };
                let run = self.walk(old(storage).key_seq(), start);
                let n = removed_count(run.len(), Some(limit));
                &&& r.backend == n && r.unique == n && r.loops == n
                &&& final(storage).contents() == old(storage).contents().remove_keys(
                    run.take(n as int).to_set(),
                )
                &&& match r.maybe_cursor {
                    None => n == run.len(),
                    Some(c) => n < run.len() && c@ == if n == 0 {
                        start
                    } else {
                        run[n - 1]
                    },
                }
            }),
    {
        let prefix = self.prefix_hash();
        proof {
            let start = match maybe_cursor {
                Some(c) => c@,
                None => self.final_prefix(),
            };
            crate::storage::backend::lemma_prefix_run_len(
                storage.key_seq(),
                self.final_prefix(),
                start,
            );
        }
        let (n, cursor) = match maybe_cursor {
            Some(c) => self.clear_walk(storage, c, Some(limit)),
            None => self.clear_walk(storage, prefix.as_slice(), Some(limit)),
        };
        MultiRemovalResults { maybe_cursor: cursor, backend: n, unique: n, loops: n }
    }

    /// Removes all entries of the map, or the first `limit` of them in ascending
    /// order of their storage keys, and says whether some remain and how many
    /// were removed.
    pub fn remove_all(&self, storage: &mut Storage, limit: Option<u32>) -> (r: KillStorageResult)
        requires
            old(storage).wf(),
            old(storage).key_seq().len() <= u32::MAX,
        ensures
            final(storage).wf(),
            ({
                let run = self.all_keys(old(storage).key_seq());
                let n = removed_count(run.len(), limit);
                &&& final(storage).contents() == old(storage).contents().remove_keys(
                    run.take(n as int).to_set(),
                )
                &&& r == if n == run.len() {
                    KillStorageResult::AllRemoved(n as u32)
                } else {
                    KillStorageResult::SomeRemaining(n as u32)
                }
            }),
    {
        let prefix = self.prefix_hash();
        proof {
            crate::storage::backend::lemma_prefix_run_len(
                storage.key_seq(),
                self.final_prefix(),
                self.final_prefix(),
            );
        }
        let (n, cursor) = self.clear_walk(storage, prefix.as_slice(), limit);
        match cursor {
            None => KillStorageResult::AllRemoved(n),
            Some(_) => KillStorageResult::SomeRemaining(n),
        }
    }

    /// The size limits of the map: the most values it may hold and the greatest
    /// size of an entry, the hashed key and the value, saturated to a `u32`.
    pub fn storage_info(&self) -> (r: Vec<StorageInfo>)
        where V: Codec,
        ensures
            r@.len() == 1,
            r@[0].pallet_name@ == self.spec_pallet_prefix(),
            r@[0].storage_name@ == self.spec_storage_prefix(),
            r@[0].prefix@ == self.final_prefix(),
            r@[0].max_values == self.spec_max_values(),
            r@[0].max_size == Some(
                saturate_u32(
                    saturating_add(
                        spec_max_len(self.spec_hasher(), K::spec_max_encoded_len()),
                        V::spec_max_encoded_len(),
                    ),
                ) as u32,
            ),
    {
        let key_len = self.hasher.max_len(K::max_encoded_len());
        let size = key_len.saturating_add(V::max_encoded_len());
        let info = StorageInfo {
            pallet_name: self.pallet_prefix(),
            storage_name: self.storage_prefix(),
            prefix: self.prefix_hash(),
            max_values: self.max_values,
            max_size: Some(saturated_into_u32(size)),
        };
        let mut r = Vec::new();
        r.push(info);
        r
    }

    /// The size limits of the map that need no bound on the size of its entries:
    /// the most values it may hold.
    pub fn partial_storage_info(&self) -> (r: Vec<StorageInfo>)
        ensures
            r@.len() == 1,
            r@[0].pallet_name@ == self.spec_pallet_prefix(),
            r@[0].storage_name@ == self.spec_storage_prefix(),
            r@[0].prefix@ == self.final_prefix(),
            r@[0].max_values == self.spec_max_values(),
            r@[0].max_size is None,
    {
        let info = StorageInfo {
            pallet_name: self.pallet_prefix(),
            storage_name: self.storage_prefix(),
            prefix: self.prefix_hash(),
            max_values: self.max_values,
            max_size: None,
        };
        let mut r = Vec::new();
        r.push(info);
        r
    }

}

impl<K: Codec, V: Codec, Q: QueryKind<V>> StorageMap<K, V, Q> {
    /// The value of `key` in the store `m`, if it is held and decodes.
    pub open spec fn stored(&self, m: Map<Seq<u8>, Seq<u8>>, key: K) -> Option<V> {
        decoded_at::<V>(m, self.final_key(key))
    }

    /// The stored value of `key`, decoded, if it is held and decodes.
    fn get_value(&self, storage: &Storage, key: K) -> (r: Option<V>)
        requires
            storage.wf(),
        ensures
            r == self.stored(storage.contents(), key),
    {
        let k = self.hashed_key_for(key);
        match storage.get(k.as_slice()) {
            Some(raw) => V::decode(raw.as_slice()),
            None => None,
        }
    }

    /// Loads the value of `key`: what the query kind reads for the stored value.
    pub fn get(&self, storage: &Storage, key: K) -> (r: Q::Query)
        requires
            storage.wf(),
        ensures
            r == self.spec_query().spec_to_query(self.stored(storage.contents(), key)),
    {
        let v = self.get_value(storage, key);
        self.query.from_optional_value_to_query(v)
    }

    /// The value of `key`: `Ok` where it is held and decodes, `Err` otherwise.
    pub fn try_get(&self, storage: &Storage, key: K) -> (r: Result<V, ()>)
        requires
            storage.wf(),
        ensures
            r == match self.stored(storage.contents(), key) {
                Some(v) => Ok::<V, ()>(v),
                None => Err(()),
            },
    {
        match self.get_value(storage, key) {
            Some(v) => Ok(v),
            None => Err(()),
        }
    }

    /// Stores `val` for `key`.
    pub fn insert(&self, storage: &mut Storage, key: K, val: V)
        requires
            old(storage).wf(),
        ensures
            final(storage).wf(),
            final(storage).contents() == old(storage).contents().insert(
                self.final_key(key),
                val.spec_encode(),
            ),
    {
        let k = self.hashed_key_for(key);
        let v = val.encode();
        storage.set(k.as_slice(), v.as_slice());
    }

    /// Removes the value of `key`.
    pub fn remove(&self, storage: &mut Storage, key: K)
        requires
            old(storage).wf(),
        ensures
            final(storage).wf(),
            final(storage).contents() == old(storage).contents().remove(self.final_key(key)),
    {
        let k = self.hashed_key_for(key);
        storage.clear(k.as_slice());
    }

    /// Stores or removes the value of `key`, so that `get` reads `q`.
    pub fn set(&self, storage: &mut Storage, key: K, q: Q::Query)
        requires
            old(storage).wf(),
        ensures
            final(storage).wf(),
            final(storage).contents() == store(
                old(storage).contents(),
                self.final_key(key),
                self.spec_query().spec_from_query(q),
            ),
    {
        match self.query.from_query_to_optional_value(q) {
            Some(v) => self.insert(storage, key, v),
            None => self.remove(storage, key),
        }
    }

    /// Swaps the values held for two keys, as they are held.
    pub fn swap(&self, storage: &mut Storage, key1: K, key2: K)
        requires
            old(storage).wf(),
        ensures
            final(storage).wf(),
            final(storage).contents() == store_raw(
                store_raw(
                    old(storage).contents(),
                    self.final_key(key1),
                    raw_at(old(storage).contents(), self.final_key(key2)),
                ),
                self.final_key(key2),
                raw_at(old(storage).contents(), self.final_key(key1)),
            ),
    {
        let k1 = self.hashed_key_for(key1);
        let k2 = self.hashed_key_for(key2);
        let v1 = storage.get(k1.as_slice());
        match storage.get(k2.as_slice()) {
            Some(val) => storage.set(k1.as_slice(), val.as_slice()),
            None => storage.clear(k1.as_slice()),
        }
        match v1 {
            Some(val) => storage.set(k2.as_slice(), val.as_slice()),
            None => storage.clear(k2.as_slice()),
        }
    }

    /// The entries that walking the map from `start` yields.
    fn entries_from(&self, storage: &Storage, prefix: &Vec<u8>, start: &[u8]) -> (r: Vec<(K, V)>)
        requires
            storage.wf(),
            prefix@ == self.final_prefix(),
            is_reversible(self.spec_hasher()),
        ensures
            r@ == entries_of::<K, V>(
                self.walk(storage.key_seq(), start@),
                storage.contents(),
                self.final_prefix().len(),
                self.spec_hasher(),
            ),
    {
        let keys = storage.keys_in_run(prefix.as_slice(), start);
        let ghost run = self.walk(storage.key_seq(), start@);
        proof {
            lemma_prefix_run(storage.key_seq(), self.final_prefix(), start@);
        }
        let mut out: Vec<(K, V)> = Vec::new();
        let mut i: usize = 0;
        while i < keys.len()
            invariant
                storage.wf(),
                prefix@ == self.final_prefix(),
                is_reversible(self.spec_hasher()),
                keys@.len() == run.len(),
                forall|j: int| 0 <= j < keys@.len() ==> (#[trigger] keys@[j])@ == run[j],
                forall|j: int|
                    0 <= j < run.len() ==> storage.key_seq().contains(#[trigger] run[j])
                        && self.final_prefix().is_prefix_of(run[j]),
                i <= keys@.len(),
                out@ == entries_of::<K, V>(
                    run.take(i as int),
                    storage.contents(),
                    self.final_prefix().len(),
                    self.spec_hasher(),
                ),
            decreases keys@.len() - i,
        {
            let raw_key = &keys[i];
            proof {
                assert(run.take(i + 1).drop_last() =~= run.take(i as int));
                assert(run.take(i + 1).last() == run[i as int]);
                assert(storage.key_seq().contains(run[i as int]));
            }
            let raw = storage.get(raw_key.as_slice()).unwrap();
            let tail = skip_bytes(raw_key.as_slice(), prefix.len());
            let key_material = self.hasher.reverse(tail.as_slice());
            let k = K::decode(key_material.as_slice());
            let v = V::decode(raw.as_slice());
            match (k, v) {
                (Some(k), Some(v)) => {
                    out.push((k, v));
                },
                _ => {},
            }
            i = i + 1;
        }
        assert(run.take(keys@.len() as int) =~= run);
        out
    }

    /// Enumerates all entries of the map, in ascending order of their storage
    /// keys, leaving out those whose key or value does not decode.
    pub fn iter(&self, storage: &Storage) -> (r: Vec<(K, V)>)
        requires
            storage.wf(),
            is_reversible(self.spec_hasher()),
        ensures
            r@ == entries_of::<K, V>(
                self.all_keys(storage.key_seq()),
                storage.contents(),
                self.final_prefix().len(),
                self.spec_hasher(),
            ),
    {
        let prefix = self.prefix_hash();
        self.entries_from(storage, &prefix, prefix.as_slice())
    }

    /// Enumerates the entries whose storage keys follow `starting_raw_key`, in
    /// ascending order, up to the first storage key that is not the map's.
    pub fn iter_from(&self, storage: &Storage, starting_raw_key: Vec<u8>) -> (r: Vec<(K, V)>)
        requires
            storage.wf(),
            is_reversible(self.spec_hasher()),
        ensures
            r@ == entries_of::<K, V>(
                self.walk(storage.key_seq(), starting_raw_key@),
                storage.contents(),
                self.final_prefix().len(),
                self.spec_hasher(),
            ),
    {
        let prefix = self.prefix_hash();
        self.entries_from(storage, &prefix, starting_raw_key.as_slice())
    }

    /// Enumerates the entries whose storage keys follow that of `starting_key`,
    /// in ascending order.
    pub fn iter_from_key(&self, storage: &Storage, starting_key: K) -> (r: Vec<(K, V)>)
        requires
            storage.wf(),
            is_reversible(self.spec_hasher()),
        ensures
            r@ == entries_of::<K, V>(
                self.walk(storage.key_seq(), self.final_key(starting_key)),
                storage.contents(),
                self.final_prefix().len(),
                self.spec_hasher(),
            ),
    {
        let start = self.hashed_key_for(starting_key);
        self.iter_from(storage, start)
    }

    /// The keys that walking the map from `start` yields.
    fn keys_from(&self, storage: &Storage, prefix: &Vec<u8>, start: &[u8]) -> (r: Vec<K>)
        requires
            storage.wf(),
            prefix@ == self.final_prefix(),
            is_reversible(self.spec_hasher()),
        ensures
            r@ == keys_of::<K>(
                self.walk(storage.key_seq(), start@),
                self.final_prefix().len(),
                self.spec_hasher(),
            ),
    {
        let keys = storage.keys_in_run(prefix.as_slice(), start);
        let ghost run = self.walk(storage.key_seq(), start@);
        proof {
            lemma_prefix_run(storage.key_seq(), self.final_prefix(), start@);
        }
        let mut out: Vec<K> = Vec::new();
        let mut i: usize = 0;
        while i < keys.len()
            invariant
                prefix@ == self.final_prefix(),
                is_reversible(self.spec_hasher()),
                keys@.len() == run.len(),
                forall|j: int| 0 <= j < keys@.len() ==> (#[trigger] keys@[j])@ == run[j],
                forall|j: int|
                    0 <= j < run.len() ==> self.final_prefix().is_prefix_of(#[trigger] run[j]),
                i <= keys@.len(),
                out@ == keys_of::<K>(
                    run.take(i as int),
                    self.final_prefix().len(),
                    self.spec_hasher(),
                ),
            decreases keys@.len() - i,
        {
            let raw_key = &keys[i];
            proof {
                assert(run.take(i + 1).drop_last() =~= run.take(i as int));
                assert(run.take(i + 1).last() == run[i as int]);
                assert(self.final_prefix().is_prefix_of(run[i as int]));
            }
            let tail = skip_bytes(raw_key.as_slice(), prefix.len());
            let key_material = self.hasher.reverse(tail.as_slice());
            match K::decode(key_material.as_slice()) {
                Some(k) => {
                    out.push(k);
                },
                None => {},
            }
            i = i + 1;
        }
        assert(run.take(keys@.len() as int) =~= run);
        out
    }

    /// Enumerates all keys of the map, in ascending order of their storage keys,
    /// leaving out those that do not decode.
    pub fn iter_keys(&self, storage: &Storage) -> (r: Vec<K>)
        requires
            storage.wf(),
            is_reversible(self.spec_hasher()),
        ensures
            r@ == keys_of::<K>(
                self.all_keys(storage.key_seq()),
                self.final_prefix().len(),
                self.spec_hasher(),
            ),
    {
        let prefix = self.prefix_hash();
        self.keys_from(storage, &prefix, prefix.as_slice())
    }

    /// Enumerates the keys whose storage keys follow `starting_raw_key`, in
    /// ascending order, up to the first storage key that is not the map's.
    pub fn iter_keys_from(&self, storage: &Storage, starting_raw_key: Vec<u8>) -> (r: Vec<K>)
        requires
            storage.wf(),
            is_reversible(self.spec_hasher()),
        ensures
            r@ == keys_of::<K>(
                self.walk(storage.key_seq(), starting_raw_key@),
                self.final_prefix().len(),
                self.spec_hasher(),
            ),
    {
        let prefix = self.prefix_hash();
        self.keys_from(storage, &prefix, starting_raw_key.as_slice())
    }

    /// Enumerates the keys whose storage keys follow that of `starting_key`, in
    /// ascending order.
    pub fn iter_keys_from_key(&self, storage: &Storage, starting_key: K) -> (r: Vec<K>)
        requires
            storage.wf(),
            is_reversible(self.spec_hasher()),
        ensures
            r@ == keys_of::<K>(
                self.walk(storage.key_seq(), self.final_key(starting_key)),
                self.final_prefix().len(),
                self.spec_hasher(),
            ),
    {
        let start = self.hashed_key_for(starting_key);
        self.iter_keys_from(storage, start)
    }

    /// Enumerates all values of the map, in ascending order of their storage
    /// keys, leaving out those that do not decode.
    pub fn iter_values(&self, storage: &Storage) -> (r: Vec<V>)
        requires
            storage.wf(),
        ensures
            r@ == values_of::<V>(self.all_keys(storage.key_seq()), storage.contents()),
    {
        let prefix = self.prefix_hash();
        let keys = storage.keys_in_run(prefix.as_slice(), prefix.as_slice());
        let ghost run = self.all_keys(storage.key_seq());
        proof {
            lemma_prefix_run(storage.key_seq(), self.final_prefix(), self.final_prefix());
        }
        let mut out: Vec<V> = Vec::new();
        let mut i: usize = 0;
        while i < keys.len()
            invariant
                storage.wf(),
                keys@.len() == run.len(),
                forall|j: int| 0 <= j < keys@.len() ==> (#[trigger] keys@[j])@ == run[j],
                forall|j: int| 0 <= j < run.len() ==> storage.key_seq().contains(#[trigger] run[j]),
                i <= keys@.len(),
                out@ == values_of::<V>(run.take(i as int), storage.contents()),
            decreases keys@.len() - i,
        {
            proof {
                assert(run.take(i + 1).drop_last() =~= run.take(i as int));
                assert(run.take(i + 1).last() == run[i as int]);
                assert(storage.key_seq().contains(run[i as int]));
            }
            let raw = storage.get(keys[i].as_slice()).unwrap();
            match V::decode(raw.as_slice()) {
                Some(v) => {
                    out.push(v);
                },
                None => {},
            }
            i = i + 1;
        }
        assert(run.take(keys@.len() as int) =~= run);
        out
    }

    /// Removes all entries of the map and returns those whose key and value
    /// decode, in ascending order of their storage keys.
    pub fn drain(&self, storage: &mut Storage) -> (r: Vec<(K, V)>)
        requires
            old(storage).wf(),
            is_reversible(self.spec_hasher()),
        ensures
            final(storage).wf(),
            r@ == entries_of::<K, V>(
                self.all_keys(old(storage).key_seq()),
                old(storage).contents(),
                self.final_prefix().len(),
                self.spec_hasher(),
            ),
            final(storage).contents() == old(storage).contents().remove_keys(
                self.all_keys(old(storage).key_seq()).to_set(),
            ),
    {
        let prefix = self.prefix_hash();
        let r = self.entries_from(storage, &prefix, prefix.as_slice());
        let keys = storage.keys_in_run(prefix.as_slice(), prefix.as_slice());
        let ghost run = self.all_keys(storage.key_seq());
        let ghost m0 = storage.contents();
        let mut i: usize = 0;
        while i < keys.len()
            invariant
                storage.wf(),
                keys@.len() == run.len(),
                forall|j: int| 0 <= j < keys@.len() ==> (#[trigger] keys@[j])@ == run[j],
                i <= keys@.len(),
                storage.contents() == m0.remove_keys(run.take(i as int).to_set()),
            decreases keys@.len() - i,
        {
            storage.clear(keys[i].as_slice());
            proof {
                assert(run.take(i + 1) =~= run.take(i as int).push(run[i as int]));
                run.take(i as int).lemma_push_to_set_commute(run[i as int]);
                assert(m0.remove_keys(run.take(i + 1).to_set()) =~= m0.remove_keys(
                    run.take(i as int).to_set(),
                ).remove(run[i as int]));
            }
            i = i + 1;
        }
        assert(run.take(keys@.len() as int) =~= run);
        r
    }

    /// Mutates the value of `key`: `f` gets what `get` reads and gives back the
    /// new value and a result; the new value is then written as `set` writes it.
    pub fn mutate<R, F: FnOnce(Q::Query) -> (Q::Query, R)>(
        &self,
        storage: &mut Storage,
        key: K,
        f: F,
    ) -> (r: R)
        requires
            old(storage).wf(),
            call_requires(
                f,
                (self.spec_query().spec_to_query(self.stored(old(storage).contents(), key)),),
            ),
        ensures
            final(storage).wf(),
            exists|q: Q::Query|
                call_ensures(
                    f,
                    (self.spec_query().spec_to_query(self.stored(old(storage).contents(), key)),),
                    (q, r),
                ) && final(storage).contents() == store(
                    old(storage).contents(),
                    self.final_key(key),
                    self.spec_query().spec_from_query(q),
                ),
    {
        let k = self.hashed_key_for(key);
        let v = match storage.get(k.as_slice()) {
            Some(raw) => V::decode(raw.as_slice()),
            None => None,
        };
        let q0 = self.query.from_optional_value_to_query(v);
        let (q1, r) = f(q0);
        match self.query.from_query_to_optional_value(q1) {
            Some(v) => {
                let e = v.encode();
                storage.set(k.as_slice(), e.as_slice());
            },
            None => storage.clear(k.as_slice()),
        }
        r
    }

    /// Mutates the value of `key` only where `f` succeeds: `f` gets what `get`
    /// reads and gives back the new value and a result; the new value is
    /// written as `set` writes it where the result is `Ok`, and nothing changes
    /// where it is `Err`.
    pub fn try_mutate<R, E, F: FnOnce(Q::Query) -> (Q::Query, Result<R, E>)>(
        &self,
        storage: &mut Storage,
        key: K,
        f: F,
    ) -> (r: Result<R, E>)
        requires
            old(storage).wf(),
            call_requires(
                f,
                (self.spec_query().spec_to_query(self.stored(old(storage).contents(), key)),),
            ),
        ensures
            final(storage).wf(),
            exists|q: Q::Query|
                call_ensures(
                    f,
                    (self.spec_query().spec_to_query(self.stored(old(storage).contents(), key)),),
                    (q, r),
                ) && final(storage).contents() == if r is Ok {
                    store(
                        old(storage).contents(),
                        self.final_key(key),
                        self.spec_query().spec_from_query(q),
                    )
                } else {
                    old(storage).contents()
                },
    {
        let k = self.hashed_key_for(key);
        let v = match storage.get(k.as_slice()) {
            Some(raw) => V::decode(raw.as_slice()),
            None => None,
        };
        let q0 = self.query.from_optional_value_to_query(v);
        let (q1, r) = f(q0);
        if r.is_ok() {
            match self.query.from_query_to_optional_value(q1) {
                Some(v) => {
                    let e = v.encode();
                    storage.set(k.as_slice(), e.as_slice());
                },
                None => storage.clear(k.as_slice()),
            }
        }
        r
    }

    /// Mutates the value of `key` where one is held and decodes: `f` gets it and
    /// gives back the new value, which is stored, and a result. Where no value
    /// is held or it does not decode, nothing changes and the result is the
    /// default one.
    pub fn mutate_extant<R: Default, F: FnOnce(V) -> (V, R)>(
        &self,
        storage: &mut Storage,
        key: K,
        f: F,
    ) -> (r: R)
        requires
            old(storage).wf(),
            self.stored(old(storage).contents(), key) matches Some(v) ==> call_requires(f, (v,)),
        ensures
            final(storage).wf(),
            match self.stored(old(storage).contents(), key) {
                Some(v) => exists|nv: V|
                    call_ensures(f, (v,), (nv, r)) && final(storage).contents() == old(
                        storage,
                    ).contents().insert(self.final_key(key), nv.spec_encode()),
                None => final(storage).contents() == old(storage).contents() && call_ensures(
                    R::default,
                    (),
                    r,
                ),
            },
    {
        let k = self.hashed_key_for(key);
        let v = match storage.get(k.as_slice()) {
            Some(raw) => V::decode(raw.as_slice()),
            None => None,
        };
        match v {
            Some(value) => {
                let (nv, r) = f(value);
                let e = nv.encode();
                storage.set(k.as_slice(), e.as_slice());
                r
            },
            None => R::default(),
        }
    }

    /// Mutates the value of `key`, whether or not one is held: `f` gets the
    /// stored value, if any, and gives back the new value, if any, and a result;
    /// the new value is stored, or the entry removed where it is `None`.
    pub fn mutate_exists<R, F: FnOnce(Option<V>) -> (Option<V>, R)>(
        &self,
        storage: &mut Storage,
        key: K,
        f: F,
    ) -> (r: R)
        requires
            old(storage).wf(),
            call_requires(f, (self.stored(old(storage).contents(), key),)),
        ensures
            final(storage).wf(),
            exists|nv: Option<V>|
                call_ensures(f, (self.stored(old(storage).contents(), key),), (nv, r))
                    && final(storage).contents() == store(
                    old(storage).contents(),
                    self.final_key(key),
                    nv,
                ),
    {
        let k = self.hashed_key_for(key);
        let v = match storage.get(k.as_slice()) {
            Some(raw) => V::decode(raw.as_slice()),
            None => None,
        };
        let ghost arg = v;
        let (nv, r) = f(v);
        let ghost out = nv;
        proof {
            assert(call_ensures(f, (arg,), (out, r)));
            assert(arg == self.stored(old(storage).contents(), key));
        }
        match nv {
            Some(v) => {
                let e = v.encode();
                storage.set(k.as_slice(), e.as_slice());
            },
            None => storage.clear(k.as_slice()),
        }
        assert(storage.contents() == store(old(storage).contents(), self.final_key(key), out));
        r
    }

    /// Mutates the value of `key` only where `f` succeeds: `f` gets the stored
    /// value, if any, and gives back the new value, if any, and a result; where
    /// the result is `Ok` the new value is stored, or the entry removed where it
    /// is `None`, and where it is `Err` nothing changes.
    pub fn try_mutate_exists<R, E, F: FnOnce(Option<V>) -> (Option<V>, Result<R, E>)>(
        &self,
        storage: &mut Storage,
        key: K,
        f: F,
    ) -> (r: Result<R, E>)
        requires
            old(storage).wf(),
            call_requires(f, (self.stored(old(storage).contents(), key),)),
        ensures
            final(storage).wf(),
            exists|nv: Option<V>|
                #[trigger] call_ensures(f, (self.stored(old(storage).contents(), key),), (nv, r))
                    && final(storage).contents() == if r is Ok {
                    store(old(storage).contents(), self.final_key(key), nv)
                } else {
                    old(storage).contents()
                },
    {
        let k = self.hashed_key_for(key);
        let v = match storage.get(k.as_slice()) {
            Some(raw) => V::decode(raw.as_slice()),
            None => None,
        };
        let ghost arg = v;
        let (nv, r) = f(v);
        let ghost out = nv;
        proof {
            assert(call_ensures(f, (arg,), (out, r)));
        }
        if r.is_ok() {
            match nv {
                Some(v) => {
                    let e = v.encode();
                    storage.set(k.as_slice(), e.as_slice());
                },
                None => storage.clear(k.as_slice()),
            }
            assert(storage.contents() == store(old(storage).contents(), self.final_key(key), out));
        }
        assert(call_ensures(f, (self.stored(old(storage).contents(), key),), (out, r)));
        assert(storage.contents() == if r is Ok {
            store(old(storage).contents(), self.final_key(key), out)
        } else {
            old(storage).contents()
        });
        r
    }

    /// Moves the value of `key` from where the hasher `old_hasher` put it to
    /// where the map's hasher puts it. Where a value is held there and decodes,
    /// it is removed from there, stored again under the map's storage key, and
    /// returned; otherwise nothing changes and `None` is returned.
    pub fn migrate_key(&self, storage: &mut Storage, key: K, old_hasher: StorageHasher) -> (r:
        Option<V>)
        requires
            old(storage).wf(),
        ensures
            final(storage).wf(),
            r == decoded_at::<V>(
                old(storage).contents(),
                self.final_prefix() + spec_hash(old_hasher, key.spec_encode()),
            ),
            final(storage).contents() == match r {
                Some(v) => old(storage).contents().remove(
                    self.final_prefix() + spec_hash(old_hasher, key.spec_encode()),
                ).insert(self.final_key(key), v.spec_encode()),
                None => old(storage).contents(),
            },
    {
        let prefix = self.prefix_hash();
        let encoded = key.encode();
        let old_hashed = old_hasher.hash(encoded.as_slice());
        let old_key = concat(prefix.as_slice(), old_hashed.as_slice());
        let v = match storage.get(old_key.as_slice()) {
            Some(raw) => V::decode(raw.as_slice()),
            None => None,
        };
        match v {
            Some(value) => {
                storage.clear(old_key.as_slice());
                let new_key = self.hashed_key_for(key);
                let e = value.encode();
                storage.set(new_key.as_slice(), e.as_slice());
                Some(value)
            },
            None => None,
        }
    }

    /// Translates the values of all entries with `f`, in ascending order of their
    /// storage keys: each value that decodes as an old value is replaced by what
    /// `f` gives for it, or removed where `f` gives `None`; values that do not
    /// decode are left as they are.
    pub fn translate_values<O: Codec, F: Fn(O) -> Option<V>>(&self, storage: &mut Storage, f: F)
        requires
            old(storage).wf(),
            forall|o: O| call_requires(f, (o,)),
        ensures
            final(storage).wf(),
            forall|k: Seq<u8>|
                #![trigger raw_at(final(storage).contents(), k)]
                self.all_keys(old(storage).key_seq()).contains(k) ==> value_translated::<O, V, F>(
                    old(storage).contents()[k],
                    raw_at(final(storage).contents(), k),
                    f,
                ),
            forall|k: Seq<u8>|
                #![trigger raw_at(final(storage).contents(), k)]
                !self.all_keys(old(storage).key_seq()).contains(k) ==> raw_at(
                    final(storage).contents(),
                    k,
                ) == raw_at(old(storage).contents(), k),
    {
        let prefix = self.prefix_hash();
        let keys = storage.keys_in_run(prefix.as_slice(), prefix.as_slice());
        let ghost run = self.all_keys(storage.key_seq());
        let ghost m0 = storage.contents();
        proof {
            lemma_prefix_run(storage.key_seq(), self.final_prefix(), self.final_prefix());
        }
        let mut i: usize = 0;
        while i < keys.len()
            invariant
                storage.wf(),
                forall|o: O| call_requires(f, (o,)),
                keys@.len() == run.len(),
                forall|j: int| 0 <= j < keys@.len() ==> (#[trigger] keys@[j])@ == run[j],
                forall|j: int| 0 <= j < run.len() ==> m0.contains_key(#[trigger] run[j]),
                strictly_sorted(run),
                i <= keys@.len(),
                forall|k: Seq<u8>|
                    #![trigger raw_at(storage.contents(), k)]
                    !run.take(i as int).to_set().contains(k) ==> raw_at(storage.contents(), k)
                        == raw_at(m0, k),
                forall|k: Seq<u8>|
                    #![trigger raw_at(storage.contents(), k)]
                    run.take(i as int).to_set().contains(k) ==> value_translated::<O, V, F>(
                        m0[k],
                        raw_at(storage.contents(), k),
                        f,
                    ),
            decreases keys@.len() - i,
        {
            let ghost k = run[i as int];
            let ghost before = storage.contents();
            proof {
                lemma_not_before(run, i as int);
                assert(raw_at(storage.contents(), k) == raw_at(m0, k));
                assert(run.take(i + 1) =~= run.take(i as int).push(k));
                run.take(i as int).lemma_push_to_set_commute(k);
            }
            let raw = storage.get(keys[i].as_slice()).unwrap();
            match O::decode(raw.as_slice()) {
                Some(o) => {
                    match f(o) {
                        Some(nv) => {
                            let e = nv.encode();
                            storage.set(keys[i].as_slice(), e.as_slice());
                        },
                        None => storage.clear(keys[i].as_slice()),
                    }
                },
                None => {},
            }
            proof {
                assert forall|k2: Seq<u8>| k2 != k implies #[trigger] raw_at(storage.contents(), k2)
                    == raw_at(before, k2) by {}
                assert(value_translated::<O, V, F>(m0[k], raw_at(storage.contents(), k), f));
            }
            i = i + 1;
        }
        assert(run.take(keys@.len() as int) =~= run);
        proof {
            assert forall|k: Seq<u8>| run.contains(k) == run.to_set().contains(k) by {}
        }
    }

    /// Translates all entries with `f`, in ascending order of their storage keys:
    /// for each entry whose key reads back and whose value decodes as an old
    /// value, the value is replaced by what `f` gives for them, or removed where
    /// `f` gives `None`; the other entries are left as they are.
    pub fn translate<O: Codec, F: Fn(K, O) -> Option<V>>(&self, storage: &mut Storage, f: F)
        requires
            old(storage).wf(),
            is_reversible(self.spec_hasher()),
            forall|k: K, o: O| call_requires(f, (k, o)),
        ensures
            final(storage).wf(),
            forall|k: Seq<u8>|
                #![trigger raw_at(final(storage).contents(), k)]
                self.all_keys(old(storage).key_seq()).contains(k) ==> entry_translated::<
                    K,
                    O,
                    V,
                    F,
                >(
                    k,
                    old(storage).contents()[k],
                    raw_at(final(storage).contents(), k),
                    self.final_prefix().len(),
                    self.spec_hasher(),
                    f,
                ),
            forall|k: Seq<u8>|
                #![trigger raw_at(final(storage).contents(), k)]
                !self.all_keys(old(storage).key_seq()).contains(k) ==> raw_at(
                    final(storage).contents(),
                    k,
                ) == raw_at(old(storage).contents(), k),
    {
        let prefix = self.prefix_hash();
        let keys = storage.keys_in_run(prefix.as_slice(), prefix.as_slice());
        let ghost run = self.all_keys(storage.key_seq());
        let ghost m0 = storage.contents();
        let ghost plen = self.final_prefix().len();
        proof {
            lemma_prefix_run(storage.key_seq(), self.final_prefix(), self.final_prefix());
        }
        let mut i: usize = 0;
        while i < keys.len()
            invariant
                storage.wf(),
                prefix@ == self.final_prefix(),
                plen == self.final_prefix().len(),
                is_reversible(self.spec_hasher()),
                forall|k: K, o: O| call_requires(f, (k, o)),
                keys@.len() == run.len(),
                forall|j: int| 0 <= j < keys@.len() ==> (#[trigger] keys@[j])@ == run[j],
                forall|j: int|
                    0 <= j < run.len() ==> m0.contains_key(#[trigger] run[j])
                        && self.final_prefix().is_prefix_of(run[j]),
                strictly_sorted(run),
                i <= keys@.len(),
                forall|k: Seq<u8>|
                    #![trigger raw_at(storage.contents(), k)]
                    !run.take(i as int).to_set().contains(k) ==> raw_at(storage.contents(), k)
                        == raw_at(m0, k),
                forall|k: Seq<u8>|
                    #![trigger raw_at(storage.contents(), k)]
                    run.take(i as int).to_set().contains(k) ==> entry_translated::<K, O, V, F>(
                        k,
                        m0[k],
                        raw_at(storage.contents(), k),
                        plen,
                        self.spec_hasher(),
                        f,
                    ),
            decreases keys@.len() - i,
        {
            let ghost k = run[i as int];
            let ghost before = storage.contents();
            proof {
                lemma_not_before(run, i as int);
                assert(raw_at(storage.contents(), k) == raw_at(m0, k));
                assert(run.take(i + 1) =~= run.take(i as int).push(k));
                run.take(i as int).lemma_push_to_set_commute(k);
                assert(self.final_prefix().is_prefix_of(k));
            }
            let raw = storage.get(keys[i].as_slice()).unwrap();
            let tail = skip_bytes(keys[i].as_slice(), prefix.len());
            let key_material = self.hasher.reverse(tail.as_slice());
            match (O::decode(raw.as_slice()), K::decode(key_material.as_slice())) {
                (Some(o), Some(key)) => {
                    match f(key, o) {
                        Some(nv) => {
                            let e = nv.encode();
                            storage.set(keys[i].as_slice(), e.as_slice());
                        },
                        None => storage.clear(keys[i].as_slice()),
                    }
                },
                _ => {},
            }
            proof {
                assert forall|k2: Seq<u8>| k2 != k implies #[trigger] raw_at(storage.contents(), k2)
                    == raw_at(before, k2) by {}
                assert(entry_translated::<K, O, V, F>(
                    k,
                    m0[k],
                    raw_at(storage.contents(), k),
                    plen,
                    self.spec_hasher(),
                    f,
                ));
            }
            i = i + 1;
        }
        assert(run.take(keys@.len() as int) =~= run);
        proof {
            assert forall|k: Seq<u8>| run.contains(k) == run.to_set().contains(k) by {}
        }
    }

    /// Translates the first entry that walking the map from `previous_key` (from
    /// the map's prefix where it is `None`) visits, as `translate` translates each
    /// entry, and returns its storage key, to go on from; `None` where the walk
    /// visits no entry, and then nothing changes.
    pub fn translate_next<O: Codec, F: Fn(K, O) -> Option<V>>(
        &self,
        storage: &mut Storage,
        previous_key: Option<Vec<u8>>,
        f: F,
    ) -> (r: Option<Vec<u8>>)
        requires
            old(storage).wf(),
            is_reversible(self.spec_hasher()),
            forall|k: K, o: O| call_requires(f, (k, o)),
        ensures
            final(storage).wf(),
            ({
                let start = match previous_key {
                    Some(p) => p@,
                    None => self.final_prefix(),
                };
                let run = self.walk(old(storage).key_seq(), start);
                if run.len() == 0 {
                    r is None && final(storage).contents() == old(storage).contents()
                } else {
                    &&& r matches Some(c) && c@ == run[0]
                    &&& entry_translated::<K, O, V, F>(
                        run[0],
                        old(storage).contents()[run[0]],
                        raw_at(final(storage).contents(), run[0]),
                        self.final_prefix().len(),
                        self.spec_hasher(),
                        f,
                    )
                    &&& forall|k: Seq<u8>|
                        #![trigger raw_at(final(storage).contents(), k)]
                        k != run[0] ==> raw_at(final(storage).contents(), k) == raw_at(
                            old(storage).contents(),
                            k,
                        )
                }
            }),
    {
        let prefix = self.prefix_hash();
        let start = match previous_key {
            Some(p) => p,
            None => self.prefix_hash(),
        };
        let keys = storage.keys_in_run(prefix.as_slice(), start.as_slice());
        let ghost run = self.walk(storage.key_seq(), start@);
        proof {
            lemma_prefix_run(storage.key_seq(), self.final_prefix(), start@);
        }
        if keys.len() == 0 {
            return None;
        }
        let ghost k = run[0];
        let ghost m0 = storage.contents();
        let current = keys[0].clone();
        proof {
            assert(self.final_prefix().is_prefix_of(k));
            assert(m0.contains_key(k));
        }
        let raw = storage.get(current.as_slice()).unwrap();
        let tail = skip_bytes(current.as_slice(), prefix.len());
        let key_material = self.hasher.reverse(tail.as_slice());
        match (O::decode(raw.as_slice()), K::decode(key_material.as_slice())) {
            (Some(o), Some(key)) => {
                match f(key, o) {
                    Some(nv) => {
                        let e = nv.encode();
                        storage.set(current.as_slice(), e.as_slice());
                    },
                    None => storage.clear(current.as_slice()),
                }
            },
            _ => {},
        }
        proof {
            assert forall|k2: Seq<u8>| k2 != k implies #[trigger] raw_at(storage.contents(), k2)
                == raw_at(m0, k2) by {}
        }
        Some(current)
    }

    /// Takes the value of `key`: reads it and, where it is held and decodes,
    /// removes it.
    pub fn take(&self, storage: &mut Storage, key: K) -> (r: Q::Query)
        requires
            old(storage).wf(),
        ensures
            final(storage).wf(),
            r == self.spec_query().spec_to_query(self.stored(old(storage).contents(), key)),
            final(storage).contents() == if self.stored(old(storage).contents(), key) is Some {
                old(storage).contents().remove(self.final_key(key))
            } else {
                old(storage).contents()
            },
    {
        let k = self.hashed_key_for(key);
        let v = match storage.get(k.as_slice()) {
            Some(raw) => V::decode(raw.as_slice()),
            None => None,
        };
        if v.is_some() {
            storage.clear(k.as_slice());
        }
        self.query.from_optional_value_to_query(v)
    }
}

/// What appending `item` leaves under a key that holds `old`: where `old`
/// begins with the compact length of a vector that can take one more item, the
/// vector with that length increased by one and `item` after its items;
/// otherwise (nothing held, an empty value, a length that does not decode or is
/// at its greatest) a vector of `item` alone.
pub open spec fn spec_append(old: Option<Seq<u8>>, item: Seq<u8>) -> Seq<u8> {
    let fresh = spec_compact_encode(1) + item;
    match old {
        None => fresh,
        Some(b) => if b.len() == 0 {
            fresh
        } else {
            match spec_compact_decode(b) {
                Some((n, c)) => if n + 1 <= u32::MAX {
                    spec_compact_encode(n + 1) + b.skip(c as int) + item
                } else {
                    fresh
                },
                None => fresh,
            }
        },
    }
}

/// The length of the vector held as `raw`, read from its compact length prefix
/// alone, or `None` where nothing is held or the prefix does not decode.
pub open spec fn spec_decode_len(raw: Option<Seq<u8>>) -> Option<nat> {
    match raw {
        Some(b) => match spec_compact_decode(b) {
            Some((n, _)) => Some(n),
            None => None,
        },
        None => None,
    }
}

/// The value that the `#[pallet::storage]` of a map describes in the metadata.
#[derive(Debug, PartialEq, Eq)]
pub struct StorageEntryMetadata {
    /// The name of the map.
    pub name: String,
    /// Whether a missing value reads as `None` or as a default.
    pub modifier: StorageEntryModifier,
    /// The hashers of the map's keys.
    pub hashers: Vec<StorageHasher>,
    /// The name of the key type.
    pub key: String,
    /// The name of the value type.
    pub value: String,
    /// The encoding of what a missing value reads as.
    pub default: Vec<u8>,
    /// The documentation of the map.
    pub docs: Vec<String>,
    /// Whether the map is deprecated.
    pub deprecation_info: ItemDeprecationInfo,
}

/// Whether an item of the metadata is deprecated.
#[derive(Debug, Clone, PartialEq, Eq)]
pub enum ItemDeprecationInfo {
    /// Not deprecated.
    NotDeprecated,
    /// Deprecated, without a note.
    DeprecatedWithoutNote,
    /// Deprecated, with a note and the version since which it is.
    Deprecated {
        /// Why, and what to use instead.
        note: String,
        /// The version since which it is deprecated.
        since: Option<String>,
    },
}

impl<K: Codec, V: Codec, Q: QueryKind<V>> StorageMap<K, V, Q> {
    /// Appends the metadata of the map to `entries`: its name, how a missing
    /// value reads, its hasher, the names of its key and value types, the
    /// encoding of what a missing value reads as, `docs` and `deprecation_status`.
    pub fn build_metadata(
        &self,
        deprecation_status: ItemDeprecationInfo,
        docs: Vec<String>,
        entries: &mut Vec<StorageEntryMetadata>,
    )
        ensures
            final(entries)@.len() == old(entries)@.len() + 1,
            forall|i: int|
                0 <= i < old(entries)@.len() ==> #[trigger] final(entries)@[i] == old(entries)@[i],
            ({
                let e = final(entries)@[old(entries)@.len() as int];
                &&& e.name@ == self.spec_storage_name()
                &&& e.modifier == self.spec_query().spec_modifier()
                &&& e.hashers@ == seq![self.spec_hasher()]
                &&& e.key@ == K::spec_metadata_name()
                &&& e.value@ == V::spec_metadata_name()
                &&& e.default@ == self.spec_query().spec_default_encoding()
                &&& e.docs == docs
                &&& e.deprecation_info == deprecation_status
            }),
    {
        let mut hashers = Vec::new();
        hashers.push(self.hasher);
        let entry = StorageEntryMetadata {
            name: self.storage_name.clone(),
            modifier: self.query.modifier(),
            hashers,
            key: K::metadata_name(),
            value: V::metadata_name(),
            default: self.query.default_encoding(),
            docs,
            deprecation_info: deprecation_status,
        };
        entries.push(entry);
    }
}

impl<K: Codec, I: Codec, Q> StorageMap<K, Vec<I>, Q> {
    /// Appends `item` to the vector held for `key`, as the store's `append`
    /// does: the length prefix is increased by one and the item's encoding put
    /// after the held bytes; where no vector with a length that can grow is held,
    /// a vector of `item` alone is stored.
    pub fn append(&self, storage: &mut Storage, key: K, item: I)
        requires
            old(storage).wf(),
        ensures
            final(storage).wf(),
            final(storage).contents() == old(storage).contents().insert(
                self.final_key(key),
                spec_append(raw_at(old(storage).contents(), self.final_key(key)), item.spec_encode()),
            ),
    {
        let k = self.hashed_key_for(key);
        let encoded_item = item.encode();
        let new_value = match storage.get(k.as_slice()) {
            None => {
                let one = compact_encode(1);
                concat(one.as_slice(), encoded_item.as_slice())
            },
            Some(b) => {
                if b.len() == 0 {
                    let one = compact_encode(1);
                    concat(one.as_slice(), encoded_item.as_slice())
                } else {
                    match compact_decode(b.as_slice()) {
                        Some((n, c)) => {
                            if n < u32::MAX {
                                let len = compact_encode(n + 1);
                                proof {
                                    assert(c <= b@.len()) by {
                                        assert(spec_compact_decode(b@) is Some);
                                    }
                                }
                                let rest = skip_bytes(b.as_slice(), c);
                                let head = concat(len.as_slice(), rest.as_slice());
                                concat(head.as_slice(), encoded_item.as_slice())
                            } else {
                                let one = compact_encode(1);
                                concat(one.as_slice(), encoded_item.as_slice())
                            }
                        },
                        None => {
                            let one = compact_encode(1);
                            concat(one.as_slice(), encoded_item.as_slice())
                        },
                    }
                }
            },
        };
        storage.set(k.as_slice(), new_value.as_slice());
    }

    /// The length of the vector held for `key`, read from its length prefix
    /// without decoding the items, or `None` where nothing is held or the prefix
    /// does not decode. The default value of the map plays no part.
    pub fn decode_len(&self, storage: &Storage, key: K) -> (r: Option<usize>)
        requires
            storage.wf(),
        ensures
            match (r, spec_decode_len(raw_at(storage.contents(), self.final_key(key)))) {
                (Some(a), Some(b)) => a == b,
                (None, None) => true,
                _ => false,
            },
    {
        let k = self.hashed_key_for(key);
        match storage.get(k.as_slice()) {
            Some(b) => match compact_decode(b.as_slice()) {
                Some((n, _)) => Some(n as usize),
                None => None,
            },
            None => None,
        }
    }

    /// The length of the vector held for `key`, duplicate items included, read
    /// from its length prefix; `None` where nothing is held or the prefix does
    /// not decode.
    pub fn decode_non_dedup_len(&self, storage: &Storage, key: K) -> (r: Option<usize>)
        requires
            storage.wf(),
        ensures
            match (r, spec_decode_len(raw_at(storage.contents(), self.final_key(key)))) {
                (Some(a), Some(b)) => a == b,
                (None, None) => true,
                _ => false,
            },
    {
        self.decode_len(storage, key)
    }

    /// Appends `item` to the vector held for `key` where it holds fewer than
    /// `bound` items (counting a vector whose length does not read as empty),
    /// and fails, changing nothing, where it does not.
    pub fn try_append(&self, storage: &mut Storage, key: K, item: I, bound: usize) -> (r: Result<
        (),
        (),
    >)
        requires
            old(storage).wf(),
        ensures
            final(storage).wf(),
            ({
                let current = match spec_decode_len(
                    raw_at(old(storage).contents(), self.final_key(key)),
                ) {
                    Some(n) => n,
                    None => 0,
                };
                if current < bound {
                    &&& r is Ok
                    &&& final(storage).contents() == old(storage).contents().insert(
                        self.final_key(key),
                        spec_append(
                            raw_at(old(storage).contents(), self.final_key(key)),
                            item.spec_encode(),
                        ),
                    )
                } else {
                    r is Err && final(storage).contents() == old(storage).contents()
                }
            }),
    {
        let current = match self.decode_len(storage, key.duplicate()) {
            Some(n) => n,
            None => 0,
        };
        if current < bound {
            self.append(storage, key, item);
            Ok(())
        } else {
            Err(())
        }
    }
}

} // verus!
