//! On-chain storage: a key-value store of byte strings, the hashers that turn
//! keys into storage keys, the encoding of keys and values, and the typed map
//! that the runtime keeps in the store.
pub mod bytes;
pub mod backend;
pub mod codec;
pub mod hashing;
pub mod map;
pub mod laws;
