//! Verified building blocks of a relay-chain node and runtime:
//! the network protocol's views and message envelopes, a storage map over an
//! explicit key-value store, and the helpers of the society pallet's test
//! environment.
use vstd::prelude::*;

pub mod bitfield;
pub mod primitives;
pub mod protocol;
pub mod society;
pub mod storage;
pub mod society_env;
pub mod view;

verus! {

} // verus!
