//! Version 1 of the collation protocol.
use vstd::prelude::*;
use vstd::std_specs::convert::FromSpecImpl;

use crate::primitives::{CollatorId, CollatorSignature, ParaId, UncheckedSignedFullStatement};
use crate::protocol::PeerId;

verus! {

/// Network messages used by the collator protocol subsystem.
#[derive(Debug, Clone)]
pub enum CollatorProtocolMessage {
    /// Declare the intent to advertise collations under a collator ID, attaching a
    /// signature of the `PeerId` of the node using the given collator ID key.
    Declare(CollatorId, ParaId, CollatorSignature),
    /// Advertise a collation to a validator. Can only be sent once the peer has
    /// declared that they are a collator with given ID.
    AdvertiseCollation(crate::view::Hash),
    /// A collation sent to a validator was seconded.
    CollationSeconded(crate::view::Hash, UncheckedSignedFullStatement),
}

/// All network messages on the collation peer-set.
#[derive(Debug, Clone)]
pub enum CollationProtocol {
    /// Collator protocol messages.
    CollatorProtocol(CollatorProtocolMessage),
}

impl From<CollatorProtocolMessage> for CollationProtocol {
    fn from(m: CollatorProtocolMessage) -> (r: CollationProtocol) {
        CollationProtocol::CollatorProtocol(m)
    }
}

impl FromSpecImpl<CollatorProtocolMessage> for CollationProtocol {
    open spec fn obeys_from_spec() -> bool {
        true
    }

    open spec fn from_spec(m: CollatorProtocolMessage) -> CollationProtocol {
        CollationProtocol::CollatorProtocol(m)
    }
}

/// The bytes that every declaration payload ends with.
pub open spec fn declare_suffix() -> Seq<u8> {
    seq![0x43u8, 0x4fu8, 0x4cu8, 0x4cu8]
}

/// Gets the payload that should be signed and included in a `Declare` message:
/// the encoding of the local peer id followed by the bytes `COLL`. It proves
/// that the node controls the collator key it declares to collate under.
pub fn declare_signature_payload(peer_id: &PeerId) -> (payload: Vec<u8>)
    ensures
        payload@ == peer_id.encoded() + declare_suffix(),
{
    let mut payload = peer_id.to_bytes();
    payload.push(0x43u8);
    payload.push(0x4fu8);
    payload.push(0x4cu8);
    payload.push(0x4cu8);
    assert(payload@ =~= peer_id.encoded() + declare_suffix());
    payload
}

} // verus!
