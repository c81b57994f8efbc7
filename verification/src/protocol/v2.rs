//! Version 2 of the collation protocol.
use vstd::prelude::*;
use vstd::std_specs::convert::FromSpecImpl;

use crate::primitives::{
    CandidateHash,
    CollatorId,
    CollatorSignature,
    ParaId,
    UncheckedSignedFullStatement,
};

pub use crate::protocol::v1::declare_signature_payload;

verus! {

/// Network messages used by the collator protocol subsystem.
#[derive(Debug, Clone)]
pub enum CollatorProtocolMessage {
    /// Declare the intent to advertise collations under a collator ID, attaching a
    /// signature of the `PeerId` of the node using the given collator ID key.
    Declare(CollatorId, ParaId, CollatorSignature),
    /// Advertise a collation to a validator. Can only be sent once the peer has
    /// declared that they are a collator with given ID.
    AdvertiseCollation {
        /// Hash of the relay parent the advertised collation is based on.
        relay_parent: crate::view::Hash,
        /// Candidate hash.
        candidate_hash: CandidateHash,
        /// Parachain head data hash before candidate execution.
        parent_head_data_hash: crate::view::Hash,
    },
    /// A collation sent to a validator was seconded.
    CollationSeconded(crate::view::Hash, UncheckedSignedFullStatement),
}

/// All network messages on the collation peer-set.
#[derive(Debug, Clone)]
pub enum CollationProtocol {
    /// Collator protocol messages.
    CollatorProtocol(CollatorProtocolMessage),
}

impl From<CollatorProtocolMessage> for CollationProtocol {
    fn from(m: CollatorProtocolMessage) -> (r: CollationProtocol) {
        CollationProtocol::CollatorProtocol(m)
    }
}

impl FromSpecImpl<CollatorProtocolMessage> for CollationProtocol {
    open spec fn obeys_from_spec() -> bool {
        true
    }

    open spec fn from_spec(m: CollatorProtocolMessage) -> CollationProtocol {
        CollationProtocol::CollatorProtocol(m)
    }
}

} // verus!
