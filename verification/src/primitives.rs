//! The relay-chain values that the network messages carry. The messages move
//! them from one envelope to another and never look inside, so each is held as
//! the plain value that identifies it: an index, a 256-bit hash, or the SCALE
//! encoding of a signed object.
use vstd::prelude::*;


verus! {

/// The index of a parachain.
#[derive(Debug, Clone, Copy, PartialEq, Eq, Structural)]
pub struct ParaId(pub u32);

/// The index of a backing group of validators.
#[derive(Debug, Clone, Copy, PartialEq, Eq, Structural)]
pub struct GroupIndex(pub u32);

/// The hash of a candidate receipt.
#[derive(Debug, Clone, Copy, PartialEq, Eq, Structural)]
pub struct CandidateHash(pub crate::view::Hash);

/// The public key of a collator (a 32-byte sr25519 key).
#[derive(Debug, Clone, Copy, PartialEq, Eq, Structural)]
pub struct CollatorId(pub crate::view::Hash);

/// A collator's signature (a 64-byte sr25519 signature, in two halves).
#[derive(Debug, Clone, Copy, PartialEq, Eq, Structural)]
pub struct CollatorSignature {
    /// The first thirty-two bytes.
    pub first: crate::view::Hash,
    /// The last thirty-two bytes.
    pub second: crate::view::Hash,
}

/// A signed full statement about a candidate, as its SCALE encoding.
#[derive(Debug, Clone)]
pub struct UncheckedSignedFullStatement {
    /// The encoded statement.
    pub encoded: Vec<u8>,
}

/// A signed compact statement about a candidate, as its SCALE encoding.
#[derive(Debug, Clone)]
pub struct UncheckedSignedStatement {
    /// The encoded statement.
    pub encoded: Vec<u8>,
}

/// A validator's signed availability bitfield, as its SCALE encoding.
#[derive(Debug, Clone)]
pub struct UncheckedSignedAvailabilityBitfield {
    /// The encoded bitfield.
    pub encoded: Vec<u8>,
}

/// An assignment certificate for approval checking, as its SCALE encoding.
#[derive(Debug, Clone)]
pub struct IndirectAssignmentCertV2 {
    /// The encoded certificate.
    pub encoded: Vec<u8>,
}

/// The candidates that an assignment claims, as the SCALE encoding of the bitfield.
#[derive(Debug, Clone)]
pub struct CandidateBitfield {
    /// The encoded bitfield.
    pub encoded: Vec<u8>,
}

/// A signed approval vote, as its SCALE encoding.
#[derive(Debug, Clone)]
pub struct IndirectSignedApprovalVoteV2 {
    /// The encoded vote.
    pub encoded: Vec<u8>,
}

} // verus!
