use polkadot_parts::bitfield::{bits_from, bits_to_vec, Bits};
use polkadot_parts::primitives::{
    CandidateHash, CollatorId, CollatorSignature, ParaId, UncheckedSignedAvailabilityBitfield,
    UncheckedSignedStatement,
};
use polkadot_parts::protocol::v3::{self, StatementFilter};
use polkadot_parts::protocol::{
    self, filter_by_peer_version, v1, v2, ApprovalDistributionMessage,
    BitfieldDistributionMessage, CollationProtocols, CollatorProtocolMessage,
    GossipSupportNetworkMessage, ObservedRole, PeerId, ProtocolVersion,
    StatementDistributionMessage, ValidationProtocols, VersionedCollationProtocol,
    VersionedValidationProtocol, WrongVariant,
};

fn h(b: u8) -> polkadot_parts::view::Hash {
    polkadot_parts::view::Hash::repeat_byte(b)
}

fn bools(bits: &Bits) -> Vec<bool> {
    bits_to_vec(bits)
}

fn bitfield_message() -> BitfieldDistributionMessage {
    ValidationProtocols::V3(v3::BitfieldDistributionMessage::Bitfield(
        h(1),
        UncheckedSignedAvailabilityBitfield { encoded: vec![1, 2, 3] },
    ))
}

#[test]
fn wrong_variant_describes_itself() {
    assert_eq!(WrongVariant.to_string(), "Wrong message variant");
    assert_eq!(protocol::MIN_GOSSIP_PEERS, 25);
    assert!(ObservedRole::Light != ObservedRole::Full);
}

#[test]
fn bitfield_message_roundtrips_through_validation_protocol() {
    let versioned: VersionedValidationProtocol = bitfield_message().into();
    let back = BitfieldDistributionMessage::try_from(versioned).unwrap();
    match back {
        ValidationProtocols::V3(v3::BitfieldDistributionMessage::Bitfield(hash, bitfield)) => {
            assert_eq!(hash, h(1));
            assert_eq!(bitfield.encoded, vec![1, 2, 3]);
        },
    }
}

#[test]
fn wrong_subsystem_is_refused() {
    let versioned: VersionedValidationProtocol = bitfield_message().into();
    assert!(matches!(StatementDistributionMessage::try_from(versioned), Err(WrongVariant)));
    let versioned: VersionedValidationProtocol = bitfield_message().into();
    assert!(matches!(ApprovalDistributionMessage::try_from(versioned), Err(WrongVariant)));
    let versioned: VersionedValidationProtocol = bitfield_message().into();
    assert!(matches!(GossipSupportNetworkMessage::try_from(versioned), Err(WrongVariant)));
}

#[test]
fn statement_and_approval_messages_roundtrip() {
    let statement: StatementDistributionMessage = ValidationProtocols::V3(
        v3::StatementDistributionMessage::Statement(h(2), UncheckedSignedStatement {
            encoded: vec![9],
        }),
    );
    let versioned: VersionedValidationProtocol = statement.into();
    assert!(matches!(
        StatementDistributionMessage::try_from(versioned),
        Ok(ValidationProtocols::V3(v3::StatementDistributionMessage::Statement(x, _))) if x == h(2)
    ));
    let approval: ApprovalDistributionMessage =
        ValidationProtocols::V3(v3::ApprovalDistributionMessage::Approvals(vec![]));
    let versioned: VersionedValidationProtocol = approval.into();
    assert!(matches!(
        ApprovalDistributionMessage::try_from(versioned),
        Ok(ValidationProtocols::V3(v3::ApprovalDistributionMessage::Approvals(v))) if v.is_empty()
    ));
}

#[test]
fn collator_messages_roundtrip_in_both_versions() {
    let declare = v1::CollatorProtocolMessage::Declare(
        CollatorId(h(3)),
        ParaId(100),
        CollatorSignature { first: h(4), second: h(5) },
    );
    let m: CollatorProtocolMessage = CollationProtocols::V1(declare);
    let versioned: VersionedCollationProtocol = m.into();
    assert!(matches!(
        CollatorProtocolMessage::try_from(versioned),
        Ok(CollationProtocols::V1(v1::CollatorProtocolMessage::Declare(_, ParaId(100), _)))
    ));
    let advertise = v2::CollatorProtocolMessage::AdvertiseCollation {
        relay_parent: h(6),
        candidate_hash: CandidateHash(h(7)),
        parent_head_data_hash: h(8),
    };
    let versioned: VersionedCollationProtocol =
        v2::CollationProtocol::CollatorProtocol(advertise).into();
    assert!(matches!(
        CollatorProtocolMessage::try_from(versioned),
        Ok(CollationProtocols::V2(v2::CollatorProtocolMessage::AdvertiseCollation { .. }))
    ));
}

#[test]
fn clone_inner_owns_the_message() {
    let inner = 5u32;
    let borrowed: ValidationProtocols<&u32> = ValidationProtocols::V3(&inner);
    assert_eq!(borrowed.clone_inner(), ValidationProtocols::V3(5u32));
    let two = 7u64;
    let c: CollationProtocols<&u32, &u64> = CollationProtocols::V2(&two);
    assert_eq!(c.clone_inner(), CollationProtocols::V2(7u64));
}

#[test]
fn declare_payload_is_peer_id_then_coll() {
    let peer = PeerId::from_bytes(vec![0, 36, 8, 1]);
    assert_eq!(v1::declare_signature_payload(&peer), vec![0, 36, 8, 1, b'C', b'O', b'L', b'L']);
    assert_eq!(v2::declare_signature_payload(&peer), v3::declare_signature_payload(&peer));
}

#[test]
fn peers_are_filtered_by_version() {
    let peers = vec![
        (PeerId::from_bytes(vec![1]), ProtocolVersion(2)),
        (PeerId::from_bytes(vec![2]), ProtocolVersion(3)),
        (PeerId::from_bytes(vec![3]), ProtocolVersion(2)),
    ];
    let v2_peers = filter_by_peer_version(&peers, ProtocolVersion(2));
    let bytes: Vec<Vec<u8>> = v2_peers.iter().map(|p| p.to_bytes()).collect();
    assert_eq!(bytes, vec![vec![1], vec![3]]);
    assert!(filter_by_peer_version(&peers, ProtocolVersion(1)).is_empty());
}

#[test]
fn blank_and_full_filters() {
    let blank = StatementFilter::blank(5);
    assert!(blank.has_len(5));
    assert!(!blank.has_len(4));
    assert_eq!(blank.backing_validators(), 0);
    assert!(!blank.has_seconded());
    assert_eq!(bools(&blank.seconded_in_group), vec![false; 5]);
    let full = StatementFilter::full(5);
    assert_eq!(full.backing_validators(), 5);
    assert!(full.has_seconded());
    assert_eq!(bools(&full.validated_in_group), vec![true; 5]);
}

#[test]
fn backing_validators_counts_each_validator_once() {
    let filter = StatementFilter {
        seconded_in_group: bits_from(&vec![true, false, true, false]),
        validated_in_group: bits_from(&vec![true, true, false]),
    };
    // Positions beyond the shorter bitfield are not counted.
    assert_eq!(filter.backing_validators(), 3);
    assert!(!filter.has_len(4));
}

#[test]
fn masks_clear_the_masked_bits() {
    let mut filter = StatementFilter::full(4);
    filter.mask_seconded(&bits_from(&vec![true, false, true]));
    assert_eq!(bools(&filter.seconded_in_group), vec![false, true, false, true]);
    assert_eq!(bools(&filter.validated_in_group), vec![true; 4]);
    filter.mask_valid(&bits_from(&vec![false, true, false, true, true, true]));
    assert_eq!(bools(&filter.validated_in_group), vec![true, false, true, false]);
    let mut blank = StatementFilter::blank(2);
    blank.mask_valid(&bits_from(&vec![true, true]));
    assert_eq!(bools(&blank.validated_in_group), vec![false, false]);
}
