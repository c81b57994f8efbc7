//! Network protocol types for parachains: observed roles, the envelopes that
//! tag a message with its protocol version, and the conversions between a
//! versioned peer-set message and the messages of each subsystem.
use vstd::prelude::*;
use vstd::std_specs::convert::{FromSpec, FromSpecImpl, TryFromSpec, TryFromSpecImpl};

pub mod v1;
pub mod v2;
pub mod v3;

verus! {

/// The minimum amount of peers to send gossip messages to.
pub const MIN_GOSSIP_PEERS: usize = 25;

/// An error indicating that the over-arching message type had the wrong variant.
#[derive(Debug, Clone, Copy, PartialEq, Eq, Structural)]
pub struct WrongVariant;

impl WrongVariant {
    /// The human-readable description of the error.
    pub fn to_string(&self) -> (s: String)
        ensures
            s@ == "Wrong message variant"@,
    {
        "Wrong message variant".to_owned()
    }
}

/// The advertised role of a node.
#[derive(Debug, Clone, Copy, PartialEq, Eq, Structural)]
pub enum ObservedRole {
    /// A light node.
    Light,
    /// A full node.
    Full,
    /// A node claiming to be an authority (unauthenticated).
    Authority,
}

/// The version of a protocol on a peer set.
#[derive(Debug, Clone, Copy, PartialEq, Eq, Structural)]
pub struct ProtocolVersion(pub u32);

/// The identity of a peer, held as its byte encoding (a multihash of the
/// peer's public key).
#[derive(Debug)]
pub struct PeerId {
    bytes: Vec<u8>,
}

impl PeerId {
    /// The byte encoding of the identity.
    pub closed spec fn encoded(&self) -> Seq<u8> {
        self.bytes@
    }

    /// The identity with the given byte encoding.
    pub fn from_bytes(bytes: Vec<u8>) -> (p: PeerId)
        ensures
            p.encoded() == bytes@,
    {
        PeerId { bytes }
    }

    /// The byte encoding of the identity.
    pub fn to_bytes(&self) -> (r: Vec<u8>)
        ensures
            r@ == self.encoded(),
    {
        self.bytes.clone()
    }
}

impl Clone for PeerId {
    fn clone(&self) -> (r: PeerId)
        ensures
            r.encoded() == self.encoded(),
    {
        PeerId { bytes: self.bytes.clone() }
    }
}

/// The peers of `peers` that speak `version`, in the order of `peers`.
pub open spec fn peers_with_version(
    peers: Seq<(PeerId, ProtocolVersion)>,
    version: ProtocolVersion,
) -> Seq<PeerId>
    decreases peers.len(),
{
    if peers.len() == 0 {
        Seq::empty()
    } else {
        let rest = peers_with_version(peers.drop_last(), version);
        if peers.last().1 == version {
            rest.push(peers.last().0)
        } else {
            rest
        }
    }
}

/// The peers of `peers` whose version is exactly `version`, in their order: no
/// peer of another version, older or newer, is kept, and none of that version
/// is left out.
pub proof fn lemma_peers_with_version_filter(
    peers: Seq<(PeerId, ProtocolVersion)>,
    version: ProtocolVersion,
)
    ensures
        peers_with_version(peers, version) == peers.filter(
            |e: (PeerId, ProtocolVersion)| e.1.0 == version.0,
        ).map_values(|e: (PeerId, ProtocolVersion)| e.0),
    decreases peers.len(),
{
    let p = |e: (PeerId, ProtocolVersion)| e.1.0 == version.0;
    let f = |e: (PeerId, ProtocolVersion)| e.0;
    reveal(Seq::filter);
    if peers.len() == 0 {
        assert(peers.filter(p).map_values(f) =~= Seq::<PeerId>::empty());
    } else {
        lemma_peers_with_version_filter(peers.drop_last(), version);
        let rest = peers.drop_last().filter(p);
        if p(peers.last()) {
            assert(peers.filter(p) == rest.push(peers.last()));
            assert(rest.push(peers.last()).map_values(f) =~= rest.map_values(f).push(
                peers.last().0,
            ));
        } else {
            assert(peers.filter(p) == rest);
        }
    }
}

/// Returns the subset of `peers` with the specified `version`, in their order.
pub fn filter_by_peer_version(peers: &[(PeerId, ProtocolVersion)], version: ProtocolVersion) -> (r:
    Vec<PeerId>)
    ensures
        r@.len() == peers_with_version(peers@, version).len(),
        forall|i: int|
            0 <= i < r@.len() ==> (#[trigger] r@[i]).encoded() == peers_with_version(
                peers@,
                version,
            )[i].encoded(),
{
    let mut out: Vec<PeerId> = Vec::new();
    let mut i: usize = 0;
    while i < peers.len()
        invariant
            i <= peers@.len(),
            out@.len() == peers_with_version(peers@.subrange(0, i as int), version).len(),
            forall|k: int|
                0 <= k < out@.len() ==> (#[trigger] out@[k]).encoded() == peers_with_version(
                    peers@.subrange(0, i as int),
                    version,
                )[k].encoded(),
        decreases peers@.len() - i,
    {
        proof {
            assert(peers@.subrange(0, i + 1).drop_last() == peers@.subrange(0, i as int));
        }
        if peers[i].1 == version {
            let p = PeerId { bytes: peers[i].0.bytes.clone() };
            out.push(p);
        }
        i = i + 1;
    }
    assert(peers@.subrange(0, peers@.len() as int) == peers@);
    out
}

/// A protocol-versioned type for validation.
#[derive(Debug, Clone, PartialEq, Eq)]
pub enum ValidationProtocols<V3> {
    /// V3 type.
    V3(V3),
}

/// A protocol-versioned type for collation.
#[derive(Debug, Clone, PartialEq, Eq)]
pub enum CollationProtocols<V1, V2> {
    /// V1 type.
    V1(V1),
    /// V2 type.
    V2(V2),
}

impl<'a, V3: Clone> ValidationProtocols<&'a V3> {
    /// Converts to a fully-owned version of the message, cloning the inner message.
    pub fn clone_inner(&self) -> (r: ValidationProtocols<V3>)
        ensures
            match (*self, r) {
                (ValidationProtocols::V3(a), ValidationProtocols::V3(b)) => cloned::<V3>(*a, b),
            },
    {
        match *self {
            ValidationProtocols::V3(inner) => ValidationProtocols::V3(inner.clone()),
        }
    }
}

impl<'a, 'b, V1: Clone, V2: Clone> CollationProtocols<&'a V1, &'b V2> {
    /// Converts to a fully-owned version of the message, cloning the inner message.
    pub fn clone_inner(&self) -> (r: CollationProtocols<V1, V2>)
        ensures
            match (*self, r) {
                (CollationProtocols::V1(a), CollationProtocols::V1(b)) => cloned::<V1>(*a, b),
                (CollationProtocols::V2(a), CollationProtocols::V2(b)) => cloned::<V2>(*a, b),
                _ => false,
            },
    {
        match *self {
            CollationProtocols::V1(inner) => CollationProtocols::V1(inner.clone()),
            CollationProtocols::V2(inner) => CollationProtocols::V2(inner.clone()),
        }
    }
}

/// All supported versions of the validation protocol message.
pub type VersionedValidationProtocol = ValidationProtocols<v3::ValidationProtocol>;

/// All supported versions of the collation protocol message.
pub type VersionedCollationProtocol = CollationProtocols<
    v1::CollationProtocol,
    v2::CollationProtocol,
>;

/// Version-annotated messages used by the bitfield distribution subsystem.
pub type BitfieldDistributionMessage = ValidationProtocols<v3::BitfieldDistributionMessage>;

/// Version-annotated messages used by the statement distribution subsystem.
pub type StatementDistributionMessage = ValidationProtocols<v3::StatementDistributionMessage>;

/// Version-annotated messages used by the approval distribution subsystem.
pub type ApprovalDistributionMessage = ValidationProtocols<v3::ApprovalDistributionMessage>;

/// Version-annotated messages used by the gossip-support subsystem (this is void).
pub type GossipSupportNetworkMessage = ValidationProtocols<v3::GossipSupportNetworkMessage>;

/// Version-annotated messages used by the collator protocol subsystem.
pub type CollatorProtocolMessage = CollationProtocols<
    v1::CollatorProtocolMessage,
    v2::CollatorProtocolMessage,
>;

impl From<v3::ValidationProtocol> for VersionedValidationProtocol {
    fn from(v3: v3::ValidationProtocol) -> (r: VersionedValidationProtocol) {
        ValidationProtocols::V3(v3)
    }
}

impl FromSpecImpl<v3::ValidationProtocol> for VersionedValidationProtocol {
    open spec fn obeys_from_spec() -> bool {
        true
    }

    open spec fn from_spec(v: v3::ValidationProtocol) -> VersionedValidationProtocol {
        ValidationProtocols::V3(v)
    }
}

impl From<v1::CollationProtocol> for VersionedCollationProtocol {
    fn from(v1: v1::CollationProtocol) -> (r: VersionedCollationProtocol) {
        CollationProtocols::V1(v1)
    }
}

impl FromSpecImpl<v1::CollationProtocol> for VersionedCollationProtocol {
    open spec fn obeys_from_spec() -> bool {
        true
    }

    open spec fn from_spec(v: v1::CollationProtocol) -> VersionedCollationProtocol {
        CollationProtocols::V1(v)
    }
}

impl From<v2::CollationProtocol> for VersionedCollationProtocol {
    fn from(v2: v2::CollationProtocol) -> (r: VersionedCollationProtocol) {
        CollationProtocols::V2(v2)
    }
}

impl FromSpecImpl<v2::CollationProtocol> for VersionedCollationProtocol {
    open spec fn obeys_from_spec() -> bool {
        true
    }

    open spec fn from_spec(v: v2::CollationProtocol) -> VersionedCollationProtocol {
        CollationProtocols::V2(v)
    }
}

impl From<BitfieldDistributionMessage> for VersionedValidationProtocol {
    fn from(versioned_from: BitfieldDistributionMessage) -> (r: VersionedValidationProtocol) {
        match versioned_from {
            ValidationProtocols::V3(x) => ValidationProtocols::V3(
                v3::ValidationProtocol::BitfieldDistribution(x),
            ),
        }
    }
}

impl FromSpecImpl<BitfieldDistributionMessage> for VersionedValidationProtocol {
    open spec fn obeys_from_spec() -> bool {
        true
    }

    open spec fn from_spec(v: BitfieldDistributionMessage) -> VersionedValidationProtocol {
        match v {
            ValidationProtocols::V3(x) => ValidationProtocols::V3(
                v3::ValidationProtocol::BitfieldDistribution(x),
            ),
        }
    }
}

impl TryFrom<VersionedValidationProtocol> for BitfieldDistributionMessage {
    type Error = WrongVariant;

    fn try_from(x: VersionedValidationProtocol) -> (r: Result<
        BitfieldDistributionMessage,
        WrongVariant,
    >) {
        match x {
            ValidationProtocols::V3(v3::ValidationProtocol::BitfieldDistribution(m)) => Ok(
                ValidationProtocols::V3(m),
            ),
            _ => Err(WrongVariant),
        }
    }
}

impl TryFromSpecImpl<VersionedValidationProtocol> for BitfieldDistributionMessage {
    open spec fn obeys_try_from_spec() -> bool {
        true
    }

    open spec fn try_from_spec(x: VersionedValidationProtocol) -> Result<
        BitfieldDistributionMessage,
        WrongVariant,
    > {
        match x {
            ValidationProtocols::V3(v3::ValidationProtocol::BitfieldDistribution(m)) => Ok(
                ValidationProtocols::V3(m),
            ),
            _ => Err(WrongVariant),
        }
    }
}

impl From<StatementDistributionMessage> for VersionedValidationProtocol {
    fn from(versioned_from: StatementDistributionMessage) -> (r: VersionedValidationProtocol) {
        match versioned_from {
            ValidationProtocols::V3(x) => ValidationProtocols::V3(
                v3::ValidationProtocol::StatementDistribution(x),
            ),
        }
    }
}

impl FromSpecImpl<StatementDistributionMessage> for VersionedValidationProtocol {
    open spec fn obeys_from_spec() -> bool {
        true
    }

    open spec fn from_spec(v: StatementDistributionMessage) -> VersionedValidationProtocol {
        match v {
            ValidationProtocols::V3(x) => ValidationProtocols::V3(
                v3::ValidationProtocol::StatementDistribution(x),
            ),
        }
    }
}

impl TryFrom<VersionedValidationProtocol> for StatementDistributionMessage {
    type Error = WrongVariant;

    fn try_from(x: VersionedValidationProtocol) -> (r: Result<
        StatementDistributionMessage,
        WrongVariant,
    >) {
        match x {
            ValidationProtocols::V3(v3::ValidationProtocol::StatementDistribution(m)) => Ok(
                ValidationProtocols::V3(m),
            ),
            _ => Err(WrongVariant),
        }
    }
}

impl TryFromSpecImpl<VersionedValidationProtocol> for StatementDistributionMessage {
    open spec fn obeys_try_from_spec() -> bool {
        true
    }

    open spec fn try_from_spec(x: VersionedValidationProtocol) -> Result<
        StatementDistributionMessage,
        WrongVariant,
    > {
        match x {
            ValidationProtocols::V3(v3::ValidationProtocol::StatementDistribution(m)) => Ok(
                ValidationProtocols::V3(m),
            ),
            _ => Err(WrongVariant),
        }
    }
}

impl From<ApprovalDistributionMessage> for VersionedValidationProtocol {
    fn from(versioned_from: ApprovalDistributionMessage) -> (r: VersionedValidationProtocol) {
        match versioned_from {
            ValidationProtocols::V3(x) => ValidationProtocols::V3(
                v3::ValidationProtocol::ApprovalDistribution(x),
            ),
        }
    }
}

impl FromSpecImpl<ApprovalDistributionMessage> for VersionedValidationProtocol {
    open spec fn obeys_from_spec() -> bool {
        true
    }

    open spec fn from_spec(v: ApprovalDistributionMessage) -> VersionedValidationProtocol {
        match v {
            ValidationProtocols::V3(x) => ValidationProtocols::V3(
                v3::ValidationProtocol::ApprovalDistribution(x),
            ),
        }
    }
}

impl TryFrom<VersionedValidationProtocol> for ApprovalDistributionMessage {
    type Error = WrongVariant;

    fn try_from(x: VersionedValidationProtocol) -> (r: Result<
        ApprovalDistributionMessage,
        WrongVariant,
    >) {
        match x {
            ValidationProtocols::V3(v3::ValidationProtocol::ApprovalDistribution(m)) => Ok(
                ValidationProtocols::V3(m),
            ),
            _ => Err(WrongVariant),
        }
    }
}

impl TryFromSpecImpl<VersionedValidationProtocol> for ApprovalDistributionMessage {
    open spec fn obeys_try_from_spec() -> bool {
        true
    }

    open spec fn try_from_spec(x: VersionedValidationProtocol) -> Result<
        ApprovalDistributionMessage,
        WrongVariant,
    > {
        match x {
            ValidationProtocols::V3(v3::ValidationProtocol::ApprovalDistribution(m)) => Ok(
                ValidationProtocols::V3(m),
            ),
            _ => Err(WrongVariant),
        }
    }
}

impl TryFrom<VersionedValidationProtocol> for GossipSupportNetworkMessage {
    type Error = WrongVariant;

    /// The gossip-support message is a void placeholder that never goes over
    /// the wire, so no validation message converts into it.
    fn try_from(x: VersionedValidationProtocol) -> (r: Result<
        GossipSupportNetworkMessage,
        WrongVariant,
    >) {
        Err(WrongVariant)
    }
}

impl TryFromSpecImpl<VersionedValidationProtocol> for GossipSupportNetworkMessage {
    open spec fn obeys_try_from_spec() -> bool {
        true
    }

    open spec fn try_from_spec(x: VersionedValidationProtocol) -> Result<
        GossipSupportNetworkMessage,
        WrongVariant,
    > {
        Err(WrongVariant)
    }
}

impl From<CollatorProtocolMessage> for VersionedCollationProtocol {
    fn from(versioned_from: CollatorProtocolMessage) -> (r: VersionedCollationProtocol) {
        match versioned_from {
            CollationProtocols::V1(x) => CollationProtocols::V1(
                v1::CollationProtocol::CollatorProtocol(x),
            ),
            CollationProtocols::V2(x) => CollationProtocols::V2(
                v2::CollationProtocol::CollatorProtocol(x),
            ),
        }
    }
}

impl FromSpecImpl<CollatorProtocolMessage> for VersionedCollationProtocol {
    open spec fn obeys_from_spec() -> bool {
        true
    }

    open spec fn from_spec(v: CollatorProtocolMessage) -> VersionedCollationProtocol {
        match v {
            CollationProtocols::V1(x) => CollationProtocols::V1(
                v1::CollationProtocol::CollatorProtocol(x),
            ),
            CollationProtocols::V2(x) => CollationProtocols::V2(
                v2::CollationProtocol::CollatorProtocol(x),
            ),
        }
    }
}

impl TryFrom<VersionedCollationProtocol> for CollatorProtocolMessage {
    type Error = WrongVariant;

    fn try_from(x: VersionedCollationProtocol) -> (r: Result<CollatorProtocolMessage, WrongVariant>) {
        match x {
            CollationProtocols::V1(v1::CollationProtocol::CollatorProtocol(m)) => Ok(
                CollationProtocols::V1(m),
            ),
            CollationProtocols::V2(v2::CollationProtocol::CollatorProtocol(m)) => Ok(
                CollationProtocols::V2(m),
            ),
        }
    }
}

impl TryFromSpecImpl<VersionedCollationProtocol> for CollatorProtocolMessage {
    open spec fn obeys_try_from_spec() -> bool {
        true
    }

    open spec fn try_from_spec(x: VersionedCollationProtocol) -> Result<
        CollatorProtocolMessage,
        WrongVariant,
    > {
        match x {
            CollationProtocols::V1(v1::CollationProtocol::CollatorProtocol(m)) => Ok(
                CollationProtocols::V1(m),
            ),
            CollationProtocols::V2(v2::CollationProtocol::CollatorProtocol(m)) => Ok(
                CollationProtocols::V2(m),
            ),
        }
    }
}

/// A bitfield distribution message put into a versioned validation message
/// converts back into itself, and a versioned message that converts into one
/// is that message put back.
pub proof fn lemma_bitfield_roundtrip(m: BitfieldDistributionMessage, x: VersionedValidationProtocol)
    ensures
        <BitfieldDistributionMessage as TryFromSpec<VersionedValidationProtocol>>::try_from_spec(
            <VersionedValidationProtocol as FromSpec<BitfieldDistributionMessage>>::from_spec(m),
        ) == Ok::<BitfieldDistributionMessage, WrongVariant>(m),
        <BitfieldDistributionMessage as TryFromSpec<VersionedValidationProtocol>>::try_from_spec(
            x,
        ) matches Ok(y) ==> <VersionedValidationProtocol as FromSpec<
            BitfieldDistributionMessage,
        >>::from_spec(y) == x,
{
}

/// A statement distribution message put into a versioned validation message
/// converts back into itself, and a versioned message that converts into one
/// is that message put back.
pub proof fn lemma_statement_roundtrip(
    m: StatementDistributionMessage,
    x: VersionedValidationProtocol,
)
    ensures
        <StatementDistributionMessage as TryFromSpec<VersionedValidationProtocol>>::try_from_spec(
            <VersionedValidationProtocol as FromSpec<StatementDistributionMessage>>::from_spec(m),
        ) == Ok::<StatementDistributionMessage, WrongVariant>(m),
        <StatementDistributionMessage as TryFromSpec<VersionedValidationProtocol>>::try_from_spec(
            x,
        ) matches Ok(y) ==> <VersionedValidationProtocol as FromSpec<
            StatementDistributionMessage,
        >>::from_spec(y) == x,
{
}

/// An approval distribution message put into a versioned validation message
/// converts back into itself, and a versioned message that converts into one
/// is that message put back.
pub proof fn lemma_approval_roundtrip(m: ApprovalDistributionMessage, x: VersionedValidationProtocol)
    ensures
        <ApprovalDistributionMessage as TryFromSpec<VersionedValidationProtocol>>::try_from_spec(
            <VersionedValidationProtocol as FromSpec<ApprovalDistributionMessage>>::from_spec(m),
        ) == Ok::<ApprovalDistributionMessage, WrongVariant>(m),
        <ApprovalDistributionMessage as TryFromSpec<VersionedValidationProtocol>>::try_from_spec(
            x,
        ) matches Ok(y) ==> <VersionedValidationProtocol as FromSpec<
            ApprovalDistributionMessage,
        >>::from_spec(y) == x,
{
}

/// A collator protocol message put into a versioned collation message converts
/// back into itself, and every versioned collation message converts into one
/// that puts back to it.
pub proof fn lemma_collator_roundtrip(m: CollatorProtocolMessage, x: VersionedCollationProtocol)
    ensures
        <CollatorProtocolMessage as TryFromSpec<VersionedCollationProtocol>>::try_from_spec(
            <VersionedCollationProtocol as FromSpec<CollatorProtocolMessage>>::from_spec(m),
        ) == Ok::<CollatorProtocolMessage, WrongVariant>(m),
        <CollatorProtocolMessage as TryFromSpec<VersionedCollationProtocol>>::try_from_spec(
            x,
        ) matches Ok(y) && <VersionedCollationProtocol as FromSpec<
            CollatorProtocolMessage,
        >>::from_spec(y) == x,
{
}

/// No validation message converts into a gossip-support message.
pub proof fn lemma_gossip_support_never(x: VersionedValidationProtocol)
    ensures
        <GossipSupportNetworkMessage as TryFromSpec<VersionedValidationProtocol>>::try_from_spec(
            x,
        ) == Err::<GossipSupportNetworkMessage, WrongVariant>(WrongVariant),
{
}

/// Each validation message converts into exactly one of the three subsystems'
/// messages.
pub proof fn lemma_validation_message_has_one_subsystem(x: VersionedValidationProtocol)
    ensures
        (<BitfieldDistributionMessage as TryFromSpec<VersionedValidationProtocol>>::try_from_spec(
            x,
        ) is Ok) as int + (<StatementDistributionMessage as TryFromSpec<
            VersionedValidationProtocol,
        >>::try_from_spec(x) is Ok) as int + (<ApprovalDistributionMessage as TryFromSpec<
            VersionedValidationProtocol,
        >>::try_from_spec(x) is Ok) as int == 1,
{
}

} // verus!
