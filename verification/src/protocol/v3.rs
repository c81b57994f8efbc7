//! Version 3 of the validation protocol, whose approval distribution carries
//! more than one assignment and approval in a message.
use vstd::prelude::*;
use vstd::std_specs::convert::FromSpecImpl;

use crate::bitfield::{bits_of, max_bits, Bits};
use crate::primitives::{
    CandidateBitfield,
    CandidateHash,
    GroupIndex,
    IndirectAssignmentCertV2,
    IndirectSignedApprovalVoteV2,
    ParaId,
    UncheckedSignedAvailabilityBitfield,
    UncheckedSignedStatement,
};

pub use crate::protocol::v1::declare_signature_payload;

verus! {

/// Network messages used by the bitfield distribution subsystem.
#[derive(Debug, Clone)]
pub enum BitfieldDistributionMessage {
    /// A signed availability bitfield for a given relay-parent hash.
    Bitfield(crate::view::Hash, UncheckedSignedAvailabilityBitfield),
}

/// Bitfields indicating the statements that are known or undesired about a
/// candidate, one bit per validator of the backing group.
pub struct StatementFilter {
    /// Seconded statements. '1' is known or undesired.
    pub seconded_in_group: Bits,
    /// Valid statements. '1' is known or undesired.
    pub validated_in_group: Bits,
}

/// The number of positions below `n` at which `s` or `v` is set.
pub open spec fn count_either(s: Seq<bool>, v: Seq<bool>, n: nat) -> nat
    decreases n,
{
    if n == 0 {
        0
    } else {
        count_either(s, v, (n - 1) as nat) + if s[n - 1] || v[n - 1] {
            1nat
        } else {
            0nat
        }
    }
}

/// `bits` with every bit cleared whose position is set in `mask`; positions past
/// the end of `mask` are left as they are.
pub open spec fn masked(bits: Seq<bool>, mask: Seq<bool>) -> Seq<bool> {
    Seq::new(bits.len(), |i: int| bits[i] && !(i < mask.len() && mask[i]))
}

impl StatementFilter {
    /// Creates a new blank filter with the given group size.
    pub fn blank(group_size: usize) -> (f: StatementFilter)
        requires
            group_size <= max_bits(),
        ensures
            bits_of(f.seconded_in_group) == Seq::new(group_size as nat, |i: int| false),
            bits_of(f.validated_in_group) == Seq::new(group_size as nat, |i: int| false),
    {
        StatementFilter {
            seconded_in_group: Bits::repeat(false, group_size),
            validated_in_group: Bits::repeat(false, group_size),
        }
    }

    /// Creates a new full filter with the given group size.
    pub fn full(group_size: usize) -> (f: StatementFilter)
        requires
            group_size <= max_bits(),
        ensures
            bits_of(f.seconded_in_group) == Seq::new(group_size as nat, |i: int| true),
            bits_of(f.validated_in_group) == Seq::new(group_size as nat, |i: int| true),
    {
        StatementFilter {
            seconded_in_group: Bits::repeat(true, group_size),
            validated_in_group: Bits::repeat(true, group_size),
        }
    }

    /// Whether both bitfields have exactly the length `len`.
    pub fn has_len(&self, len: usize) -> (b: bool)
        ensures
            b == (bits_of(self.seconded_in_group).len() == len && bits_of(
                self.validated_in_group,
            ).len() == len),
    {
        self.seconded_in_group.len() == len && self.validated_in_group.len() == len
    }

    /// The number of backing validators in the filter: the positions, up to the
    /// shorter of the two bitfields, at which either bit is set, each counted once.
    pub fn backing_validators(&self) -> (n: usize)
        ensures
            n == count_either(
                bits_of(self.seconded_in_group),
                bits_of(self.validated_in_group),
                min_len(bits_of(self.seconded_in_group), bits_of(self.validated_in_group)),
            ),
    {
        let ls = self.seconded_in_group.len();
        let lv = self.validated_in_group.len();
        let n = if ls < lv {
            ls
        } else {
            lv
        };
        let ghost s = bits_of(self.seconded_in_group);
        let ghost v = bits_of(self.validated_in_group);
        let mut count: usize = 0;
        let mut i: usize = 0;
        while i < n
            invariant
                n <= s.len(),
                n <= v.len(),
                s == bits_of(self.seconded_in_group),
                v == bits_of(self.validated_in_group),
                i <= n,
                count == count_either(s, v, i as nat),
                count <= i,
            decreases n - i,
        {
            if self.seconded_in_group.get(i) || self.validated_in_group.get(i) {
                count = count + 1;
            }
            i = i + 1;
        }
        count
    }

    /// Whether the filter has at least one seconded statement.
    pub fn has_seconded(&self) -> (b: bool)
        ensures
            b == exists|i: int|
                0 <= i < bits_of(self.seconded_in_group).len() && #[trigger] bits_of(
                    self.seconded_in_group,
                )[i],
    {
        let n = self.seconded_in_group.len();
        let mut i: usize = 0;
        while i < n
            invariant
                n == bits_of(self.seconded_in_group).len(),
                i <= n,
                forall|k: int| 0 <= k < i ==> !#[trigger] bits_of(self.seconded_in_group)[k],
            decreases n - i,
        {
            if self.seconded_in_group.get(i) {
                return true;
            }
            i = i + 1;
        }
        false
    }

    /// Masks out `Seconded` statements in `self` according to `mask`: bits set in
    /// `mask` are not set in `self` afterwards.
    pub fn mask_seconded(&mut self, mask: &Bits)
        ensures
            bits_of(final(self).seconded_in_group) == masked(
                bits_of(old(self).seconded_in_group),
                bits_of(*mask),
            ),
            bits_of(final(self).validated_in_group) == bits_of(old(self).validated_in_group),
    {
        mask_bits(&mut self.seconded_in_group, mask);
    }

    /// Masks out `Valid` statements in `self` according to `mask`: bits set in
    /// `mask` are not set in `self` afterwards.
    pub fn mask_valid(&mut self, mask: &Bits)
        ensures
            bits_of(final(self).validated_in_group) == masked(
                bits_of(old(self).validated_in_group),
                bits_of(*mask),
            ),
            bits_of(final(self).seconded_in_group) == bits_of(old(self).seconded_in_group),
    {
        mask_bits(&mut self.validated_in_group, mask);
    }
}

/// The length of the shorter of two bit sequences.
pub open spec fn min_len(s: Seq<bool>, v: Seq<bool>) -> nat {
    if s.len() < v.len() {
        s.len()
    } else {
        v.len()
    }
}

/// Clears in `bits` every bit whose position is set in `mask`.
fn mask_bits(bits: &mut Bits, mask: &Bits)
    ensures
        bits_of(*final(bits)) == masked(bits_of(*old(bits)), bits_of(*mask)),
{
    let ghost original = bits_of(*bits);
    let ghost m = bits_of(*mask);
    let n = bits.len();
    let ml = mask.len();
    let mut i: usize = 0;
    while i < n
        invariant
            original == bits_of(*old(bits)),
            m == bits_of(*mask),
            n == original.len(),
            ml == m.len(),
            i <= n,
            bits_of(*bits).len() == n,
            forall|k: int| 0 <= k < i ==> #[trigger] bits_of(*bits)[k] == (original[k] && !(k < m.len() && m[k])),
            forall|k: int| i <= k < n ==> #[trigger] bits_of(*bits)[k] == original[k],
        decreases n - i,
    {
        let x = bits.get(i);
        let cleared = i < ml && mask.get(i);
        bits.set(i, x && !cleared);
        i = i + 1;
    }
    assert(bits_of(*bits) =~= masked(original, m));
}

/// After masking, no bit is set where the mask is set, no bit is set that was
/// not set before, and bits past the end of the mask are kept.
pub proof fn lemma_mask_clears(bits: Seq<bool>, mask: Seq<bool>)
    ensures
        masked(bits, mask).len() == bits.len(),
        forall|i: int|
            0 <= i < bits.len() && i < mask.len() && mask[i] ==> !#[trigger] masked(bits, mask)[i],
        forall|i: int| 0 <= i < bits.len() && #[trigger] masked(bits, mask)[i] ==> bits[i],
        forall|i: int| mask.len() <= i < bits.len() ==> #[trigger] masked(bits, mask)[i] == bits[i],
{
}

/// Masking twice with the same mask masks as much as masking once.
pub proof fn lemma_mask_idempotent(bits: Seq<bool>, mask: Seq<bool>)
    ensures
        masked(masked(bits, mask), mask) == masked(bits, mask),
{
    assert(masked(masked(bits, mask), mask) =~= masked(bits, mask));
}

/// No validator is counted twice: the count of backing validators is at most
/// the number of positions counted.
pub proof fn lemma_count_either_bound(s: Seq<bool>, v: Seq<bool>, n: nat)
    ensures
        count_either(s, v, n) <= n,
    decreases n,
{
    if n > 0 {
        lemma_count_either_bound(s, v, (n - 1) as nat);
    }
}

/// The count is the number of positions below `n` at which either bit is set,
/// each counted on its own: the length of what is left of the positions' "either
/// bit set" after dropping those where neither is. Setting a bit at a position
/// where neither was set therefore adds one, wherever that position is.
pub proof fn lemma_count_either_counts_positions(s: Seq<bool>, v: Seq<bool>, n: nat)
    requires
        n <= s.len(),
        n <= v.len(),
    ensures
        count_either(s, v, n) == Seq::new(n, |i: int| s[i] || v[i]).filter(|b: bool| b).len(),
        forall|i: int|
            0 <= i < n && !s[i] && !v[i] ==> #[trigger] count_either(s.update(i, true), v, n)
                == count_either(s, v, n) + 1,
    decreases n,
{
    let p = |b: bool| b;
    if n == 0 {
        reveal(Seq::filter);
        assert(Seq::new(0, |i: int| s[i] || v[i]) =~= Seq::<bool>::empty());
    } else {
        let m = (n - 1) as nat;
        lemma_count_either_counts_positions(s, v, m);
        let full = Seq::new(n, |i: int| s[i] || v[i]);
        let part = Seq::new(m, |i: int| s[i] || v[i]);
        assert(full =~= part.push(s[m as int] || v[m as int]));
        part.lemma_filter_push(s[m as int] || v[m as int], p);
    }
    assert forall|i: int|
        0 <= i < n && !s[i] && !v[i] implies #[trigger] count_either(s.update(i, true), v, n)
            == count_either(s, v, n) + 1 by {
        lemma_count_either_update(s, v, n, i);
    }
}

/// Setting the bit of `s` at a position below `n` where neither bit was set
/// adds one to the count up to `n`.
proof fn lemma_count_either_update(s: Seq<bool>, v: Seq<bool>, n: nat, i: int)
    requires
        n <= s.len(),
        n <= v.len(),
        0 <= i < n,
        !s[i],
        !v[i],
    ensures
        count_either(s.update(i, true), v, n) == count_either(s, v, n) + 1,
    decreases n,
{
    if i < n - 1 {
        lemma_count_either_update(s, v, (n - 1) as nat, i);
    } else {
        lemma_count_either_same(s.update(i, true), s, v, (n - 1) as nat);
    }
}

/// The count up to `n` reads only the first `n` positions of `s`.
proof fn lemma_count_either_same(s: Seq<bool>, t: Seq<bool>, v: Seq<bool>, n: nat)
    requires
        n <= s.len(),
        n <= t.len(),
        n <= v.len(),
        forall|i: int| 0 <= i < n ==> s[i] == t[i],
    ensures
        count_either(s, v, n) == count_either(t, v, n),
    decreases n,
{
    if n > 0 {
        lemma_count_either_same(s, t, v, (n - 1) as nat);
    }
}

/// A blank filter counts no backing validator, and a full one counts every
/// validator of the group.
pub proof fn lemma_count_blank_full(n: nat)
    ensures
        count_either(Seq::new(n, |i: int| false), Seq::new(n, |i: int| false), n) == 0,
        count_either(Seq::new(n, |i: int| true), Seq::new(n, |i: int| true), n) == n,
    decreases n,
{
    if n > 0 {
        let m = (n - 1) as nat;
        lemma_count_blank_full(m);
        lemma_count_prefix(Seq::new(n, |i: int| false), Seq::new(m, |i: int| false), m);
        lemma_count_prefix(Seq::new(n, |i: int| true), Seq::new(m, |i: int| true), m);
    }
}

/// The count up to `n` reads only the first `n` positions.
proof fn lemma_count_prefix(s: Seq<bool>, t: Seq<bool>, n: nat)
    requires
        n <= s.len(),
        n <= t.len(),
        forall|i: int| 0 <= i < n ==> s[i] == t[i],
    ensures
        count_either(s, s, n) == count_either(t, t, n),
    decreases n,
{
    if n > 0 {
        lemma_count_prefix(s, t, (n - 1) as nat);
    }
}

/// A manifest of a known backed candidate, along with a description of the
/// statements backing it.
pub struct BackedCandidateManifest {
    /// The relay-parent of the candidate.
    pub relay_parent: crate::view::Hash,
    /// The hash of the candidate.
    pub candidate_hash: CandidateHash,
    /// The group index backing the candidate at the relay-parent.
    pub group_index: GroupIndex,
    /// The para ID of the candidate. It is illegal for this to be a para ID which
    /// is not assigned to the group indicated in this manifest.
    pub para_id: ParaId,
    /// The head-data corresponding to the candidate.
    pub parent_head_data_hash: crate::view::Hash,
    /// A statement filter which indicates which validators in the para's group at
    /// the relay-parent have validated this candidate and issued statements about
    /// it, to the advertiser's knowledge.
    pub statement_knowledge: StatementFilter,
}

/// An acknowledgement of a backed candidate being known.
pub struct BackedCandidateAcknowledgement {
    /// The hash of the candidate.
    pub candidate_hash: CandidateHash,
    /// A statement filter which indicates which validators in the para's group at
    /// the relay-parent have validated this candidate and issued statements about
    /// it, to the advertiser's knowledge.
    pub statement_knowledge: StatementFilter,
}

/// Network messages used by the statement distribution subsystem.
pub enum StatementDistributionMessage {
    /// A notification of a signed statement in compact form, for a given relay parent.
    Statement(crate::view::Hash, UncheckedSignedStatement),
    /// A notification of a backed candidate being known by the sending node, for
    /// the purpose of being requested by the receiving node if needed.
    BackedCandidateManifest(BackedCandidateManifest),
    /// A notification of a backed candidate being known by the sending node, for
    /// the purpose of informing a receiving node which already has the candidate.
    BackedCandidateKnown(BackedCandidateAcknowledgement),
}

/// Network messages used by the approval distribution subsystem.
#[derive(Debug, Clone)]
pub enum ApprovalDistributionMessage {
    /// Assignments for candidates in recent, unfinalized blocks. A bitfield
    /// references the claimed candidates, the bit index being the candidate index.
    Assignments(Vec<(IndirectAssignmentCertV2, CandidateBitfield)>),
    /// Approvals for candidates in some recent, unfinalized block.
    Approvals(Vec<IndirectSignedApprovalVoteV2>),
}

/// Dummy network message type, so that connect and disconnect events are received.
/// No value of it exists: its one variant holds an `Infallible`.
#[derive(Debug)]
pub enum GossipSupportNetworkMessage {
    /// Never constructed.
    Void(core::convert::Infallible),
}

/// All network messages on the validation peer-set.
pub enum ValidationProtocol {
    /// Bitfield distribution messages.
    BitfieldDistribution(BitfieldDistributionMessage),
    /// Statement distribution messages.
    StatementDistribution(StatementDistributionMessage),
    /// Approval distribution messages.
    ApprovalDistribution(ApprovalDistributionMessage),
}

impl From<BitfieldDistributionMessage> for ValidationProtocol {
    fn from(m: BitfieldDistributionMessage) -> (r: ValidationProtocol) {
        ValidationProtocol::BitfieldDistribution(m)
    }
}

impl FromSpecImpl<BitfieldDistributionMessage> for ValidationProtocol {
    open spec fn obeys_from_spec() -> bool {
        true
    }

    open spec fn from_spec(m: BitfieldDistributionMessage) -> ValidationProtocol {
        ValidationProtocol::BitfieldDistribution(m)
    }
}

impl From<StatementDistributionMessage> for ValidationProtocol {
    fn from(m: StatementDistributionMessage) -> (r: ValidationProtocol) {
        ValidationProtocol::StatementDistribution(m)
    }
}

impl FromSpecImpl<StatementDistributionMessage> for ValidationProtocol {
    open spec fn obeys_from_spec() -> bool {
        true
    }

    open spec fn from_spec(m: StatementDistributionMessage) -> ValidationProtocol {
        ValidationProtocol::StatementDistribution(m)
    }
}

impl From<ApprovalDistributionMessage> for ValidationProtocol {
    fn from(m: ApprovalDistributionMessage) -> (r: ValidationProtocol) {
        ValidationProtocol::ApprovalDistribution(m)
    }
}

impl FromSpecImpl<ApprovalDistributionMessage> for ValidationProtocol {
    open spec fn obeys_from_spec() -> bool {
        true
    }

    open spec fn from_spec(m: ApprovalDistributionMessage) -> ValidationProtocol {
        ValidationProtocol::ApprovalDistribution(m)
    }
}

} // verus!
