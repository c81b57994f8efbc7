//! The records of the society pallet that its test environment builds and reads.
use vstd::prelude::*;

verus! {

/// The index of a voting round.
pub type RoundIndex = u32;

/// A number of votes.
pub type VoteCount = u32;

/// A member's rank.
pub type Rank = u32;

/// A number of strikes against a member.
pub type StrikeCount = u32;

/// How a bid is backed.
#[derive(Debug, Clone, Copy, PartialEq, Eq, Structural)]
pub enum BidKind<AccountId, Balance> {
    /// The bidder reserved a deposit of this amount.
    Deposit(Balance),
    /// A member vouches for the bidder and asks for this tip.
    Vouch(AccountId, Balance),
}

/// A bid for entry into the society.
#[derive(Debug, Clone, Copy, PartialEq, Eq, Structural)]
pub struct Bid<AccountId, Balance> {
    /// The bidder.
    pub who: AccountId,
    /// How the bid is backed.
    pub kind: BidKind<AccountId, Balance>,
    /// The payout that the bidder asks for.
    pub value: Balance,
}

/// The votes cast on a candidate.
#[derive(Debug, Clone, Copy, PartialEq, Eq, Structural)]
pub struct Tally {
    /// Votes in favour.
    pub approvals: VoteCount,
    /// Votes against.
    pub rejections: VoteCount,
}

/// Whether at least one approval was cast and at least twice as many approvals
/// as rejections.
pub open spec fn spec_clear_approval(t: Tally) -> bool {
    t.approvals >= if 2 * t.rejections > 1 {
        2 * t.rejections
    } else {
        1
    }
}

/// Whether at least one rejection was cast and at least twice as many rejections
/// as approvals.
pub open spec fn spec_clear_rejection(t: Tally) -> bool {
    t.rejections >= if 2 * t.approvals > 1 {
        2 * t.approvals
    } else {
        1
    }
}

impl Tally {
    /// Whether the tally is a clear approval: at least one approval, and at
    /// least twice as many approvals as rejections.
    pub fn clear_approval(&self) -> (b: bool)
        ensures
            b == spec_clear_approval(*self),
    {
        let twice: u64 = 2 * (self.rejections as u64);
        let needed: u64 = if twice > 1 {
            twice
        } else {
            1
        };
        (self.approvals as u64) >= needed
    }

    /// Whether the tally is a clear rejection: at least one rejection, and at
    /// least twice as many rejections as approvals.
    pub fn clear_rejection(&self) -> (b: bool)
        ensures
            b == spec_clear_rejection(*self),
    {
        let twice: u64 = 2 * (self.approvals as u64);
        let needed: u64 = if twice > 1 {
            twice
        } else {
            1
        };
        (self.rejections as u64) >= needed
    }
}

/// A tally is a clear rejection exactly when at least one rejection was cast and
/// the rejections number at least twice the approvals; a bare majority of
/// rejections is not enough. Likewise, with the roles swapped, for a clear
/// approval.
pub proof fn lemma_clear_exactly(t: Tally)
    ensures
        spec_clear_rejection(t) <==> (t.rejections >= 1 && t.rejections >= 2 * t.approvals),
        spec_clear_approval(t) <==> (t.approvals >= 1 && t.approvals >= 2 * t.rejections),
        t.approvals >= 1 && t.rejections < 2 * t.approvals ==> !spec_clear_rejection(t),
        t.rejections >= 1 && t.approvals < 2 * t.rejections ==> !spec_clear_approval(t),
{
}

/// No tally is both a clear approval and a clear rejection.
pub proof fn lemma_not_both_clear(t: Tally)
    ensures
        !(spec_clear_approval(t) && spec_clear_rejection(t)),
{
}

/// A candidate for membership and the state of the vote on them.
#[derive(Debug, Clone, Copy, PartialEq, Eq, Structural)]
pub struct Candidacy<AccountId, Balance> {
    /// The round in which the candidacy began.
    pub round: RoundIndex,
    /// How the bid was backed.
    pub kind: BidKind<AccountId, Balance>,
    /// The payout that the candidate asked for.
    pub bid: Balance,
    /// The votes cast so far.
    pub tally: Tally,
    /// Whether the skeptic was already punished for not voting on this candidate.
    pub skeptic_struck: bool,
}

/// Whether a member vouches for a candidate or is banned from vouching.
#[derive(Debug, Clone, Copy, PartialEq, Eq, Structural)]
pub enum VouchingStatus {
    /// The member vouches for a candidate.
    Vouching,
    /// The member is banned from vouching.
    Banned,
}

/// The record of a member of the society.
#[derive(Debug, Clone, Copy, PartialEq, Eq, Structural)]
pub struct MemberRecord {
    /// The member's rank.
    pub rank: Rank,
    /// The strikes against the member.
    pub strikes: StrikeCount,
    /// Whether the member vouches, if at all.
    pub vouching: Option<VouchingStatus>,
    /// The member's position in the list of members.
    pub index: u32,
}

/// The phase of the society's intake period.
#[derive(Debug, Clone, Copy, PartialEq, Eq, Structural)]
pub enum Period<BlockNumber> {
    /// Candidates are being voted on.
    Voting {
        /// Blocks since the phase began.
        elapsed: BlockNumber,
        /// Blocks until the phase ends.
        more: BlockNumber,
    },
    /// Approved candidates may claim their membership.
    Claim {
        /// Blocks since the phase began.
        elapsed: BlockNumber,
        /// Blocks until the phase ends.
        more: BlockNumber,
    },
}

} // verus!
