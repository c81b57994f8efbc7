//! The test environment of the society pallet: the genesis it builds, the
//! blocks it runs to, the step it takes for each candidate when an intake
//! concludes, and the order in which it lists members and candidates.
use vstd::prelude::*;

use crate::society::{
    spec_clear_approval,
    spec_clear_rejection,
    Bid,
    BidKind,
    Candidacy,
    MemberRecord,
    Period,
    RoundIndex,
    Tally,
    VoteCount,
};

verus! {

/// Blocks between two challenges of the society's members.
pub const CHALLENGE_PERIOD: u64 = 8;

/// Blocks in which approved candidates may claim their membership.
pub const CLAIM_PERIOD: u64 = 1;

/// Blocks in which candidates are voted on.
pub const VOTING_PERIOD: u64 = 3;

/// The account that may found the society.
pub const FOUNDER_SET_ACCOUNT: u128 = 1;

/// The account that judges suspended members.
pub const SUSPENSION_JUDGEMENT_SET_ACCOUNT: u128 = 2;

/// The most payouts that a member may have pending.
pub const MAX_PAYOUTS: u32 = 10;

/// The most bids that may be pending.
pub const MAX_BIDS: u32 = 10;

/// Builder of the test environment's genesis.
pub struct EnvBuilder {
    balance: u64,
    balances: Vec<(u128, u64)>,
    pot: u64,
    founded: bool,
}

/// What the test environment starts from: the account balances, the society's
/// pot, and whether the society is founded in the first block.
pub struct Genesis {
    /// The balance of each account.
    pub balances: Vec<(u128, u64)>,
    /// The society's pot.
    pub pot: u64,
    /// Whether account 1 founds the society in the first block.
    pub found_society: bool,
}

/// The nine accounts 10, 20, ..., 90 with a balance of 50 each.
pub open spec fn default_balances() -> Seq<(u128, u64)> {
    Seq::new(9, |i: int| (((i + 1) * 10) as u128, 50u64))
}

impl EnvBuilder {
    /// The balance given to the society's own account, unless the pot is larger.
    pub closed spec fn spec_balance(&self) -> u64 {
        self.balance
    }

    /// The balances given to the accounts of the environment.
    pub closed spec fn spec_balances(&self) -> Seq<(u128, u64)> {
        self.balances@
    }

    /// The society's pot at genesis.
    pub closed spec fn spec_pot(&self) -> u64 {
        self.pot
    }

    /// Whether the society is founded in the first block.
    pub closed spec fn spec_founded(&self) -> bool {
        self.founded
    }

    /// The default environment: accounts 10 to 90 hold 50 each, the society's
    /// account 10,000, the pot is empty and the society gets founded.
    pub fn new() -> (e: EnvBuilder)
        ensures
            e.spec_balance() == 10_000,
            e.spec_balances() == default_balances(),
            e.spec_pot() == 0,
            e.spec_founded(),
    {
        let mut balances: Vec<(u128, u64)> = Vec::new();
        let mut i: u128 = 1;
        while i <= 9
            invariant
                1 <= i <= 10,
                balances@ == default_balances().subrange(0, i - 1),
            decreases 10 - i,
        {
            balances.push((i * 10, 50));
            proof {
                assert(default_balances().subrange(0, i as int) == default_balances().subrange(
                    0,
                    i - 1,
                ).push(((i * 10) as u128, 50u64)));
            }
            i = i + 1;
        }
        assert(default_balances().subrange(0, 9) == default_balances());
        EnvBuilder { balance: 10_000, balances, pot: 0, founded: true }
    }

    /// The same environment, founded in the first block or not as `f` says.
    pub fn founded(self, f: bool) -> (e: EnvBuilder)
        ensures
            e.spec_balance() == self.spec_balance(),
            e.spec_balances() == self.spec_balances(),
            e.spec_pot() == self.spec_pot(),
            e.spec_founded() == f,
    {
        let mut e = self;
        e.founded = f;
        e
    }

    /// The genesis that the environment starts from, where the society's own
    /// account is `society_account`: the accounts' balances followed by the
    /// society's account with the larger of its balance and the pot.
    pub fn genesis(self, society_account: u128) -> (g: Genesis)
        ensures
            g.balances@ == self.spec_balances().push(
                (
                    society_account,
                    if self.spec_balance() >= self.spec_pot() {
                        self.spec_balance()
                    } else {
                        self.spec_pot()
                    },
                ),
            ),
            g.pot == self.spec_pot(),
            g.found_society == self.spec_founded(),
    {
        let mut balances = self.balances;
        let funds = if self.balance >= self.pot {
            self.balance
        } else {
            self.pot
        };
        balances.push((society_account, funds));
        Genesis { balances, pot: self.pot, found_society: self.founded }
    }
}

/// Creates a bid from its parts.
pub fn bid<AccountId, Balance>(
    who: AccountId,
    kind: BidKind<AccountId, Balance>,
    value: Balance,
) -> (b: Bid<AccountId, Balance>)
    ensures
        b == (Bid { who, kind, value }),
{
    Bid { who, kind, value }
}

/// Creates a candidacy from its parts, with the skeptic not yet struck.
pub fn candidacy<AccountId, Balance>(
    round: RoundIndex,
    bid: Balance,
    kind: BidKind<AccountId, Balance>,
    approvals: VoteCount,
    rejections: VoteCount,
) -> (c: Candidacy<AccountId, Balance>)
    ensures
        c == (Candidacy {
            round,
            kind,
            bid,
            tally: Tally { approvals, rejections },
            skeptic_struck: false,
        }),
{
    Candidacy { round, kind, bid, tally: Tally { approvals, rejections }, skeptic_struck: false }
}

/// The block at which the next challenge begins, seen from block `now`: the
/// next multiple of the challenge period after `now`.
pub fn next_challenge(now: u64) -> (target: u64)
    requires
        now + CHALLENGE_PERIOD <= u64::MAX,
    ensures
        target == now + CHALLENGE_PERIOD - now % CHALLENGE_PERIOD,
{
    now + CHALLENGE_PERIOD - now % CHALLENGE_PERIOD
}

/// The next challenge begins after `now`, within one challenge period, at a
/// multiple of the challenge period.
pub proof fn lemma_next_challenge(now: u64)
    requires
        now + CHALLENGE_PERIOD <= u64::MAX,
    ensures
        ({
            let target = now + CHALLENGE_PERIOD - now % CHALLENGE_PERIOD;
            &&& now < target <= now + CHALLENGE_PERIOD
            &&& target % (CHALLENGE_PERIOD as int) == 0
        }),
{
    let target = now + CHALLENGE_PERIOD - now % CHALLENGE_PERIOD;
    vstd::arithmetic::div_mod::lemma_fundamental_div_mod(now as int, 8);
    assert(target == 8 * (now / 8) + 8);
    vstd::arithmetic::div_mod::lemma_mod_multiples_basic(now / 8 + 1, 8);
    assert(8 * (now / 8) + 8 == (now / 8 + 1) * 8) by (nonlinear_arith);
}

/// Concluding an intake has a clearly approved candidate claim membership, and
/// has no candidate both claim membership and resign or be dropped.
pub proof fn lemma_clear_approval_claims(
    allow_resignation: bool,
    judge_intake: Option<bool>,
    round: RoundIndex,
    founder: Option<u128>,
    candidacy: Candidacy<u128, u64>,
)
    ensures
        spec_clear_approval(candidacy.tally) <==> spec_intake_step(
            allow_resignation,
            judge_intake,
            round,
            founder,
            candidacy,
        ) == IntakeStep::ClaimMembership,
        spec_intake_step(allow_resignation, judge_intake, round, founder, candidacy)
            == IntakeStep::DropCandidate ==> spec_clear_rejection(candidacy.tally)
            && !spec_clear_approval(candidacy.tally),
{
}

/// The block at which the voting phase ends, seen from block `now` in `period`,
/// or `None` where the society is not voting.
pub fn next_voting(period: Period<u64>, now: u64) -> (target: Option<u64>)
    requires
        period matches Period::Voting { more, .. } ==> now + more <= u64::MAX,
    ensures
        target == match period {
            Period::Voting { more, .. } => Some((now + more) as u64),
            Period::Claim { .. } => None::<u64>,
        },
{
    match period {
        Period::Voting { more, .. } => Some(now + more),
        Period::Claim { .. } => None,
    }
}

/// The block at which the next intake begins, seen from block `now` in
/// `period`: the end of the claim phase, which follows the voting phase.
pub fn next_intake(period: Period<u64>, now: u64) -> (target: u64)
    requires
        match period {
            Period::Voting { more, .. } => now + more + CLAIM_PERIOD <= u64::MAX,
            Period::Claim { more, .. } => now + more <= u64::MAX,
        },
    ensures
        target == match period {
            Period::Voting { more, .. } => now + more + CLAIM_PERIOD,
            Period::Claim { more, .. } => now + more,
        },
{
    match period {
        Period::Voting { more, .. } => now + more + CLAIM_PERIOD,
        Period::Claim { more, .. } => now + more,
    }
}

/// What concluding an intake does with one candidate.
#[derive(Debug, Clone, Copy, PartialEq, Eq, Structural)]
pub enum IntakeStep {
    /// The candidate claims their membership, which succeeds once only.
    ClaimMembership,
    /// The candidate cannot claim membership and resigns their candidacy.
    ResignCandidacy,
    /// The founder kicks the candidate.
    KickCandidate {
        /// The founder.
        founder: u128,
    },
    /// The founder bestows membership on the candidate.
    BestowMembership {
        /// The founder.
        founder: u128,
    },
    /// The candidate cannot claim membership, and is dropped, once only.
    DropCandidate,
    /// The skeptic is punished for not voting on the candidate.
    PunishSkeptic,
    /// Nothing is done.
    Skip,
}

/// The step that concluding an intake takes for `candidacy`, in round `round`,
/// where `founder` is the society's founder, `judge_intake` the founder's
/// verdict on candidates that are not clearly decided, and `allow_resignation`
/// whether clearly rejected candidates resign.
pub open spec fn spec_intake_step(
    allow_resignation: bool,
    judge_intake: Option<bool>,
    round: RoundIndex,
    founder: Option<u128>,
    candidacy: Candidacy<u128, u64>,
) -> IntakeStep {
    let tally = candidacy.tally;
    if spec_clear_approval(tally) {
        IntakeStep::ClaimMembership
    } else if spec_clear_rejection(tally) && allow_resignation {
        IntakeStep::ResignCandidacy
    } else if founder is Some && judge_intake is Some && !spec_clear_approval(tally)
        && !judge_intake->0 {
        IntakeStep::KickCandidate { founder: founder->0 }
    } else if founder is Some && judge_intake is Some && !spec_clear_rejection(tally)
        && judge_intake->0 {
        IntakeStep::BestowMembership { founder: founder->0 }
    } else if spec_clear_rejection(tally) && round > candidacy.round + 1 {
        IntakeStep::DropCandidate
    } else if !candidacy.skeptic_struck {
        IntakeStep::PunishSkeptic
    } else {
        IntakeStep::Skip
    }
}

/// The step that concluding an intake takes for `candidacy`.
pub fn intake_step(
    allow_resignation: bool,
    judge_intake: Option<bool>,
    round: RoundIndex,
    founder: Option<u128>,
    candidacy: &Candidacy<u128, u64>,
) -> (s: IntakeStep)
    ensures
        s == spec_intake_step(allow_resignation, judge_intake, round, founder, *candidacy),
{
    let tally = &candidacy.tally;
    if tally.clear_approval() {
        return IntakeStep::ClaimMembership;
    }
    if tally.clear_rejection() && allow_resignation {
        return IntakeStep::ResignCandidacy;
    }
    if let (Some(f), Some(approve)) = (founder, judge_intake) {
        if !tally.clear_approval() && !approve {
            return IntakeStep::KickCandidate { founder: f };
        }
        if !tally.clear_rejection() && approve {
            return IntakeStep::BestowMembership { founder: f };
        }
    }
    if tally.clear_rejection() && (round as u64) > (candidacy.round as u64) + 1 {
        return IntakeStep::DropCandidate;
    }
    if !candidacy.skeptic_struck {
        return IntakeStep::PunishSkeptic;
    }
    IntakeStep::Skip
}

/// `s` is in ascending order.
pub open spec fn sorted_accounts(s: Seq<u128>) -> bool {
    forall|i: int, j: int| 0 <= i < j < s.len() ==> #[trigger] s[i] <= #[trigger] s[j]
}

/// `s` is in ascending order of its accounts.
pub open spec fn sorted_by_account<V>(s: Seq<(u128, V)>) -> bool {
    forall|i: int, j: int| 0 <= i < j < s.len() ==> (#[trigger] s[i]).0 <= (#[trigger] s[j]).0
}

/// Whether an entry belongs to account `k`.
pub open spec fn has_account<V>(k: u128) -> spec_fn((u128, V)) -> bool {
    |e: (u128, V)| e.0 == k
}

/// The entries of `s` that belong to account `k`, in their order in `s`.
pub open spec fn with_account<V>(s: Seq<(u128, V)>, k: u128) -> Seq<(u128, V)> {
    s.filter(has_account::<V>(k))
}

/// Inserting `e` into `out` where the accounts before it are smaller and those
/// after it are not puts `e` first among the entries of its own account and
/// leaves the other accounts' entries as they were.
proof fn lemma_insert_with_account<V>(out: Seq<(u128, V)>, j: int, e: (u128, V), k: u128)
    requires
        0 <= j <= out.len(),
        forall|i: int| 0 <= i < j ==> (#[trigger] out[i]).0 < e.0,
    ensures
        with_account(out.insert(j, e), k) == (if e.0 == k {
            seq![e]
        } else {
            Seq::empty()
        }) + with_account(out, k),
{
    let p = has_account::<V>(k);
    let a = out.subrange(0, j);
    let b = out.subrange(j, out.len() as int);
    assert(out.insert(j, e) =~= a + (seq![e] + b));
    assert(out =~= a + b);
    Seq::filter_distributes_over_add(a, seq![e] + b, p);
    Seq::filter_distributes_over_add(a, b, p);
    b.lemma_filter_prepend(e, p);
    if e.0 == k {
        assert(a.all(|x: (u128, V)| !p(x)));
        a.lemma_all_neg_filter_empty(p);
        assert(a.filter(p) =~= Seq::empty());
        assert(with_account(out.insert(j, e), k) =~= seq![e] + with_account(out, k));
    } else {
        assert(with_account(out.insert(j, e), k) =~= with_account(out, k));
    }
}

/// Returns `accounts` in ascending order.
pub fn sort_accounts(accounts: Vec<u128>) -> (r: Vec<u128>)
    ensures
        sorted_accounts(r@),
        r@.to_multiset() == accounts@.to_multiset(),
{
    broadcast use vstd::seq_lib::group_to_multiset_ensures;

    let mut out: Vec<u128> = Vec::new();
    let n = accounts.len();
    let mut i: usize = 0;
    while i < n
        invariant
            n == accounts.len(),
            i <= n,
            sorted_accounts(out@),
            out@.to_multiset() == accounts@.subrange(0, i as int).to_multiset(),
        decreases n - i,
    {
        let a = accounts[i];
        let mut j: usize = 0;
        while j < out.len() && out[j] <= a
            invariant
                j <= out.len(),
                forall|k: int| 0 <= k < j ==> #[trigger] out@[k] <= a,
            decreases out.len() - j,
        {
            j = j + 1;
        }
        proof {
            vstd::seq_lib::to_multiset_insert(out@, j as int, a);
            assert(accounts@.subrange(0, i + 1) == accounts@.subrange(0, i as int).push(a));
            vstd::seq_lib::to_multiset_build(accounts@.subrange(0, i as int), a);
        }
        out.insert(j, a);
        i = i + 1;
    }
    assert(accounts@.subrange(0, n as int) == accounts@);
    out
}

/// Returns `entries` in ascending order of their accounts; the entries of one
/// account keep their order.
pub fn sort_by_account<V>(entries: Vec<(u128, V)>) -> (r: Vec<(u128, V)>)
    ensures
        sorted_by_account(r@),
        r@.to_multiset() == entries@.to_multiset(),
        forall|k: u128| #[trigger] with_account(r@, k) == with_account(entries@, k),
{
    broadcast use vstd::seq_lib::group_to_multiset_ensures;

    let ghost all = entries@;
    let mut rest = entries;
    let mut out: Vec<(u128, V)> = Vec::new();
    proof {
        assert forall|k: u128| #[trigger] with_account(out@, k) == with_account(
            all.subrange(all.len() as int, all.len() as int),
            k,
        ) by {
            reveal(Seq::filter);
            assert(all.subrange(all.len() as int, all.len() as int) =~= Seq::empty());
        }
    }
    while rest.len() > 0
        invariant
            sorted_by_account(out@),
            out@.to_multiset().add(rest@.to_multiset()) == all.to_multiset(),
            rest.len() <= all.len(),
            rest@ == all.subrange(0, rest.len() as int),
            forall|k: u128| #[trigger]
                with_account(out@, k) == with_account(
                    all.subrange(rest.len() as int, all.len() as int),
                    k,
                ),
        decreases rest.len(),
    {
        let ghost before = rest@;
        let ghost old_out = out@;
        let e = rest.pop().unwrap();
        let mut j: usize = 0;
        while j < out.len() && out[j].0 < e.0
            invariant
                j <= out.len(),
                forall|k: int| 0 <= k < j ==> (#[trigger] out@[k]).0 < e.0,
            decreases out.len() - j,
        {
            j = j + 1;
        }
        proof {
            assert(before == rest@.push(e));
            vstd::seq_lib::to_multiset_build(rest@, e);
            vstd::seq_lib::to_multiset_insert(out@, j as int, e);
            let m = rest.len() as int;
            assert(before[m] == e);
            assert(all[m] == e);
            assert(rest@ =~= all.subrange(0, m));
            assert(all.subrange(m, all.len() as int) =~= seq![e] + all.subrange(
                m + 1,
                all.len() as int,
            ));
            assert forall|k: u128| #[trigger]
                with_account(old_out.insert(j as int, e), k) == with_account(
                    all.subrange(m, all.len() as int),
                    k,
                ) by {
                lemma_insert_with_account(old_out, j as int, e, k);
                all.subrange(m + 1, all.len() as int).lemma_filter_prepend(
                    e,
                    has_account::<V>(k),
                );
            }
        }
        out.insert(j, e);
    }
    proof {
        assert(rest@ =~= Seq::<(u128, V)>::empty());
        assert(all.subrange(0, all.len() as int) =~= all);
    }
    out
}

/// The members, as the accounts that the members' map holds, in ascending order.
pub fn members(accounts: Vec<u128>) -> (r: Vec<u128>)
    ensures
        sorted_accounts(r@),
        r@.to_multiset() == accounts@.to_multiset(),
{
    sort_accounts(accounts)
}

/// The members' records, in ascending order of the members' accounts.
pub fn membership(entries: Vec<(u128, MemberRecord)>) -> (r: Vec<(u128, MemberRecord)>)
    ensures
        sorted_by_account(r@),
        r@.to_multiset() == entries@.to_multiset(),
        forall|k: u128| #[trigger] with_account(r@, k) == with_account(entries@, k),
{
    sort_by_account(entries)
}

/// The candidacies, in ascending order of the candidates' accounts.
pub fn candidacies(entries: Vec<(u128, Candidacy<u128, u64>)>) -> (r: Vec<
    (u128, Candidacy<u128, u64>),
>)
    ensures
        sorted_by_account(r@),
        r@.to_multiset() == entries@.to_multiset(),
        forall|k: u128| #[trigger] with_account(r@, k) == with_account(entries@, k),
{
    sort_by_account(entries)
}

/// The candidates, as the accounts that the candidates' map holds, in ascending order.
pub fn candidates(accounts: Vec<u128>) -> (r: Vec<u128>)
    ensures
        sorted_accounts(r@),
        r@.to_multiset() == accounts@.to_multiset(),
{
    sort_accounts(accounts)
}

} // verus!
