use polkadot_parts::society::{
    BidKind, Candidacy, MemberRecord, Period, Tally, VouchingStatus,
};
use polkadot_parts::society_env::{
    bid, candidacies, candidacy, candidates, intake_step, members, membership, next_challenge,
    next_intake, next_voting, sort_by_account, EnvBuilder, IntakeStep,
};

#[test]
fn default_environment_genesis() {
    let g = EnvBuilder::new().genesis(999);
    let mut expected: Vec<(u128, u64)> = (1..=9).map(|i| (i * 10, 50)).collect();
    expected.push((999, 10_000));
    assert_eq!(g.balances, expected);
    assert_eq!(g.pot, 0);
    assert!(g.found_society);
    let g = EnvBuilder::new().founded(false).genesis(7);
    assert!(!g.found_society);
    assert_eq!(g.balances.last(), Some(&(7, 10_000)));
}

#[test]
fn bid_and_candidacy_are_built_from_their_parts() {
    let b = bid(10u128, BidKind::Deposit(25u64), 100u64);
    assert_eq!(b.who, 10);
    assert_eq!(b.kind, BidKind::Deposit(25));
    assert_eq!(b.value, 100);
    let c = candidacy(3, 1000u64, BidKind::Vouch(20u128, 5u64), 2, 1);
    assert_eq!(c.round, 3);
    assert_eq!(c.bid, 1000);
    assert_eq!(c.kind, BidKind::Vouch(20, 5));
    assert_eq!(c.tally, Tally { approvals: 2, rejections: 1 });
    assert!(!c.skeptic_struck);
}

#[test]
fn blocks_to_run_to() {
    assert_eq!(next_challenge(1), 8);
    assert_eq!(next_challenge(8), 16);
    assert_eq!(next_challenge(13), 16);
    assert_eq!(next_voting(Period::Voting { elapsed: 1, more: 2 }, 5), Some(7));
    assert_eq!(next_voting(Period::Claim { elapsed: 0, more: 1 }, 5), None);
    assert_eq!(next_intake(Period::Voting { elapsed: 1, more: 2 }, 5), 8);
    assert_eq!(next_intake(Period::Claim { elapsed: 0, more: 1 }, 5), 6);
}

#[test]
fn tallies_are_clear_or_not() {
    assert!(Tally { approvals: 1, rejections: 0 }.clear_approval());
    assert!(!Tally { approvals: 0, rejections: 0 }.clear_approval());
    assert!(Tally { approvals: 4, rejections: 2 }.clear_approval());
    assert!(!Tally { approvals: 3, rejections: 2 }.clear_approval());
    assert!(Tally { approvals: 1, rejections: 2 }.clear_rejection());
    assert!(!Tally { approvals: 0, rejections: 0 }.clear_rejection());
}

fn cand(round: u32, approvals: u32, rejections: u32, struck: bool) -> Candidacy<u128, u64> {
    Candidacy {
        round,
        kind: BidKind::Deposit(25),
        bid: 0,
        tally: Tally { approvals, rejections },
        skeptic_struck: struck,
    }
}

#[test]
fn intake_steps() {
    assert_eq!(intake_step(false, None, 1, None, &cand(1, 1, 0, false)), IntakeStep::ClaimMembership);
    assert_eq!(intake_step(true, None, 1, None, &cand(1, 0, 1, false)), IntakeStep::ResignCandidacy);
    assert_eq!(
        intake_step(false, Some(false), 1, Some(5), &cand(1, 0, 0, false)),
        IntakeStep::KickCandidate { founder: 5 }
    );
    assert_eq!(
        intake_step(false, Some(true), 1, Some(5), &cand(1, 0, 0, false)),
        IntakeStep::BestowMembership { founder: 5 }
    );
    assert_eq!(intake_step(false, Some(true), 3, Some(5), &cand(1, 0, 1, false)), IntakeStep::DropCandidate);
    assert_eq!(intake_step(false, None, 2, None, &cand(1, 0, 1, false)), IntakeStep::PunishSkeptic);
    assert_eq!(intake_step(false, None, 2, None, &cand(1, 0, 1, true)), IntakeStep::Skip);
}

#[test]
fn listings_are_sorted_by_account() {
    assert_eq!(members(vec![30, 10, 20]), vec![10, 20, 30]);
    assert_eq!(candidates(vec![5, 1, 5]), vec![1, 5, 5]);
    let record = |index| MemberRecord { rank: 0, strikes: 0, vouching: Some(VouchingStatus::Vouching), index };
    let sorted = membership(vec![(3, record(0)), (1, record(1))]);
    assert_eq!(sorted, vec![(1, record(1)), (3, record(0))]);
    let sorted = candidacies(vec![(9, cand(1, 0, 0, false)), (2, cand(2, 0, 0, false))]);
    assert_eq!(sorted.iter().map(|x| x.0).collect::<Vec<_>>(), vec![2, 9]);
    assert_eq!(sorted[0].1.round, 2);
}


#[test]
fn entries_of_one_account_keep_their_order() {
    let sorted = sort_by_account(vec![(2, 'a'), (1, 'b'), (2, 'c'), (1, 'd'), (0, 'e')]);
    assert_eq!(sorted, vec![(0, 'e'), (1, 'b'), (1, 'd'), (2, 'a'), (2, 'c')]);
}
