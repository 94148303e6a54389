use organization::errors::ContractError;
use organization::events::{
    Fund, NewContributor, RemoveContributor, ReputationContributor, Vote, VotesContributor,
};
use organization::org::Organization;
use organization::registry::{Contributor, Reputation};

const ADMIN: u64 = 1;
const A: u64 = 2;
const B: u64 = 3;
const STRANGER: u64 = 9;

fn funded_org(admin_balance: u128) -> Organization {
    let mut org = Organization::new(ADMIN);
    org.deposit(ADMIN, admin_balance).unwrap();
    org
}

#[test]
fn concrete_scenario() {
    let mut org = funded_org(100);
    assert_eq!(org.add_contributor(ADMIN, A, 4), Ok(NewContributor { contributor_id: A }));
    assert_eq!(org.add_contributor(ADMIN, B, 9), Ok(NewContributor { contributor_id: B }));
    assert_eq!(org.open_vouting_round(ADMIN, 2, 100), Ok(true));
    // A votes for B: tally 0 + 1 = 1, reputation 1 * integer_sqrt(4) = 2
    assert_eq!(org.vote(A, B, 1), Ok(Vote { contributor_id: B }));
    assert_eq!(org.get_votes(B), Some(1));
    assert_eq!(org.get_reputation(B), Ok(2));
    // B votes for A with its updated reputation 2: 1 * integer_sqrt(2) = 1
    assert_eq!(org.vote(B, A, 1), Ok(Vote { contributor_id: A }));
    assert_eq!(org.get_reputation(A), Ok(1));
    // the budget of 2 is spent: the third vote is refused
    assert_eq!(org.vote(A, B, 1), Err(ContractError::BudgetExhausted));
    // close: total = 3, unit weight = 100 / 3 = 33
    assert_eq!(org.close_vouting_round(ADMIN), Ok(()));
    assert_eq!(org.sum_reputation_all(), 0);
    // credits applied pro rata; the registry is cleared, so balances are
    // observed after re-registering
    assert_eq!(org.add_contributor(ADMIN, A, 1), Ok(NewContributor { contributor_id: A }));
    assert_eq!(org.add_contributor(ADMIN, B, 1), Ok(NewContributor { contributor_id: B }));
    assert_eq!(org.get_balance(A), Ok(33));
    assert_eq!(org.get_balance(B), Ok(66));
    assert_eq!(org.get_balance_admin(ADMIN), Ok(100));
}

#[test]
fn authorization_rejected_and_state_unchanged() {
    let mut org = funded_org(50);
    org.add_contributor(ADMIN, A, 4).unwrap();
    assert_eq!(org.add_contributor(A, B, 9), Err(ContractError::Unauthorized));
    assert_eq!(org.remove_contributor(A, A), Err(ContractError::Unauthorized));
    assert_eq!(org.update_reputation(A, A, 7), Err(ContractError::Unauthorized));
    assert_eq!(org.clear_reputation(A), Err(ContractError::Unauthorized));
    assert_eq!(org.open_vouting_round(A, 2, 10), Err(ContractError::Unauthorized));
    assert_eq!(org.close_vouting_round(A), Err(ContractError::Unauthorized));
    assert_eq!(org.get_balance_admin(A), Err(ContractError::Unauthorized));
    // nothing moved: B never entered, A's record is as registered
    assert_eq!(org.get_reputation(B), Err(ContractError::NotFound));
    assert_eq!(org.get_reputation(A), Ok(4));
    assert_eq!(org.sum_reputation_all(), 4);
    assert_eq!(org.get_votes(A), Some(0));
}

#[test]
fn budget_admits_exactly_its_count() {
    let mut org = funded_org(10);
    org.add_contributor(ADMIN, A, 4).unwrap();
    org.add_contributor(ADMIN, B, 4).unwrap();
    org.open_vouting_round(ADMIN, 3, 10).unwrap();
    assert!(org.vote(A, B, 1).is_ok());
    assert!(org.vote(B, A, 1).is_ok());
    assert!(org.vote(A, B, 1).is_ok());
    // the budget of 3 is consumed: the fourth attempt is refused
    assert_eq!(org.vote(B, A, 1), Err(ContractError::BudgetExhausted));
    assert_eq!(org.vote(A, B, -1), Err(ContractError::BudgetExhausted));
    // the admin can still close with nothing left in the budget
    assert_eq!(org.close_vouting_round(ADMIN), Ok(()));
}

#[test]
fn close_available_with_budget_left() {
    let mut org = funded_org(10);
    org.add_contributor(ADMIN, A, 4).unwrap();
    org.open_vouting_round(ADMIN, 5, 10).unwrap();
    // no vote was cast; the admin may close regardless
    assert_eq!(org.close_vouting_round(ADMIN), Ok(()));
}

#[test]
fn floor_holds_under_hostile_votes() {
    let mut org = funded_org(10);
    org.add_contributor(ADMIN, A, 9).unwrap();
    org.add_contributor(ADMIN, B, 9).unwrap();
    org.open_vouting_round(ADMIN, 4, 10).unwrap();
    // a heavily negative vote drives the tally below 1: the floor catches it
    assert_eq!(org.vote(A, B, -100), Ok(Vote { contributor_id: B }));
    assert_eq!(org.get_votes(B), Some(-100));
    assert_eq!(org.get_reputation(B), Ok(1));
    // a partial recovery keeps the tally negative and the floor in place
    assert_eq!(org.vote(A, B, 50), Ok(Vote { contributor_id: B }));
    assert_eq!(org.get_votes(B), Some(-50));
    assert_eq!(org.get_reputation(B), Ok(1));
}

#[test]
fn distribution_even_split_pays_everything() {
    let mut org = funded_org(100);
    org.add_contributor(ADMIN, A, 2).unwrap();
    org.add_contributor(ADMIN, B, 3).unwrap();
    org.open_vouting_round(ADMIN, 1, 100).unwrap();
    // total = 5 divides 100 evenly: unit = 20, everything is paid out
    assert_eq!(org.close_vouting_round(ADMIN), Ok(()));
    org.add_contributor(ADMIN, A, 1).unwrap();
    org.add_contributor(ADMIN, B, 1).unwrap();
    assert_eq!(org.get_balance(A), Ok(40));
    assert_eq!(org.get_balance(B), Ok(60));
}

#[test]
fn distribution_remainder_is_discarded() {
    let mut org = funded_org(100);
    org.add_contributor(ADMIN, A, 3).unwrap();
    org.add_contributor(ADMIN, B, 3).unwrap();
    org.open_vouting_round(ADMIN, 1, 100).unwrap();
    // total = 6, unit = 16: 96 of 100 paid out, the remainder stays pooled
    // with the host
    assert_eq!(org.close_vouting_round(ADMIN), Ok(()));
    org.add_contributor(ADMIN, A, 1).unwrap();
    org.add_contributor(ADMIN, B, 1).unwrap();
    assert_eq!(org.get_balance(A), Ok(48));
    assert_eq!(org.get_balance(B), Ok(48));
}

#[test]
fn close_resets_everything() {
    let mut org = funded_org(10);
    org.add_contributor(ADMIN, A, 4).unwrap();
    org.add_contributor(ADMIN, B, 9).unwrap();
    org.open_vouting_round(ADMIN, 2, 10).unwrap();
    org.vote(A, B, 1).unwrap();
    assert_eq!(org.close_vouting_round(ADMIN), Ok(()));
    // reputations and tallies are gone
    assert_eq!(org.sum_reputation_all(), 0);
    assert_eq!(org.get_reputation(A), Err(ContractError::NotFound));
    assert_eq!(org.get_votes(B), None);
    // the round is back to closed: a fresh contributor cannot vote
    org.add_contributor(ADMIN, A, 4).unwrap();
    org.add_contributor(ADMIN, B, 4).unwrap();
    assert_eq!(org.vote(A, B, 1), Err(ContractError::RoundClosed));
    // and closing again finds no open round
    assert_eq!(org.close_vouting_round(ADMIN), Err(ContractError::RoundNotOpen));
}

#[test]
fn vote_requires_registered_identities() {
    let mut org = funded_org(10);
    org.add_contributor(ADMIN, A, 4).unwrap();
    org.open_vouting_round(ADMIN, 2, 10).unwrap();
    assert_eq!(org.vote(A, STRANGER, 1), Err(ContractError::NotFound));
    assert_eq!(org.vote(STRANGER, A, 1), Err(ContractError::NotFound));
}

#[test]
fn open_round_preconditions() {
    let mut org = funded_org(10);
    org.add_contributor(ADMIN, A, 4).unwrap();
    assert_eq!(org.open_vouting_round(ADMIN, 0, 5), Err(ContractError::InvalidBudget));
    assert_eq!(org.open_vouting_round(ADMIN, 2, 11), Err(ContractError::InsufficientFunds));
    // a failed open leaves the round closed
    assert_eq!(org.vote(A, A, 1), Err(ContractError::RoundClosed));
    assert_eq!(org.open_vouting_round(ADMIN, 2, 10), Ok(true));
}

#[test]
fn close_with_zero_total_reputation() {
    let mut org = funded_org(10);
    org.add_contributor(ADMIN, A, 0).unwrap();
    org.open_vouting_round(ADMIN, 2, 10).unwrap();
    assert_eq!(org.close_vouting_round(ADMIN), Err(ContractError::NothingToDistribute));
    // the round stays open: the guard aborted the close with no effect
    assert_eq!(org.vote(A, A, 1), Ok(Vote { contributor_id: A }));
}

#[test]
fn vote_overflow_is_hard_failure() {
    let mut org = funded_org(10);
    org.add_contributor(ADMIN, A, u32::MAX).unwrap();
    org.add_contributor(ADMIN, B, 1).unwrap();
    org.open_vouting_round(ADMIN, 5, 10).unwrap();
    // 70_000 * integer_sqrt(u32::MAX) does not fit a 32-bit reputation
    assert_eq!(org.vote(A, B, 70_000), Err(ContractError::ArithmeticOverflow));
    // nothing was applied, and the budget was not consumed
    assert_eq!(org.get_votes(B), Some(0));
    assert_eq!(org.get_reputation(B), Ok(1));
    let mut remaining: u32 = 0;
    while org.vote(A, B, 1).is_ok() {
        remaining += 1;
    }
    assert_eq!(remaining, 5);
}

#[test]
fn deposit_overflow_is_hard_failure() {
    let mut org = Organization::new(ADMIN);
    assert_eq!(org.deposit(A, u128::MAX), Ok(Fund { balance: u128::MAX }));
    assert_eq!(org.deposit(A, 1), Err(ContractError::ArithmeticOverflow));
}

#[test]
fn registry_management() {
    let mut org = Organization::new(ADMIN);
    org.add_contributor(ADMIN, A, 4).unwrap();
    // registering again overwrites the score
    org.add_contributor(ADMIN, A, 7).unwrap();
    assert_eq!(org.get_reputation(A), Ok(7));
    assert_eq!(org.sum_reputation_all(), 7);
    // a direct admin update really changes the stored value
    assert_eq!(org.update_reputation(ADMIN, A, 2), Ok(()));
    assert_eq!(org.get_reputation(A), Ok(2));
    assert_eq!(org.update_reputation(ADMIN, B, 2), Err(ContractError::NotFound));
    // removal deletes the record and its tally
    assert_eq!(org.remove_contributor(ADMIN, B), Err(ContractError::NotFound));
    assert_eq!(org.remove_contributor(ADMIN, A), Ok(RemoveContributor { contributor_id: A }));
    assert_eq!(org.get_reputation(A), Err(ContractError::NotFound));
    assert_eq!(org.get_votes(A), None);
}

#[test]
fn clear_reputation_keeps_balances() {
    let mut org = funded_org(25);
    org.add_contributor(ADMIN, A, 4).unwrap();
    assert_eq!(org.clear_reputation(ADMIN), Ok(()));
    assert_eq!(org.sum_reputation_all(), 0);
    assert_eq!(org.get_balance_admin(ADMIN), Ok(25));
}

#[test]
fn balance_queries() {
    let mut org = funded_org(25);
    org.add_contributor(ADMIN, A, 4).unwrap();
    // a registered contributor the ledger has never seen is not found
    assert_eq!(org.get_balance(A), Err(ContractError::NotFound));
    org.deposit(A, 12).unwrap();
    assert_eq!(org.get_balance(A), Ok(12));
    // unregistered identities cannot query a balance
    assert_eq!(org.get_balance(STRANGER), Err(ContractError::NotFound));
    assert_eq!(org.get_balance_admin(ADMIN), Ok(25));
}

#[test]
fn squareroot_through_the_organization() {
    let org = Organization::new(ADMIN);
    assert_eq!(org.get_squareroot(0), 0);
    assert_eq!(org.get_squareroot(8), 2);
    assert_eq!(org.get_squareroot(9), 3);
}

#[test]
fn reputation_tiers_carry_their_weight() {
    assert_eq!(Reputation::Easy.score(), 0);
    assert_eq!(Reputation::Medium.score(), 1);
    assert_eq!(Reputation::Hard.score(), 2);
    let mut org = Organization::new(ADMIN);
    org.add_contributor(ADMIN, A, Reputation::Hard.score()).unwrap();
    assert_eq!(org.get_reputation(A), Ok(2));
    let record = Contributor { contributor_id: A, reputation: 2 };
    assert_eq!(record.reputation, 2);
}

#[test]
fn query_notifications_carry_their_payload() {
    let mut org = Organization::new(ADMIN);
    org.add_contributor(ADMIN, A, 4).unwrap();
    // the host forwards each lookup to its observer with the value read
    let tally = VotesContributor { contributor_id: A, votes: org.get_votes(A).unwrap() };
    assert_eq!(tally, VotesContributor { contributor_id: A, votes: 0 });
    let seen = ReputationContributor { contributor_id: A };
    assert_eq!(seen.contributor_id, A);
}
