use vstd::prelude::*;

verus! {

use crate::AccountId;
use crate::Balance;

/// Notification that a contributor entered the registry. Each state-mutating
/// operation hands its notification back to the caller; the hosting
/// environment forwards it to whatever observer it keeps.
#[derive(Clone, Copy, Debug, PartialEq, Eq, Structural)]
pub struct NewContributor {
    pub contributor_id: AccountId,
}

/// Notification that a contributor left the registry.
#[derive(Clone, Copy, Debug, PartialEq, Eq, Structural)]
pub struct RemoveContributor {
    pub contributor_id: AccountId,
}

/// Notification that a vote on `contributor_id` completed.
#[derive(Clone, Copy, Debug, PartialEq, Eq, Structural)]
pub struct Vote {
    pub contributor_id: AccountId,
}

/// Notification carrying a contributor's accumulated vote tally.
#[derive(Clone, Copy, Debug, PartialEq, Eq, Structural)]
pub struct VotesContributor {
    pub contributor_id: AccountId,
    pub votes: i32,
}

/// Notification that a contributor's reputation was looked up.
#[derive(Clone, Copy, Debug, PartialEq, Eq, Structural)]
pub struct ReputationContributor {
    pub contributor_id: AccountId,
}

/// Notification carrying an account's fund balance.
#[derive(Clone, Copy, Debug, PartialEq, Eq, Structural)]
pub struct Fund {
    pub balance: Balance,
}

} // verus!
