use vstd::prelude::*;

verus! {

use crate::AccountId;
use crate::Balance;
use crate::engine;
use crate::errors::ContractError;
use crate::events::Fund;
use crate::events::NewContributor;
use crate::events::RemoveContributor;
use crate::events::Vote;
use crate::registry::Contributor;
use crate::registry::ContributorRegistry;
use crate::registry::lemma_reg_map_contains;
use crate::registry::lemma_reg_map_index;
use crate::registry::lemma_rep_le_sum;
use crate::registry::lemma_sum_credits_mul;
use crate::registry::sum_credits;
use crate::registry::sum_rep;
use crate::table::Table;
use vstd::arithmetic::div_mod::lemma_div_pos_is_pos;
use vstd::arithmetic::div_mod::lemma_fundamental_div_mod;
use vstd::arithmetic::div_mod::lemma_mod_bound;
use vstd::arithmetic::mul::lemma_mul_inequality;

/// The state of the current voting round: the remaining vote budget, whether
/// votes are being accepted, and the pooled balance to distribute on close.
#[derive(Clone, Copy, Debug, PartialEq, Eq, Structural)]
pub struct VoutingRound {
    pub votes: u32,
    pub open: bool,
    pub balance: Balance,
}

/// The tally held for `id`: its accumulated signed vote count, or 0 before
/// the first vote on it.
pub open spec fn tally_or0(t: Map<AccountId, i32>, id: AccountId) -> int {
    if t.contains_key(id) {
        t[id] as int
    } else {
        0
    }
}

/// The balance the ledger holds for `id`, or 0 for an account it has never
/// seen.
pub open spec fn bal_or0(l: Map<AccountId, Balance>, id: AccountId) -> int {
    if l.contains_key(id) {
        l[id] as int
    } else {
        0
    }
}

/// The organization: a contributor registry, the vote tallies, a fund
/// ledger, and the voting-round state machine, orchestrated under a single
/// admin identity. Every operation takes the caller's identity explicitly
/// and either applies completely or fails with no effect.
pub struct Organization {
    admin: AccountId,
    contributors: ContributorRegistry,
    votes: Table<i32>,
    balances: Table<Balance>,
    vouting_round: VoutingRound,
}

impl Organization {
    /// The single identity allowed to mutate the registry and drive the
    /// round lifecycle.
    pub closed spec fn spec_admin(&self) -> AccountId {
        self.admin
    }

    /// The registry's record sequence.
    pub closed spec fn reg_seq(&self) -> Seq<Contributor> {
        self.contributors.entries_seq()
    }

    /// The registry as a mapping from identity to reputation.
    pub closed spec fn reg(&self) -> Map<AccountId, u32> {
        self.contributors@
    }

    /// The vote tallies as a mapping from identity to signed count.
    pub closed spec fn tallies(&self) -> Map<AccountId, i32> {
        self.votes@
    }

    /// The fund ledger as a mapping from identity to balance.
    pub closed spec fn ledger(&self) -> Map<AccountId, Balance> {
        self.balances@
    }

    /// The voting-round state.
    pub closed spec fn round(&self) -> VoutingRound {
        self.vouting_round
    }

    /// Whether `id` is a registered contributor.
    pub open spec fn registered(&self, id: AccountId) -> bool {
        self.reg().contains_key(id)
    }

    /// Well-formed: each record collection keys its entries uniquely.
    pub closed spec fn wf(&self) -> bool {
        self.contributors.wf() && self.votes.wf() && self.balances.wf()
    }

    /// A fresh organization under `admin`: no contributors, no tallies, an
    /// empty ledger, and the round closed.
    pub fn new(admin: AccountId) -> (org: Organization)
        ensures
            org.wf(),
            org.spec_admin() == admin,
            org.reg() == Map::<AccountId, u32>::empty(),
            org.reg_seq().len() == 0,
            org.tallies() == Map::<AccountId, i32>::empty(),
            org.ledger() == Map::<AccountId, Balance>::empty(),
            org.round() == (VoutingRound { votes: 0, open: false, balance: 0 }),
    {
        Organization {
            admin,
            contributors: ContributorRegistry::new(),
            votes: Table::new(),
            balances: Table::new(),
            vouting_round: VoutingRound { votes: 0, open: false, balance: 0 },
        }
    }

    /// Registers `id` with `reputation`, inserting or overwriting. Admin
    /// only; a rejected call leaves the state exactly as it was.
    pub fn add_contributor(&mut self, caller: AccountId, id: AccountId, reputation: u32)
        -> (r: Result<NewContributor, ContractError>)
        requires
            old(self).wf(),
        ensures
            final(self).wf(),
            final(self).spec_admin() == old(self).spec_admin(),
            caller != old(self).spec_admin()
                ==> r == Err::<NewContributor, ContractError>(ContractError::Unauthorized)
                    && *final(self) == *old(self),
            caller == old(self).spec_admin()
                ==> r == Ok::<NewContributor, ContractError>(NewContributor { contributor_id: id })
                    && final(self).reg() == old(self).reg().insert(id, reputation)
                    && final(self).tallies() == old(self).tallies()
                    && final(self).ledger() == old(self).ledger()
                    && final(self).round() == old(self).round()
                    && sum_rep(final(self).reg_seq()) == sum_rep(old(self).reg_seq()) + reputation
                        - (if old(self).registered(id) {
                        old(self).reg()[id] as int
                    } else {
                        0
                    }),
    {
        if caller != self.admin {
            return Err(ContractError::Unauthorized);
        }
        self.contributors.register(id, reputation);
        Ok(NewContributor { contributor_id: id })
    }

    /// Deletes `id` from the registry together with its vote tally. Admin
    /// only; removing an unregistered identity is refused.
    pub fn remove_contributor(&mut self, caller: AccountId, id: AccountId)
        -> (r: Result<RemoveContributor, ContractError>)
        requires
            old(self).wf(),
        ensures
            final(self).wf(),
            final(self).spec_admin() == old(self).spec_admin(),
            caller != old(self).spec_admin()
                ==> r == Err::<RemoveContributor, ContractError>(ContractError::Unauthorized)
                    && *final(self) == *old(self),
            caller == old(self).spec_admin() && !old(self).registered(id)
                ==> r == Err::<RemoveContributor, ContractError>(ContractError::NotFound)
                    && *final(self) == *old(self),
            caller == old(self).spec_admin() && old(self).registered(id)
                ==> r == Ok::<RemoveContributor, ContractError>(
                    RemoveContributor { contributor_id: id },
                )
                    && final(self).reg() == old(self).reg().remove(id)
                    && final(self).tallies() == old(self).tallies().remove(id)
                    && final(self).ledger() == old(self).ledger()
                    && final(self).round() == old(self).round()
                    && sum_rep(final(self).reg_seq()) == sum_rep(old(self).reg_seq())
                        - old(self).reg()[id],
    {
        if caller != self.admin {
            return Err(ContractError::Unauthorized);
        }
        if !self.contributors.contains(id) {
            return Err(ContractError::NotFound);
        }
        self.contributors.remove(id);
        self.votes.remove(id);
        Ok(RemoveContributor { contributor_id: id })
    }

    /// The caller's own reputation; an unregistered caller is not found.
    pub fn get_reputation(&self, caller: AccountId) -> (r: Result<u32, ContractError>)
        requires
            self.wf(),
        ensures
            self.registered(caller) ==> r == Ok::<u32, ContractError>(self.reg()[caller]),
            !self.registered(caller) ==> r == Err::<u32, ContractError>(ContractError::NotFound),
    {
        match self.contributors.reputation_of(caller) {
            Some(reputation) => Ok(reputation),
            None => Err(ContractError::NotFound),
        }
    }

    /// The caller's own ledger balance. Only registered contributors hold
    /// queryable accounts, and an account the ledger has never seen is not
    /// found.
    pub fn get_balance(&self, caller: AccountId) -> (r: Result<Balance, ContractError>)
        requires
            self.wf(),
        ensures
            !self.registered(caller)
                ==> r == Err::<Balance, ContractError>(ContractError::NotFound),
            self.registered(caller) && !self.ledger().contains_key(caller)
                ==> r == Err::<Balance, ContractError>(ContractError::NotFound),
            self.registered(caller) && self.ledger().contains_key(caller)
                ==> r == Ok::<Balance, ContractError>(self.ledger()[caller]),
    {
        if !self.contributors.contains(caller) {
            return Err(ContractError::NotFound);
        }
        match self.balances.get(caller) {
            Some(acount_balance) => Ok(acount_balance),
            None => Err(ContractError::NotFound),
        }
    }

    /// The admin's own ledger balance. Admin only; an account the ledger has
    /// never seen is not found.
    pub fn get_balance_admin(&self, caller: AccountId) -> (r: Result<Balance, ContractError>)
        requires
            self.wf(),
        ensures
            caller != self.spec_admin()
                ==> r == Err::<Balance, ContractError>(ContractError::Unauthorized),
            caller == self.spec_admin() && !self.ledger().contains_key(caller)
                ==> r == Err::<Balance, ContractError>(ContractError::NotFound),
            caller == self.spec_admin() && self.ledger().contains_key(caller)
                ==> r == Ok::<Balance, ContractError>(self.ledger()[caller]),
    {
        if caller != self.admin {
            return Err(ContractError::Unauthorized);
        }
        match self.balances.get(caller) {
            Some(acount_balance) => Ok(acount_balance),
            None => Err(ContractError::NotFound),
        }
    }

    /// The accumulated vote tally of a registered contributor, 0 before the
    /// first vote on it; an unregistered identity has no tally.
    pub fn get_votes(&self, id: AccountId) -> (r: Option<i32>)
        requires
            self.wf(),
        ensures
            self.registered(id) ==> r == Some(tally_or0(self.tallies(), id) as i32),
            !self.registered(id) ==> r == None::<i32>,
    {
        if !self.contributors.contains(id) {
            return None;
        }
        match self.votes.get(id) {
            Some(v) => Some(v),
            None => Some(0),
        }
    }

    /// The integer square root used by the vote-weight rule.
    pub fn get_squareroot(&self, num: u32) -> (r: u32)
        ensures
            r == engine::isqrt(num as nat),
    {
        engine::integer_sqrt(num)
    }

    /// The total reputation across all registered contributors.
    pub fn sum_reputation_all(&self) -> (total: u128)
        ensures
            total as int == sum_rep(self.reg_seq()),
    {
        self.contributors.sum_reputation()
    }

    /// Overwrites the stored reputation of a registered contributor. Admin
    /// only; the stored value really changes to `new_reputation`.
    pub fn update_reputation(&mut self, caller: AccountId, id: AccountId, new_reputation: u32)
        -> (r: Result<(), ContractError>)
        requires
            old(self).wf(),
        ensures
            final(self).wf(),
            final(self).spec_admin() == old(self).spec_admin(),
            caller != old(self).spec_admin()
                ==> r == Err::<(), ContractError>(ContractError::Unauthorized)
                    && *final(self) == *old(self),
            caller == old(self).spec_admin() && !old(self).registered(id)
                ==> r == Err::<(), ContractError>(ContractError::NotFound)
                    && *final(self) == *old(self),
            caller == old(self).spec_admin() && old(self).registered(id)
                ==> r == Ok::<(), ContractError>(())
                    && final(self).reg() == old(self).reg().insert(id, new_reputation)
                    && final(self).tallies() == old(self).tallies()
                    && final(self).ledger() == old(self).ledger()
                    && final(self).round() == old(self).round()
                    && sum_rep(final(self).reg_seq()) == sum_rep(old(self).reg_seq())
                        + new_reputation - old(self).reg()[id],
    {
        if caller != self.admin {
            return Err(ContractError::Unauthorized);
        }
        if !self.contributors.contains(id) {
            return Err(ContractError::NotFound);
        }
        self.contributors.register(id, new_reputation);
        Ok(())
    }

    /// Resets the registry and the vote tallies to their baseline for the
    /// next cycle. Admin only. Ledger balances survive the reset.
    pub fn clear_reputation(&mut self, caller: AccountId) -> (r: Result<(), ContractError>)
        requires
            old(self).wf(),
        ensures
            final(self).wf(),
            final(self).spec_admin() == old(self).spec_admin(),
            caller != old(self).spec_admin()
                ==> r == Err::<(), ContractError>(ContractError::Unauthorized)
                    && *final(self) == *old(self),
            caller == old(self).spec_admin()
                ==> r == Ok::<(), ContractError>(())
                    && final(self).reg() == Map::<AccountId, u32>::empty()
                    && final(self).reg_seq().len() == 0
                    && final(self).tallies() == Map::<AccountId, i32>::empty()
                    && final(self).ledger() == old(self).ledger()
                    && final(self).round() == old(self).round(),
    {
        if caller != self.admin {
            return Err(ContractError::Unauthorized);
        }
        self.contributors.clear();
        self.votes.clear();
        Ok(())
    }

    /// Records a value transfer settled by the hosting ledger system into an
    /// account. A balance that would exceed the representable range is a
    /// hard failure with no effect.
    pub fn deposit(&mut self, id: AccountId, amount: Balance) -> (r: Result<Fund, ContractError>)
        requires
            old(self).wf(),
        ensures
            final(self).wf(),
            final(self).spec_admin() == old(self).spec_admin(),
            bal_or0(old(self).ledger(), id) + amount > u128::MAX
                ==> r == Err::<Fund, ContractError>(ContractError::ArithmeticOverflow)
                    && *final(self) == *old(self),
            bal_or0(old(self).ledger(), id) + amount <= u128::MAX
                ==> r == Ok::<Fund, ContractError>(
                    Fund { balance: (bal_or0(old(self).ledger(), id) + amount) as u128 },
                )
                    && final(self).ledger() == old(self).ledger().insert(
                        id,
                        (bal_or0(old(self).ledger(), id) + amount) as u128,
                    )
                    && final(self).reg() == old(self).reg()
                    && final(self).reg_seq() == old(self).reg_seq()
                    && final(self).tallies() == old(self).tallies()
                    && final(self).round() == old(self).round(),
    {
        let held: Balance = match self.balances.get(id) {
            Some(b) => b,
            None => 0,
        };
        if held > u128::MAX - amount {
            return Err(ContractError::ArithmeticOverflow);
        }
        let updated: Balance = held + amount;
        self.balances.set(id, updated);
        Ok(Fund { balance: updated })
    }

    /// Opens a voting round with a positive vote budget, pooling `founds`
    /// for distribution at close. Admin only, and only while no round is
    /// open; the admin's ledger balance must cover the funding.
    pub fn open_vouting_round(&mut self, caller: AccountId, votes: u32, founds: Balance)
        -> (r: Result<bool, ContractError>)
        requires
            old(self).wf(),
            !old(self).round().open,
        ensures
            final(self).wf(),
            final(self).spec_admin() == old(self).spec_admin(),
            caller != old(self).spec_admin()
                ==> r == Err::<bool, ContractError>(ContractError::Unauthorized)
                    && *final(self) == *old(self),
            caller == old(self).spec_admin() && votes == 0
                ==> r == Err::<bool, ContractError>(ContractError::InvalidBudget)
                    && *final(self) == *old(self),
            caller == old(self).spec_admin() && votes >= 1
                && bal_or0(old(self).ledger(), caller) < founds
                ==> r == Err::<bool, ContractError>(ContractError::InsufficientFunds)
                    && *final(self) == *old(self),
            caller == old(self).spec_admin() && votes >= 1
                && bal_or0(old(self).ledger(), caller) >= founds
                ==> r == Ok::<bool, ContractError>(true)
                    && final(self).round() == (VoutingRound { votes, open: true, balance: founds })
                    && final(self).reg() == old(self).reg()
                    && final(self).reg_seq() == old(self).reg_seq()
                    && final(self).tallies() == old(self).tallies()
                    && final(self).ledger() == old(self).ledger(),
    {
        if caller != self.admin {
            return Err(ContractError::Unauthorized);
        }
        if votes == 0 {
            return Err(ContractError::InvalidBudget);
        }
        let acount_balance_admin: Balance = match self.balances.get(caller) {
            Some(b) => b,
            None => 0,
        };
        if acount_balance_admin < founds {
            return Err(ContractError::InsufficientFunds);
        }
        self.vouting_round = VoutingRound { votes, open: true, balance: founds };
        Ok(true)
    }

    /// Casts a vote of signed magnitude `vote` on contributor `id`. Both the
    /// caller and the target must be registered, the round must be open with
    /// budget left, and the updated tally and reputation must be
    /// representable; otherwise the call fails with nothing applied. A
    /// completed vote consumes exactly one unit of the round's budget,
    /// accumulates the tally, and rewrites the target's reputation by the
    /// vote-weight rule. The returned notice also tells the hosting
    /// environment to have the credential minter issue a proof-of-vote token
    /// for the target.
    pub fn vote(&mut self, caller: AccountId, id: AccountId, vote: i32)
        -> (r: Result<Vote, ContractError>)
        requires
            old(self).wf(),
        ensures
            final(self).wf(),
            final(self).spec_admin() == old(self).spec_admin(),
            !old(self).registered(id) || !old(self).registered(caller)
                ==> r == Err::<Vote, ContractError>(ContractError::NotFound)
                    && *final(self) == *old(self),
            old(self).registered(id) && old(self).registered(caller) && !old(self).round().open
                ==> r == Err::<Vote, ContractError>(ContractError::RoundClosed)
                    && *final(self) == *old(self),
            old(self).registered(id) && old(self).registered(caller) && old(self).round().open
                && old(self).round().votes == 0
                ==> r == Err::<Vote, ContractError>(ContractError::BudgetExhausted)
                    && *final(self) == *old(self),
            ({
                let prior = tally_or0(old(self).tallies(), id);
                let outcome = engine::vote_rule_spec(
                    old(self).reg()[caller] as nat,
                    prior,
                    vote as int,
                );
                let fits = i32::MIN <= prior + vote <= i32::MAX && outcome <= u32::MAX;
                old(self).registered(id) && old(self).registered(caller)
                    && old(self).round().open && old(self).round().votes >= 1 ==> (if fits {
                    r == Ok::<Vote, ContractError>(Vote { contributor_id: id })
                        && final(self).tallies() == old(self).tallies().insert(
                        id,
                        (prior + vote) as i32,
                    )
                        && final(self).reg() == old(self).reg().insert(id, outcome as u32)
                        && sum_rep(final(self).reg_seq()) == sum_rep(old(self).reg_seq()) + outcome
                        - old(self).reg()[id]
                        && final(self).ledger() == old(self).ledger()
                        && final(self).round() == (VoutingRound {
                        votes: (old(self).round().votes - 1) as u32,
                        open: true,
                        balance: old(self).round().balance,
                    })
                } else {
                    r == Err::<Vote, ContractError>(ContractError::ArithmeticOverflow)
                        && *final(self) == *old(self)
                })
            }),
            r matches Ok(_) && old(self).reg().contains_key(caller) && old(self).reg()[caller] >= 1
                ==> final(self).reg().contains_key(id) && final(self).reg()[id] >= 1,
    {
        match self.contributors.reputation_of(id) {
            Some(_) => {},
            None => {
                return Err(ContractError::NotFound);
            },
        }
        let member: u32 = match self.contributors.reputation_of(caller) {
            Some(m) => m,
            None => {
                return Err(ContractError::NotFound);
            },
        };
        if !self.vouting_round.open {
            return Err(ContractError::RoundClosed);
        }
        if self.vouting_round.votes == 0 {
            return Err(ContractError::BudgetExhausted);
        }
        let prior: i32 = match self.votes.get(id) {
            Some(v) => v,
            None => 0,
        };
        let wide: i64 = prior as i64 + vote as i64;
        if wide > i32::MAX as i64 || wide < i32::MIN as i64 {
            return Err(ContractError::ArithmeticOverflow);
        }
        let new_reputation: u32 = match engine::vote_rule(member, prior, vote) {
            Ok(v) => v,
            Err(e) => {
                return Err(e);
            },
        };
        proof {
            if member >= 1 {
                engine::lemma_vote_rule_floor(member as nat, prior as int, vote as int);
            }
        }
        self.vouting_round.votes = self.vouting_round.votes - 1;
        self.votes.set(id, wide as i32);
        self.contributors.register(id, new_reputation);
        Ok(Vote { contributor_id: id })
    }

    /// Closes the round and distributes its pooled balance: every
    /// contributor is credited its reputation times the unit weight
    /// `balance / total`, the integer division discarding the remainder.
    /// Admin only, and only while a round is open; a zero total reputation
    /// leaves nothing to weight by, and a ledger balance that a credit would
    /// push past the representable range aborts the whole close. After a
    /// completed close the registry and the tallies are reset and the round
    /// is closed with nothing pooled; credited balances survive.
    #[verifier::loop_isolation(false)]
    pub fn close_vouting_round(&mut self, caller: AccountId) -> (r: Result<(), ContractError>)
        requires
            old(self).wf(),
        ensures
            final(self).wf(),
            final(self).spec_admin() == old(self).spec_admin(),
            caller != old(self).spec_admin()
                ==> r == Err::<(), ContractError>(ContractError::Unauthorized)
                    && *final(self) == *old(self),
            caller == old(self).spec_admin() && !old(self).round().open
                ==> r == Err::<(), ContractError>(ContractError::RoundNotOpen)
                    && *final(self) == *old(self),
            caller == old(self).spec_admin() && old(self).round().open
                && sum_rep(old(self).reg_seq()) == 0
                ==> r == Err::<(), ContractError>(ContractError::NothingToDistribute)
                    && *final(self) == *old(self),
            ({
                let total = sum_rep(old(self).reg_seq());
                let unit = old(self).round().balance as int / total;
                let overflow = exists|id: AccountId|
                    #[trigger] old(self).reg().contains_key(id) && bal_or0(old(self).ledger(), id)
                        + old(self).reg()[id] * unit > u128::MAX;
                caller == old(self).spec_admin() && old(self).round().open && total >= 1
                    ==> (if overflow {
                    r == Err::<(), ContractError>(ContractError::ArithmeticOverflow)
                        && *final(self) == *old(self)
                } else {
                    r == Ok::<(), ContractError>(())
                        && final(self).reg() == Map::<AccountId, u32>::empty()
                        && final(self).reg_seq().len() == 0
                        && sum_rep(final(self).reg_seq()) == 0
                        && final(self).tallies() == Map::<AccountId, i32>::empty()
                        && final(self).round() == (VoutingRound {
                        votes: 0,
                        open: false,
                        balance: 0,
                    })
                        && (forall|id: AccountId|
                        #[trigger] old(self).reg().contains_key(id)
                            ==> final(self).ledger().contains_key(id)
                            && final(self).ledger()[id] == bal_or0(old(self).ledger(), id) + old(
                        self,
                        ).reg()[id] * unit)
                        && (forall|id: AccountId|
                        !(#[trigger] old(self).reg().contains_key(id))
                            ==> (final(self).ledger().contains_key(id) <==> old(
                        self,
                        ).ledger().contains_key(id)) && (old(self).ledger().contains_key(id)
                            ==> final(self).ledger()[id] == old(self).ledger()[id]))
                        && 0 <= sum_credits(old(self).reg_seq(), unit)
                        && sum_credits(old(self).reg_seq(), unit) <= old(self).round().balance
                        && (sum_credits(old(self).reg_seq(), unit) == old(self).round().balance
                        <==> old(self).round().balance as int % total == 0)
                })
            }),
    {
        if caller != self.admin {
            return Err(ContractError::Unauthorized);
        }
        if !self.vouting_round.open {
            return Err(ContractError::RoundNotOpen);
        }
        let total: u128 = self.contributors.sum_reputation();
        if total == 0 {
            return Err(ContractError::NothingToDistribute);
        }
        let unit: Balance = self.vouting_round.balance / total;
        let ghost seq0 = self.reg_seq();
        let ghost reg0 = self.reg();
        let ghost led0 = self.ledger();
        let ghost tallies0 = self.tallies();
        let ghost round0 = self.round();
        proof {
            self.contributors.lemma_view();
        }
        let n: usize = self.contributors.count();
        // First pass, touching nothing: every credit must land within the
        // representable range, or the close aborts with no effect.
        let mut i: usize = 0;
        while i < n
            invariant
                i <= n,
                forall|j: int|
                    0 <= j < i ==> bal_or0(led0, (#[trigger] seq0[j]).contributor_id)
                        + seq0[j].reputation * (unit as int) <= u128::MAX,
            decreases n - i,
        {
            let c: Contributor = self.contributors.entry_at(i);
            proof {
                lemma_rep_le_sum(seq0, i as int);
                lemma_mul_inequality(c.reputation as int, total as int, unit as int);
                lemma_fundamental_div_mod(round0.balance as int, total as int);
                lemma_mod_bound(round0.balance as int, total as int);
            }
            let credit: u128 = (c.reputation as u128) * unit;
            let held: u128 = match self.balances.get(c.contributor_id) {
                Some(b) => b,
                None => 0,
            };
            if held > u128::MAX - credit {
                proof {
                    lemma_reg_map_index(seq0, i as int);
                }
                return Err(ContractError::ArithmeticOverflow);
            }
            i = i + 1;
        }
        proof {
            assert forall|id: AccountId| #[trigger] reg0.contains_key(id) implies bal_or0(led0, id)
                + reg0[id] * (unit as int) <= u128::MAX by {
                lemma_reg_map_contains(seq0, id);
                let j = choose|j: int|
                    0 <= j < seq0.len() && (#[trigger] seq0[j]).contributor_id == id;
                lemma_reg_map_index(seq0, j);
            }
        }
        // Second pass: apply the credits, one contributor at a time.
        let mut k: usize = 0;
        while k < n
            invariant
                k <= n,
                self.wf(),
                self.spec_admin() == old(self).spec_admin(),
                self.reg_seq() == seq0,
                self.reg() == reg0,
                self.tallies() == tallies0,
                self.round() == round0,
                forall|j: int|
                    0 <= j < k ==> self.ledger().contains_key(
                        (#[trigger] seq0[j]).contributor_id,
                    ) && self.ledger()[seq0[j].contributor_id] == bal_or0(
                        led0,
                        seq0[j].contributor_id,
                    ) + seq0[j].reputation * (unit as int),
                forall|j: int|
                    k <= j < n ==> bal_or0(self.ledger(), (#[trigger] seq0[j]).contributor_id)
                        == bal_or0(led0, seq0[j].contributor_id),
                forall|id: AccountId|
                    !(#[trigger] reg0.contains_key(id)) ==> (self.ledger().contains_key(id) <==> led0.contains_key(id))
                        && (led0.contains_key(id) ==> self.ledger()[id] == led0[id]),
            decreases n - k,
        {
            let c: Contributor = self.contributors.entry_at(k);
            proof {
                lemma_rep_le_sum(seq0, k as int);
                lemma_mul_inequality(c.reputation as int, total as int, unit as int);
                lemma_fundamental_div_mod(round0.balance as int, total as int);
                lemma_mod_bound(round0.balance as int, total as int);
                lemma_reg_map_index(seq0, k as int);
            }
            let credit: u128 = (c.reputation as u128) * unit;
            let held: u128 = match self.balances.get(c.contributor_id) {
                Some(b) => b,
                None => 0,
            };
            let updated: u128 = held + credit;
            self.balances.set(c.contributor_id, updated);
            k = k + 1;
        }
        self.contributors.clear();
        self.votes.clear();
        self.vouting_round = VoutingRound { votes: 0, open: false, balance: 0 };
        proof {
            lemma_distribution_bound(seq0, round0.balance as int);
            assert forall|id: AccountId| #[trigger] reg0.contains_key(id) implies self.ledger().contains_key(
                id,
            ) && self.ledger()[id] == bal_or0(led0, id) + reg0[id] * (unit as int) by {
                lemma_reg_map_contains(seq0, id);
                let j = choose|j: int|
                    0 <= j < seq0.len() && (#[trigger] seq0[j]).contributor_id == id;
                lemma_reg_map_index(seq0, j);
            }
        }
        Ok(())
    }
}

/// Floor invariant, carried across a whole run of votes: a completed vote
/// rewrites exactly the target's registry entry with a value of at least 1,
/// so a registry in which every reputation is at least 1 stays that way.
pub proof fn lemma_floor_preserved(reg: Map<AccountId, u32>, id: AccountId, value: u32)
    requires
        1 <= value,
        forall|k: AccountId| #[trigger] reg.contains_key(k) ==> 1 <= reg[k],
    ensures
        forall|k: AccountId| #[trigger] reg.insert(id, value).contains_key(k) ==> 1 <= reg.insert(
            id,
            value,
        )[k],
{
}

/// Distribution bound: with a positive total reputation, crediting every
/// contributor its reputation times the unit weight `balance / total` pays
/// out at most `balance`, with equality exactly when the total divides the
/// balance evenly.
pub proof fn lemma_distribution_bound(reg: Seq<Contributor>, balance: int)
    requires
        1 <= sum_rep(reg),
        0 <= balance,
    ensures
        0 <= sum_credits(reg, balance / sum_rep(reg)) <= balance,
        sum_credits(reg, balance / sum_rep(reg)) == balance <==> balance % sum_rep(reg) == 0,
{
    let t = sum_rep(reg);
    let w = balance / t;
    lemma_sum_credits_mul(reg, w);
    lemma_fundamental_div_mod(balance, t);
    lemma_mod_bound(balance, t);
    lemma_div_pos_is_pos(balance, t);
    assert(t * w >= 0) by (nonlinear_arith)
        requires
            t >= 1,
            w >= 0,
    ;
    assert(sum_credits(reg, w) == t * w) by {
        assert(sum_rep(reg) * w == t * w);
    }
}

} // verus!
