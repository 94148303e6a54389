use vstd::prelude::*;

verus! {

use crate::AccountId;

/// A discrete convenience tier layered over the open numeric reputation
/// scale.
#[derive(Clone, Copy, Debug, PartialEq, Eq, Structural)]
pub enum Reputation {
    Easy,
    Medium,
    Hard,
}

impl Reputation {
    /// The numeric weight of the tier.
    pub open spec fn score_spec(&self) -> u32 {
        match self {
            Reputation::Easy => 0,
            Reputation::Medium => 1,
            Reputation::Hard => 2,
        }
    }

    /// The numeric weight of the tier.
    pub fn score(&self) -> (s: u32)
        ensures
            s == self.score_spec(),
    {
        match self {
            Reputation::Easy => 0,
            Reputation::Medium => 1,
            Reputation::Hard => 2,
        }
    }
}

/// A registered identity together with its reputation score.
#[derive(Clone, Copy, Debug, PartialEq, Eq, Structural)]
pub struct Contributor {
    pub contributor_id: AccountId,
    pub reputation: u32,
}

/// The mapping a sequence of contributor records holds.
pub open spec fn reg_map(s: Seq<Contributor>) -> Map<AccountId, u32>
    decreases s.len(),
{
    if s.len() == 0 {
        Map::empty()
    } else {
        reg_map(s.drop_last()).insert(s.last().contributor_id, s.last().reputation)
    }
}

/// No identity occurs twice.
pub open spec fn ids_unique(s: Seq<Contributor>) -> bool {
    forall|i: int, j: int|
        0 <= i < j < s.len() ==> (#[trigger] s[i]).contributor_id != (
        #[trigger] s[j]).contributor_id
}

/// The total reputation held by a sequence of contributor records.
pub open spec fn sum_rep(s: Seq<Contributor>) -> int
    decreases s.len(),
{
    if s.len() == 0 {
        0
    } else {
        sum_rep(s.drop_last()) + s.last().reputation
    }
}

/// The total credited when each record receives its reputation times the unit
/// weight `w`.
pub open spec fn sum_credits(s: Seq<Contributor>, w: int) -> int
    decreases s.len(),
{
    if s.len() == 0 {
        0
    } else {
        sum_credits(s.drop_last(), w) + s.last().reputation * w
    }
}

/// An identity is registered exactly when some record carries it.
pub proof fn lemma_reg_map_contains(s: Seq<Contributor>, k: AccountId)
    ensures
        reg_map(s).contains_key(k) <==> exists|i: int|
            0 <= i < s.len() && (#[trigger] s[i]).contributor_id == k,
    decreases s.len(),
{
    if s.len() > 0 {
        lemma_reg_map_contains(s.drop_last(), k);
        if s.last().contributor_id == k {
            assert((s[s.len() - 1]).contributor_id == k);
        } else if reg_map(s).contains_key(k) {
            let i = choose|i: int|
                0 <= i < s.drop_last().len() && (#[trigger] s.drop_last()[i]).contributor_id == k;
            assert((s[i]).contributor_id == k);
        } else {
            assert forall|i: int| 0 <= i < s.len() implies (#[trigger] s[i]).contributor_id
                != k by {
                if i < s.len() - 1 {
                    assert(s.drop_last()[i] == s[i]);
                }
            }
        }
    }
}

/// Under unique identities, the mapping sends each record's identity to its
/// reputation.
pub proof fn lemma_reg_map_index(s: Seq<Contributor>, i: int)
    requires
        ids_unique(s),
        0 <= i < s.len(),
    ensures
        reg_map(s).contains_key(s[i].contributor_id),
        reg_map(s)[s[i].contributor_id] == s[i].reputation,
    decreases s.len(),
{
    if i < s.len() - 1 {
        assert(ids_unique(s.drop_last())) by {
            assert(forall|a: int| 0 <= a < s.len() - 1 ==> (#[trigger] s.drop_last()[a]) == s[a]);
        }
        lemma_reg_map_index(s.drop_last(), i);
        assert(s.drop_last()[i] == s[i]);
        assert(s.last().contributor_id != s[i].contributor_id);
    }
}

/// A total over reputations is never negative.
pub proof fn lemma_sum_rep_nonneg(s: Seq<Contributor>)
    ensures
        0 <= sum_rep(s),
    decreases s.len(),
{
    if s.len() > 0 {
        lemma_sum_rep_nonneg(s.drop_last());
    }
}

/// Each record's reputation is at most the total.
pub proof fn lemma_rep_le_sum(s: Seq<Contributor>, i: int)
    requires
        0 <= i < s.len(),
    ensures
        s[i].reputation <= sum_rep(s),
    decreases s.len(),
{
    if i == s.len() - 1 {
        lemma_sum_rep_nonneg(s.drop_last());
    } else {
        lemma_rep_le_sum(s.drop_last(), i);
        assert(s.drop_last()[i] == s[i]);
    }
}

/// Crediting every record with its reputation times `w` pays out exactly the
/// total reputation times `w`.
pub proof fn lemma_sum_credits_mul(s: Seq<Contributor>, w: int)
    ensures
        sum_credits(s, w) == sum_rep(s) * w,
    decreases s.len(),
{
    if s.len() == 0 {
        assert(sum_rep(s) * w == 0) by (nonlinear_arith)
            requires
                sum_rep(s) == 0,
        ;
    } else {
        lemma_sum_credits_mul(s.drop_last(), w);
        assert((sum_rep(s.drop_last()) + s.last().reputation) * w == sum_rep(s.drop_last()) * w
            + s.last().reputation * w) by (nonlinear_arith);
    }
}

/// Replacing the record at `i` shifts the total by the difference of the two
/// scores.
proof fn lemma_sum_rep_update(s: Seq<Contributor>, i: int, c: Contributor)
    requires
        0 <= i < s.len(),
    ensures
        sum_rep(s.update(i, c)) == sum_rep(s) - s[i].reputation + c.reputation,
    decreases s.len(),
{
    if i == s.len() - 1 {
        assert(s.update(i, c).drop_last() =~= s.drop_last());
        assert(s.update(i, c).last() == c);
    } else {
        lemma_sum_rep_update(s.drop_last(), i, c);
        assert(s.update(i, c).drop_last() =~= s.drop_last().update(i, c));
        assert(s.update(i, c).last() == s.last());
    }
}

/// Removing the record at `i` takes exactly its score out of the total.
proof fn lemma_sum_rep_remove(s: Seq<Contributor>, i: int)
    requires
        0 <= i < s.len(),
    ensures
        sum_rep(s.remove(i)) == sum_rep(s) - s[i].reputation,
    decreases s.len(),
{
    if i == s.len() - 1 {
        assert(s.remove(i) =~= s.drop_last());
    } else {
        lemma_sum_rep_remove(s.drop_last(), i);
        assert(s.remove(i).drop_last() =~= s.drop_last().remove(i));
        assert(s.remove(i).last() == s.last());
    }
}

/// The registry of contributors: each registered identity with its
/// reputation, keyed uniquely.
pub struct ContributorRegistry {
    entries: Vec<Contributor>,
}

impl ContributorRegistry {
    /// The record sequence behind the registry.
    pub closed spec fn entries_seq(&self) -> Seq<Contributor> {
        self.entries@
    }

    /// Well-formed: no identity occurs twice.
    pub open spec fn wf(&self) -> bool {
        ids_unique(self.entries_seq())
    }

    /// The view is the mapping its records hold.
    pub proof fn lemma_view(&self)
        ensures
            self@ == reg_map(self.entries_seq()),
    {
    }

    /// An empty registry.
    pub fn new() -> (r: ContributorRegistry)
        ensures
            r.wf(),
            r@ == Map::<AccountId, u32>::empty(),
            r.entries_seq().len() == 0,
    {
        ContributorRegistry { entries: Vec::new() }
    }

    /// The position of the record carrying `id`, if any.
    fn index_of(&self, id: AccountId) -> (r: Option<usize>)
        ensures
            match r {
                Some(i) => i < self.entries_seq().len() && self.entries_seq()[i as int].contributor_id == id,
                None => forall|i: int|
                    0 <= i < self.entries_seq().len() ==> (
                    #[trigger] self.entries_seq()[i]).contributor_id != id,
            },
    {
        let mut i: usize = 0;
        while i < self.entries.len()
            invariant
                i <= self.entries@.len(),
                forall|j: int| 0 <= j < i ==> (#[trigger] self.entries@[j]).contributor_id != id,
            decreases self.entries@.len() - i,
        {
            if self.entries[i].contributor_id == id {
                return Some(i);
            }
            i = i + 1;
        }
        None
    }

    /// Whether `id` is registered.
    pub fn contains(&self, id: AccountId) -> (r: bool)
        requires
            self.wf(),
        ensures
            r == self@.contains_key(id),
    {
        proof {
            lemma_reg_map_contains(self.entries@, id);
        }
        match self.index_of(id) {
            Some(_) => true,
            None => false,
        }
    }

    /// The reputation registered under `id`, if any.
    pub fn reputation_of(&self, id: AccountId) -> (r: Option<u32>)
        requires
            self.wf(),
        ensures
            r == (if self@.contains_key(id) {
                Some(self@[id])
            } else {
                None::<u32>
            }),
    {
        proof {
            lemma_reg_map_contains(self.entries@, id);
        }
        match self.index_of(id) {
            Some(i) => {
                proof {
                    lemma_reg_map_index(self.entries@, i as int);
                }
                Some(self.entries[i].reputation)
            },
            None => None,
        }
    }

    /// Registers `id` with `reputation`, inserting or overwriting.
    pub fn register(&mut self, id: AccountId, reputation: u32)
        requires
            old(self).wf(),
        ensures
            final(self).wf(),
            final(self)@ == old(self)@.insert(id, reputation),
            sum_rep(final(self).entries_seq()) == sum_rep(old(self).entries_seq()) + reputation - (
            if old(self)@.contains_key(id) {
                old(self)@[id] as int
            } else {
                0
            }),
    {
        proof {
            lemma_reg_map_contains(self.entries@, id);
        }
        match self.index_of(id) {
            Some(i) => {
                proof {
                    lemma_reg_map_index(self.entries@, i as int);
                    lemma_reg_map_set(self.entries@, i as int, reputation);
                    lemma_sum_rep_update(
                        self.entries@,
                        i as int,
                        Contributor { contributor_id: id, reputation },
                    );
                }
                self.entries.set(i, Contributor { contributor_id: id, reputation });
            },
            None => {
                proof {
                    lemma_reg_map_push(self.entries@, id, reputation);
                    assert(self.entries@.push(
                        Contributor { contributor_id: id, reputation },
                    ).drop_last() =~= self.entries@);
                }
                self.entries.push(Contributor { contributor_id: id, reputation });
            },
        }
    }

    /// Deletes the record under `id`; reports whether one was there.
    pub fn remove(&mut self, id: AccountId) -> (r: bool)
        requires
            old(self).wf(),
        ensures
            final(self).wf(),
            final(self)@ == old(self)@.remove(id),
            r == old(self)@.contains_key(id),
            sum_rep(final(self).entries_seq()) == sum_rep(old(self).entries_seq()) - (
            if old(self)@.contains_key(id) {
                old(self)@[id] as int
            } else {
                0
            }),
    {
        proof {
            lemma_reg_map_contains(self.entries@, id);
        }
        match self.index_of(id) {
            Some(i) => {
                proof {
                    lemma_reg_map_index(self.entries@, i as int);
                    lemma_reg_map_remove(self.entries@, i as int);
                    lemma_sum_rep_remove(self.entries@, i as int);
                }
                self.entries.remove(i);
                true
            },
            None => {
                proof {
                    assert(self@ =~= self@.remove(id));
                }
                false
            },
        }
    }

    /// Drops every record.
    pub fn clear(&mut self)
        ensures
            final(self).wf(),
            final(self)@ == Map::<AccountId, u32>::empty(),
            final(self).entries_seq().len() == 0,
    {
        self.entries.clear();
    }

    /// How many contributors are registered.
    pub fn count(&self) -> (n: usize)
        ensures
            n == self.entries_seq().len(),
    {
        self.entries.len()
    }

    /// The record at position `i`.
    pub fn entry_at(&self, i: usize) -> (c: Contributor)
        requires
            i < self.entries_seq().len(),
        ensures
            c == self.entries_seq()[i as int],
    {
        self.entries[i]
    }

    /// Sums the reputation of every registered contributor.
    pub fn sum_reputation(&self) -> (total: u128)
        ensures
            total as int == sum_rep(self.entries_seq()),
    {
        let n: usize = self.entries.len();
        let mut total: u128 = 0;
        let mut i: usize = 0;
        while i < n
            invariant
                i <= n,
                n == self.entries@.len(),
                total as int == sum_rep(self.entries@.subrange(0, i as int)),
                total as int <= i * 0xFFFF_FFFF,
            decreases n - i,
        {
            proof {
                assert(self.entries@.subrange(0, i + 1 as int).drop_last() =~= self.entries@
                    .subrange(0, i as int));
                assert(self.entries@.subrange(0, i + 1 as int).last() == self.entries@[i as int]);
            }
            total = total + self.entries[i].reputation as u128;
            i = i + 1;
        }
        proof {
            assert(self.entries@.subrange(0, n as int) =~= self.entries@);
        }
        total
    }
}

impl View for ContributorRegistry {
    type V = Map<AccountId, u32>;

    closed spec fn view(&self) -> Map<AccountId, u32> {
        reg_map(self.entries@)
    }
}

/// Replacing the reputation of the record at `i` updates the mapping at that
/// identity.
proof fn lemma_reg_map_set(s: Seq<Contributor>, i: int, reputation: u32)
    requires
        ids_unique(s),
        0 <= i < s.len(),
    ensures
        ids_unique(s.update(i, Contributor { contributor_id: s[i].contributor_id, reputation })),
        reg_map(s.update(i, Contributor { contributor_id: s[i].contributor_id, reputation }))
            == reg_map(s).insert(s[i].contributor_id, reputation),
    decreases s.len(),
{
    let k = s[i].contributor_id;
    let t = s.update(i, Contributor { contributor_id: k, reputation });
    assert(ids_unique(t)) by {
        assert(forall|a: int|
            0 <= a < s.len() ==> (#[trigger] t[a]).contributor_id == s[a].contributor_id);
    }
    if i == s.len() - 1 {
        assert(t.drop_last() =~= s.drop_last());
        assert(reg_map(t) =~= reg_map(s).insert(k, reputation));
    } else {
        assert(ids_unique(s.drop_last())) by {
            assert(forall|a: int| 0 <= a < s.len() - 1 ==> (#[trigger] s.drop_last()[a]) == s[a]);
        }
        lemma_reg_map_set(s.drop_last(), i, reputation);
        assert(t.drop_last() =~= s.drop_last().update(i, Contributor { contributor_id: k, reputation }));
        assert(t.last() == s.last());
        assert(s.last().contributor_id != k);
        assert(reg_map(t) =~= reg_map(s).insert(k, reputation));
    }
}

/// Appending a record with a fresh identity inserts it into the mapping.
proof fn lemma_reg_map_push(s: Seq<Contributor>, id: AccountId, reputation: u32)
    requires
        ids_unique(s),
        forall|i: int| 0 <= i < s.len() ==> (#[trigger] s[i]).contributor_id != id,
    ensures
        ids_unique(s.push(Contributor { contributor_id: id, reputation })),
        reg_map(s.push(Contributor { contributor_id: id, reputation })) == reg_map(s).insert(
            id,
            reputation,
        ),
{
    let t = s.push(Contributor { contributor_id: id, reputation });
    assert(ids_unique(t)) by {
        assert(forall|a: int| 0 <= a < s.len() ==> (#[trigger] t[a]) == s[a]);
        assert(t[s.len() as int].contributor_id == id);
    }
    assert(t.drop_last() =~= s);
    assert(t.last() == Contributor { contributor_id: id, reputation });
}

/// Removing the record at `i` removes its identity from the mapping.
proof fn lemma_reg_map_remove(s: Seq<Contributor>, i: int)
    requires
        ids_unique(s),
        0 <= i < s.len(),
    ensures
        ids_unique(s.remove(i)),
        reg_map(s.remove(i)) == reg_map(s).remove(s[i].contributor_id),
    decreases s.len(),
{
    let k = s[i].contributor_id;
    let t = s.remove(i);
    assert(ids_unique(t)) by {
        assert(forall|a: int|
            0 <= a < t.len() ==> (#[trigger] t[a]) == (if a < i {
                s[a]
            } else {
                s[a + 1]
            }));
    }
    lemma_reg_map_contains(s.drop_last(), k);
    if i == s.len() - 1 {
        assert(t =~= s.drop_last());
        assert(forall|a: int|
            0 <= a < s.len() - 1 ==> (#[trigger] s.drop_last()[a]).contributor_id != k);
        assert(!reg_map(s.drop_last()).contains_key(k));
        assert(reg_map(t) =~= reg_map(s).remove(k));
    } else {
        assert(ids_unique(s.drop_last())) by {
            assert(forall|a: int| 0 <= a < s.len() - 1 ==> (#[trigger] s.drop_last()[a]) == s[a]);
        }
        lemma_reg_map_remove(s.drop_last(), i);
        assert(t.drop_last() =~= s.drop_last().remove(i));
        assert(t.last() == s.last());
        assert(s.last().contributor_id != k);
        assert(reg_map(t) =~= reg_map(s).remove(k));
    }
}

} // verus!
