use vstd::prelude::*;

verus! {

use crate::AccountId;

/// An association table from account identities to plain values, with unique
/// keys. Backed by a vector of entries and viewed as a mathematical map.
pub struct Table<V> {
    entries: Vec<(AccountId, V)>,
}

/// The mathematical map a sequence of key-value entries holds.
pub open spec fn entries_map<V>(s: Seq<(AccountId, V)>) -> Map<AccountId, V>
    decreases s.len(),
{
    if s.len() == 0 {
        Map::empty()
    } else {
        entries_map(s.drop_last()).insert(s.last().0, s.last().1)
    }
}

/// No key occurs twice.
pub open spec fn keys_unique<V>(s: Seq<(AccountId, V)>) -> bool {
    forall|i: int, j: int| 0 <= i < j < s.len() ==> (#[trigger] s[i]).0 != (#[trigger] s[j]).0
}

/// A key is in the map exactly when some entry carries it.
pub proof fn lemma_entries_map_contains<V>(s: Seq<(AccountId, V)>, k: AccountId)
    ensures
        entries_map(s).contains_key(k) <==> exists|i: int|
            0 <= i < s.len() && (#[trigger] s[i]).0 == k,
    decreases s.len(),
{
    if s.len() > 0 {
        lemma_entries_map_contains(s.drop_last(), k);
        if s.last().0 == k {
            assert((s[s.len() - 1]).0 == k);
        } else if entries_map(s).contains_key(k) {
            let i = choose|i: int| 0 <= i < s.drop_last().len() && (#[trigger] s.drop_last()[i]).0
                == k;
            assert((s[i]).0 == k);
        } else {
            assert forall|i: int| 0 <= i < s.len() implies (#[trigger] s[i]).0 != k by {
                if i < s.len() - 1 {
                    assert(s.drop_last()[i] == s[i]);
                }
            }
        }
    }
}

/// Under unique keys, the map sends each entry's key to that entry's value.
pub proof fn lemma_entries_map_index<V>(s: Seq<(AccountId, V)>, i: int)
    requires
        keys_unique(s),
        0 <= i < s.len(),
    ensures
        entries_map(s).contains_key(s[i].0),
        entries_map(s)[s[i].0] == s[i].1,
    decreases s.len(),
{
    if i < s.len() - 1 {
        assert(keys_unique(s.drop_last())) by {
            assert(forall|a: int, b: int|
                0 <= a < b < s.drop_last().len() ==> (#[trigger] s.drop_last()[a]) == s[a]
                    && (#[trigger] s.drop_last()[b]) == s[b]);
        }
        lemma_entries_map_index(s.drop_last(), i);
        assert(s.drop_last()[i] == s[i]);
        assert(s.last().0 != s[i].0);
    }
}

impl<V: Copy> Table<V> {
    /// The entry sequence behind the table.
    pub closed spec fn entries_seq(&self) -> Seq<(AccountId, V)> {
        self.entries@
    }

    /// Well-formed: no key occurs twice.
    pub open spec fn wf(&self) -> bool {
        keys_unique(self.entries_seq())
    }

    /// An empty table.
    pub fn new() -> (t: Table<V>)
        ensures
            t.wf(),
            t@ == Map::<AccountId, V>::empty(),
            t.entries_seq().len() == 0,
    {
        Table { entries: Vec::new() }
    }

    /// The position of the entry carrying `id`, if any.
    fn index_of(&self, id: AccountId) -> (r: Option<usize>)
        ensures
            match r {
                Some(i) => i < self.entries_seq().len() && self.entries_seq()[i as int].0 == id,
                None => forall|i: int|
                    0 <= i < self.entries_seq().len() ==> (#[trigger] self.entries_seq()[i]).0
                        != id,
            },
    {
        let mut i: usize = 0;
        while i < self.entries.len()
            invariant
                i <= self.entries@.len(),
                forall|j: int| 0 <= j < i ==> (#[trigger] self.entries@[j]).0 != id,
            decreases self.entries@.len() - i,
        {
            if self.entries[i].0 == id {
                return Some(i);
            }
            i = i + 1;
        }
        None
    }

    /// The value stored under `id`, if any.
    pub fn get(&self, id: AccountId) -> (r: Option<V>)
        requires
            self.wf(),
        ensures
            r == (if self@.contains_key(id) {
                Some(self@[id])
            } else {
                None::<V>
            }),
    {
        proof {
            lemma_entries_map_contains(self.entries@, id);
        }
        match self.index_of(id) {
            Some(i) => {
                proof {
                    lemma_entries_map_index(self.entries@, i as int);
                }
                Some(self.entries[i].1)
            },
            None => None,
        }
    }

    /// Stores `v` under `id`, inserting or overwriting.
    pub fn set(&mut self, id: AccountId, v: V)
        requires
            old(self).wf(),
        ensures
            final(self).wf(),
            final(self)@ == old(self)@.insert(id, v),
    {
        match self.index_of(id) {
            Some(i) => {
                proof {
                    lemma_entries_map_set(self.entries@, i as int, v);
                }
                self.entries.set(i, (id, v));
            },
            None => {
                proof {
                    lemma_entries_map_push(self.entries@, id, v);
                }
                self.entries.push((id, v));
            },
        }
    }

    /// Deletes the entry under `id`; reports whether one was there.
    pub fn remove(&mut self, id: AccountId) -> (r: bool)
        requires
            old(self).wf(),
        ensures
            final(self).wf(),
            final(self)@ == old(self)@.remove(id),
            r == old(self)@.contains_key(id),
    {
        proof {
            lemma_entries_map_contains(self.entries@, id);
        }
        match self.index_of(id) {
            Some(i) => {
                proof {
                    lemma_entries_map_remove(self.entries@, i as int);
                }
                self.entries.remove(i);
                true
            },
            None => {
                proof {
                    assert(self@ =~= self@.remove(id));
                }
                false
            },
        }
    }

    /// Drops every entry.
    pub fn clear(&mut self)
        ensures
            final(self).wf(),
            final(self)@ == Map::<AccountId, V>::empty(),
            final(self).entries_seq().len() == 0,
    {
        self.entries.clear();
    }
}

impl<V> View for Table<V> {
    type V = Map<AccountId, V>;

    closed spec fn view(&self) -> Map<AccountId, V> {
        entries_map(self.entries@)
    }
}

/// Replacing the value of the entry at `i` updates the map at that key.
proof fn lemma_entries_map_set<V>(s: Seq<(AccountId, V)>, i: int, v: V)
    requires
        keys_unique(s),
        0 <= i < s.len(),
    ensures
        keys_unique(s.update(i, (s[i].0, v))),
        entries_map(s.update(i, (s[i].0, v))) == entries_map(s).insert(s[i].0, v),
    decreases s.len(),
{
    let k = s[i].0;
    let t = s.update(i, (k, v));
    assert(keys_unique(t)) by {
        assert(forall|a: int| 0 <= a < s.len() ==> (#[trigger] t[a]).0 == s[a].0);
    }
    if i == s.len() - 1 {
        assert(t.drop_last() =~= s.drop_last());
        assert(entries_map(t) =~= entries_map(s).insert(k, v));
    } else {
        assert(keys_unique(s.drop_last())) by {
            assert(forall|a: int|
                0 <= a < s.len() - 1 ==> (#[trigger] s.drop_last()[a]) == s[a]);
        }
        lemma_entries_map_set(s.drop_last(), i, v);
        assert(t.drop_last() =~= s.drop_last().update(i, (k, v)));
        assert(t.last() == s.last());
        assert(s.last().0 != k);
        assert(entries_map(t) =~= entries_map(s).insert(k, v));
    }
}

/// Appending an entry with a fresh key inserts it into the map.
proof fn lemma_entries_map_push<V>(s: Seq<(AccountId, V)>, id: AccountId, v: V)
    requires
        keys_unique(s),
        forall|i: int| 0 <= i < s.len() ==> (#[trigger] s[i]).0 != id,
    ensures
        keys_unique(s.push((id, v))),
        entries_map(s.push((id, v))) == entries_map(s).insert(id, v),
{
    let t = s.push((id, v));
    assert(keys_unique(t)) by {
        assert(forall|a: int| 0 <= a < s.len() ==> (#[trigger] t[a]) == s[a]);
        assert(t[s.len() as int].0 == id);
    }
    assert(t.drop_last() =~= s);
    assert(t.last() == (id, v));
}

/// Removing the entry at `i` removes its key from the map.
proof fn lemma_entries_map_remove<V>(s: Seq<(AccountId, V)>, i: int)
    requires
        keys_unique(s),
        0 <= i < s.len(),
    ensures
        keys_unique(s.remove(i)),
        entries_map(s.remove(i)) == entries_map(s).remove(s[i].0),
    decreases s.len(),
{
    let k = s[i].0;
    let t = s.remove(i);
    assert(keys_unique(t)) by {
        assert(forall|a: int|
            0 <= a < t.len() ==> (#[trigger] t[a]) == (if a < i {
                s[a]
            } else {
                s[a + 1]
            }));
    }
    lemma_entries_map_contains(s.drop_last(), k);
    if i == s.len() - 1 {
        assert(t =~= s.drop_last());
        assert(forall|a: int|
            0 <= a < s.len() - 1 ==> (#[trigger] s.drop_last()[a]).0 != k);
        assert(!entries_map(s.drop_last()).contains_key(k));
        assert(entries_map(t) =~= entries_map(s).remove(k));
    } else {
        assert(keys_unique(s.drop_last())) by {
            assert(forall|a: int|
                0 <= a < s.len() - 1 ==> (#[trigger] s.drop_last()[a]) == s[a]);
        }
        lemma_entries_map_remove(s.drop_last(), i);
        assert(t.drop_last() =~= s.drop_last().remove(i));
        assert(t.last() == s.last());
        assert(s.last().0 != k);
        assert(entries_map(t) =~= entries_map(s).remove(k));
    }
}

} // verus!
