//! A table from account identifiers to values: the per-account part of the pool's state.

use crate::types::AccountId;
use vstd::prelude::*;
use vstd::seq_lib::seq_to_set_is_finite;
use vstd::set_lib::lemma_set_subset_finite;

verus! {

/// A finite map from accounts to values of type `V`. Every account occurs at most once.
pub struct Mapping<V> {
    entries: Vec<(AccountId, V)>,
    model: Ghost<Map<AccountId, V>>,
}

/// Whether `entries` lists `map`: every account of the map once, with its value, and nothing
/// else.
pub open spec fn lists<V>(entries: Seq<(AccountId, V)>, map: Map<AccountId, V>) -> bool {
    &&& forall|i: int|
        0 <= i < entries.len() ==> {
            &&& map.contains_key(#[trigger] entries[i].0)
            &&& map[entries[i].0] == entries[i].1
        }
    &&& forall|key: AccountId| #[trigger]
        map.contains_key(key) ==> exists|i: int|
            0 <= i < entries.len() && (#[trigger] entries[i]).0 == key
    &&& forall|i: int, j: int|
        0 <= i < j < entries.len() ==> (#[trigger] entries[i]).0 != (#[trigger] entries[j]).0
}

/// The accounts that occur in a list of entries.
spec fn accounts_of<V>(entries: Seq<(AccountId, V)>) -> Set<AccountId> {
    entries.map_values(|entry: (AccountId, V)| entry.0).to_set()
}

impl<V> View for Mapping<V> {
    type V = Map<AccountId, V>;

    closed spec fn view(&self) -> Map<AccountId, V> {
        self.model@.restrict(accounts_of(self.entries@))
    }
}

impl<V> Mapping<V> {
    /// The table holds each account of its view once, with the value the view gives it, and
    /// nothing else.
    #[verifier::type_invariant]
    spec fn wf(&self) -> bool {
        lists(self.entries@, self.model@)
    }

    /// A table has finitely many accounts.
    pub proof fn lemma_finite(&self)
        ensures
            self@.dom().finite(),
    {
        seq_to_set_is_finite(self.entries@.map_values(|entry: (AccountId, V)| entry.0));
        lemma_set_subset_finite(accounts_of(self.entries@), self@.dom());
    }

    /// The view of a well-formed table is what its entries list.
    proof fn lemma_view(&self)
        requires
            self.wf(),
        ensures
            self@ == self.model@,
            lists(self.entries@, self@),
    {
        let keys = self.entries@.map_values(|entry: (AccountId, V)| entry.0);
        assert forall|key: AccountId| #[trigger] self.model@.contains_key(key) implies accounts_of(
            self.entries@,
        ).contains(key) by {
            let i = choose|i: int|
                0 <= i < self.entries@.len() && (#[trigger] self.entries@[i]).0 == key;
            assert(keys[i] == key);
        }
        assert(self@ =~= self.model@);
    }
}

impl<V: Copy> Mapping<V> {
    /// The empty table.
    pub fn new() -> (table: Self)
        ensures
            table@ == Map::<AccountId, V>::empty(),
    {
        let table = Mapping { entries: Vec::new(), model: Ghost(Map::empty()) };
        proof {
            table.lemma_view();
        }
        table
    }

    /// The accounts of the table with their values, each account once, in no order that
    /// means anything.
    pub fn entries(&self) -> (entries: &Vec<(AccountId, V)>)
        ensures
            lists(entries@, self@),
    {
        proof {
            use_type_invariant(self);
            self.lemma_view();
        }
        &self.entries
    }

    /// A copy of the table.
    pub fn snapshot(&self) -> (copy: Self)
        ensures
            copy@ == self@,
    {
        proof {
            use_type_invariant(self);
            self.lemma_view();
        }
        let mut entries: Vec<(AccountId, V)> = Vec::new();
        let mut i: usize = 0;
        while i < self.entries.len()
            invariant
                i <= self.entries@.len(),
                entries@ == self.entries@.take(i as int),
            decreases self.entries@.len() - i,
        {
            entries.push(self.entries[i]);
            i += 1;
        }
        proof {
            assert(entries@ =~= self.entries@);
        }
        let copy = Mapping { entries, model: Ghost(self.model@) };
        proof {
            copy.lemma_view();
        }
        copy
    }

    /// Where `key` stands in `entries`, if it does.
    fn position(entries: &Vec<(AccountId, V)>, key: &AccountId) -> (at: Option<usize>)
        ensures
            at matches Some(i) ==> i < entries@.len() && entries@[i as int].0 == *key,
            at is None ==> forall|j: int| 0 <= j < entries@.len() ==> (#[trigger] entries@[j]).0
                != *key,
    {
        let mut i: usize = 0;
        while i < entries.len()
            invariant
                i <= entries@.len(),
                forall|j: int| 0 <= j < i ==> (#[trigger] entries@[j]).0 != *key,
            decreases entries@.len() - i,
        {
            if entries[i].0 == *key {
                return Some(i);
            }
            i += 1;
        }
        None
    }

    /// The value of `key`, or `None` where the table holds none.
    pub fn get(&self, key: &AccountId) -> (value: Option<V>)
        ensures
            value == (if self@.contains_key(*key) {
                Some(self@[*key])
            } else {
                None
            }),
    {
        proof {
            use_type_invariant(self);
            self.lemma_view();
        }
        match Self::position(&self.entries, key) {
            Some(i) => Some(self.entries[i].1),
            None => None,
        }
    }

    /// Gives `key` the value `value`, whether or not it had one.
    pub fn insert(&mut self, key: AccountId, value: V)
        ensures
            final(self)@ == old(self)@.insert(key, value),
    {
        proof {
            use_type_invariant(&*self);
            self.lemma_view();
        }
        let mut taken: Mapping<V> = Mapping::new();
        std::mem::swap(self, &mut taken);
        let Mapping { entries, model } = taken;
        let mut entries = entries;
        let ghost before = entries@;
        match Self::position(&entries, &key) {
            Some(i) => {
                entries[i] = (key, value);
            },
            None => {
                entries.push((key, value));
            },
        }
        let ghost after = model@.insert(key, value);
        proof {
            assert forall|k: AccountId| #[trigger] after.contains_key(k) implies exists|i: int|
                0 <= i < entries@.len() && (#[trigger] entries@[i]).0 == k by {
                if model@.contains_key(k) {
                    let i = choose|i: int| 0 <= i < before.len() && (#[trigger] before[i]).0 == k;
                    assert(entries@[i].0 == k);
                } else {
                    assert(entries@[entries@.len() - 1].0 == key);
                }
            }
        }
        let updated = Mapping { entries, model: Ghost(after) };
        proof {
            updated.lemma_view();
        }
        *self = updated;
    }
}

} // verus!
