//! Hash-table storage for the transition table and for state enumeration.
//!
//! The machine keeps its transitions in a `hashbrown` hash map keyed by
//! `(event, source state)` pairs, and derives its set of known states with a
//! `hashbrown` hash set. Verus cannot read those collections, so each lives in
//! a private field of a struct here, its contents are given a name
//! ([`table_entries`], [`set_elems`]), and every method the machine calls is a
//! trusted wrapper whose contract speaks over that name.

use vstd::prelude::*;

verus! {

/// A transition table: a `hashbrown` hash map from `(event, source state)` to
/// destination state.
#[verifier::external_body]
pub struct TransitionTable {
    map: hashbrown::HashMap<(u64, u64), u64>,
}

/// The entries a [`TransitionTable`] holds, as a map from `(event, source
/// state)` keys to destination states.
pub uninterp spec fn table_entries(t: TransitionTable) -> Map<(u64, u64), u64>;

/// The contents of a transition table with nothing defined.
pub open spec fn no_transitions() -> Map<(u64, u64), u64> {
    Map::empty()
}

impl TransitionTable {
    /// Relies on `hashbrown::HashMap::new`: the new map is empty.
    #[verifier::external_body]
    pub fn new() -> (r: TransitionTable)
        ensures
            table_entries(r) == no_transitions(),
    {
        TransitionTable { map: hashbrown::HashMap::new() }
    }

    /// Relies on `hashbrown::HashMap::insert`: the entry for `key` is added,
    /// replacing any previous entry for the same key.
    #[verifier::external_body]
    pub fn insert(&mut self, key: (u64, u64), value: u64)
        ensures
            table_entries(*final(self)) == table_entries(*old(self)).insert(key, value),
    {
        self.map.insert(key, value);
    }

    /// Relies on `hashbrown::HashMap::get`: the value stored for `key`, if any.
    #[verifier::external_body]
    pub fn get(&self, key: (u64, u64)) -> (r: Option<u64>)
        ensures
            r == if table_entries(*self).dom().contains(key) {
                Some(table_entries(*self)[key])
            } else {
                None::<u64>
            },
    {
        self.map.get(&key).copied()
    }

    /// Relies on `hashbrown::HashMap::iter`: every entry is yielded exactly
    /// once, in no promised order.
    #[verifier::external_body]
    pub fn entries(&self) -> (r: Vec<((u64, u64), u64)>)
        ensures
            forall|i: int|
                0 <= i < r@.len() ==> #[trigger] table_entries(*self).contains_pair(
                    r@[i].0,
                    r@[i].1,
                ),
            forall|key: (u64, u64)|
                #[trigger] table_entries(*self).dom().contains(key) ==> exists|i: int|
                    0 <= i < r@.len() && r@[i].0 == key,
            forall|i: int, j: int| 0 <= i < j < r@.len() ==> r@[i].0 != r@[j].0,
    {
        self.map.iter().map(|(key, value)| (*key, *value)).collect()
    }
}

/// A set of states: a `hashbrown` hash set of state values.
#[verifier::external_body]
pub struct StateSet {
    set: hashbrown::HashSet<u64>,
}

/// The states a [`StateSet`] holds.
pub uninterp spec fn set_elems(s: StateSet) -> Set<u64>;

impl StateSet {
    /// Relies on `hashbrown::HashSet::new`: the new set is empty.
    #[verifier::external_body]
    pub fn new() -> (r: StateSet)
        ensures
            set_elems(r) == Set::<u64>::empty(),
    {
        StateSet { set: hashbrown::HashSet::new() }
    }

    /// Relies on `hashbrown::HashSet::insert`: `value` is added; nothing else
    /// changes.
    #[verifier::external_body]
    pub fn insert(&mut self, value: u64)
        ensures
            set_elems(*final(self)) == set_elems(*old(self)).insert(value),
    {
        self.set.insert(value);
    }

    /// Relies on `hashbrown::HashSet::iter`: every element is yielded exactly
    /// once, in no promised order.
    #[verifier::external_body]
    pub fn to_vec(&self) -> (r: Vec<u64>)
        ensures
            r@.no_duplicates(),
            forall|s: u64| #[trigger] r@.contains(s) <==> set_elems(*self).contains(s),
    {
        self.set.iter().copied().collect()
    }
}

} // verus!
