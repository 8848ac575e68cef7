//! The deleted edges of a changeset: source to the set of destinations, kept
//! in a `hashbrown::HashMap` of [`IdSet`]s.
//!
//! Verus does not look inside the map. What it holds is named by
//! [`sets_of`], which gives each source its destinations as a mathematical
//! set, and the functions at the end of this file say, without proof, what
//! each `hashbrown` method does to it.

use crate::id_set::{counts, ids_of, IdSet};
use vstd::prelude::*;

verus! {

/// Source to the set of destinations.
#[verifier::external_body]
#[derive(Debug)]
pub struct EdgeSetTable {
    pub(crate) sets: hashbrown::HashMap<u128, IdSet>,
}

/// The destinations that a table holds for each source.
pub uninterp spec fn sets_of(table: EdgeSetTable) -> Map<u128, Set<u128>>;

/// The destinations of `from` in `sets`, none where `from` has no entry.
pub open spec fn set_or_empty(sets: Map<u128, Set<u128>>, from: u128) -> Set<u128> {
    if sets.contains_key(from) {
        sets[from]
    } else {
        Set::empty()
    }
}

impl View for EdgeSetTable {
    type V = Map<u128, Set<u128>>;

    open spec fn view(&self) -> Map<u128, Set<u128>> {
        sets_of(*self)
    }
}

impl EdgeSetTable {
    /// The empty table.
    pub fn new() -> (table: EdgeSetTable)
        ensures
            table@ == Map::<u128, Set<u128>>::empty(),
    {
        sets_new()
    }

    /// The number of sources that have an entry.
    pub fn len(&self) -> (count: usize)
        ensures
            counts(self@.dom(), count),
    {
        sets_len(self)
    }

    /// Whether no source has an entry.
    pub fn is_empty(&self) -> (empty: bool)
        ensures
            empty <==> self@ == Map::<u128, Set<u128>>::empty(),
    {
        sets_is_empty(self)
    }

    /// The destinations of `from`, if it has an entry.
    pub fn get(&self, from: &u128) -> (found: Option<&IdSet>)
        ensures
            match found {
                Some(set) => self@.contains_key(*from) && set@ == self@[*from],
                None => !self@.contains_key(*from),
            },
    {
        sets_get(self, from)
    }

    /// The destinations of `from`, to be changed in place, if it has an entry.
    /// What the caller leaves in the set is what the table holds for `from`
    /// afterwards.
    pub fn get_mut(&mut self, from: &u128) -> (found: Option<&mut IdSet>)
        ensures
            match found {
                Some(set) => old(self)@.contains_key(*from) && set@ == old(self)@[*from]
                    && final(self)@ == old(self)@.insert(*from, final(set)@),
                None => !old(self)@.contains_key(*from) && final(self)@ == old(self)@,
            },
    {
        sets_get_mut(self, from)
    }

    /// The destinations of `from`, to be changed in place; an empty set is
    /// made where `from` had no entry.
    pub fn entry_or_default(&mut self, from: u128) -> (set: &mut IdSet)
        ensures
            set@ == set_or_empty(old(self)@, from),
            final(self)@ == old(self)@.insert(from, final(set)@),
    {
        sets_entry_or_default(self, from)
    }

    /// Takes the entry of `from` out of the table and returns its set.
    pub fn remove(&mut self, from: &u128) -> (taken: Option<IdSet>)
        ensures
            final(self)@ == old(self)@.remove(*from),
            match taken {
                Some(set) => old(self)@.contains_key(*from) && set@ == old(self)@[*from],
                None => !old(self)@.contains_key(*from),
            },
    {
        sets_remove(self, from)
    }

    /// Empties the table.
    pub fn clear(&mut self)
        ensures
            final(self)@ == Map::<u128, Set<u128>>::empty(),
    {
        sets_clear(self)
    }

    /// The sources that have an entry, each once, in the order in which the
    /// table happens to hold them.
    pub fn keys(&self) -> (keys: Vec<u128>)
        ensures
            keys@.no_duplicates(),
            keys@.to_set() == self@.dom(),
    {
        sets_keys(self)
    }
}

impl PartialEq for EdgeSetTable {
    /// Two tables are equal where they hold the same entries, in whatever
    /// order they were filled.
    fn eq(&self, other: &EdgeSetTable) -> (equal: bool) {
        sets_eq(self, other)
    }
}

impl vstd::std_specs::cmp::PartialEqSpecImpl for EdgeSetTable {
    open spec fn obeys_eq_spec() -> bool {
        true
    }

    open spec fn eq_spec(&self, other: &EdgeSetTable) -> bool {
        self@ == other@
    }
}

impl Clone for EdgeSetTable {
    fn clone(&self) -> (copy: EdgeSetTable)
        ensures
            copy@ == self@,
    {
        sets_clone(self)
    }
}

/// `hashbrown::HashMap::new`: the map that it makes holds nothing.
#[verifier::external_body]
fn sets_new() -> (table: EdgeSetTable)
    ensures
        sets_of(table) == (Map::<u128, Set<u128>>::empty()),
{
    EdgeSetTable { sets: hashbrown::HashMap::new() }
}

/// `hashbrown::HashMap::len`: the number of entries, which is finite.
#[verifier::external_body]
fn sets_len(table: &EdgeSetTable) -> (count: usize)
    ensures
        counts(sets_of(*table).dom(), count),
{
    table.sets.len()
}

/// `hashbrown::HashMap::is_empty`: true exactly when there is no entry.
#[verifier::external_body]
fn sets_is_empty(table: &EdgeSetTable) -> (empty: bool)
    ensures
        empty == (sets_of(*table) == (Map::<u128, Set<u128>>::empty())),
{
    table.sets.is_empty()
}

/// `hashbrown::HashMap::get`: a reference to the value of the key's entry,
/// or `None` where the key has none.
#[verifier::external_body]
fn sets_get<'a>(table: &'a EdgeSetTable, from: &u128) -> (found: Option<&'a IdSet>)
    ensures
        match found {
            Some(set) => sets_of(*table).contains_key(*from) && ids_of(*set) == sets_of(
                *table,
            )[*from],
            None => !sets_of(*table).contains_key(*from),
        },
{
    table.sets.get(from)
}

/// `hashbrown::HashMap::get_mut`: a mutable reference to the value of the
/// key's entry, or `None` where the key has none. The map changes only in
/// that value, and only as the caller changes it.
#[verifier::external_body]
fn sets_get_mut<'a>(table: &'a mut EdgeSetTable, from: &u128) -> (found: Option<&'a mut IdSet>)
    ensures
        match found {
            Some(set) => sets_of(*old(table)).contains_key(*from) && ids_of(*set) == sets_of(
                *old(table),
            )[*from] && sets_of(*final(table)) == sets_of(*old(table)).insert(
                *from,
                ids_of(*final(set)),
            ),
            None => !sets_of(*old(table)).contains_key(*from) && sets_of(*final(table)) == sets_of(
                *old(table),
            ),
        },
{
    table.sets.get_mut(from)
}

/// `hashbrown::HashMap::entry` followed by `Entry::or_default`: a mutable
/// reference to the value of the key's entry, which is made with the default
/// value, an empty set, where the key had none. No other entry changes.
#[verifier::external_body]
fn sets_entry_or_default<'a>(table: &'a mut EdgeSetTable, from: u128) -> (set: &'a mut IdSet)
    ensures
        ids_of(*set) == set_or_empty(sets_of(*old(table)), from),
        sets_of(*final(table)) == sets_of(*old(table)).insert(from, ids_of(*final(set))),
{
    table.sets.entry(from).or_default()
}

/// `hashbrown::HashMap::remove`: the key has no entry afterwards and no
/// other entry changes; the result is the value that the key had.
#[verifier::external_body]
fn sets_remove(table: &mut EdgeSetTable, from: &u128) -> (taken: Option<IdSet>)
    ensures
        sets_of(*final(table)) == sets_of(*old(table)).remove(*from),
        match taken {
            Some(set) => sets_of(*old(table)).contains_key(*from) && ids_of(set) == sets_of(
                *old(table),
            )[*from],
            None => !sets_of(*old(table)).contains_key(*from),
        },
{
    table.sets.remove(from)
}

/// `hashbrown::HashMap::clear`: the map holds nothing afterwards.
#[verifier::external_body]
fn sets_clear(table: &mut EdgeSetTable)
    ensures
        sets_of(*final(table)) == (Map::<u128, Set<u128>>::empty()),
{
    table.sets.clear()
}

/// `hashbrown::HashMap::keys`: visits every key exactly once, in an order of
/// which nothing is said. The keys are copied into a vector.
#[verifier::external_body]
fn sets_keys(table: &EdgeSetTable) -> (keys: Vec<u128>)
    ensures
        keys@.no_duplicates(),
        keys@.to_set() == sets_of(*table).dom(),
{
    table.sets.keys().copied().collect()
}

/// `Clone::clone` of `hashbrown::HashMap`: the copy holds the same entries,
/// each set copied in turn.
#[verifier::external_body]
fn sets_clone(table: &EdgeSetTable) -> (copy: EdgeSetTable)
    ensures
        sets_of(copy) == sets_of(*table),
{
    EdgeSetTable { sets: table.sets.clone() }
}

/// `PartialEq::eq` of `hashbrown::HashMap`: true exactly where the two maps have the
/// same keys and, under each, sets that are equal in turn.
#[verifier::external_body]
fn sets_eq(table: &EdgeSetTable, other: &EdgeSetTable) -> (equal: bool)
    ensures
        equal == (sets_of(*table) == sets_of(*other)),
{
    table.sets == other.sets
}

} // verus!
