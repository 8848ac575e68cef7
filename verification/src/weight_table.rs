//! The edges that leave one node: destination to weight, kept in a
//! `hashbrown::HashMap`.
//!
//! A weight is the IEEE-754 bit pattern of a single-precision number. Every
//! pattern is accepted and stored as given, those of infinities and of
//! not-a-number too: the tables never read a weight as a number.
//!
//! Verus does not look inside the map. What it holds is named by
//! [`weights_of`], and the functions at the end of this file say, without
//! proof, what each `hashbrown` method does to it.

use vstd::prelude::*;

verus! {

/// Destination to weight, for the edges of one source.
#[verifier::external_body]
#[derive(Debug)]
pub struct WeightTable {
    pub(crate) weights: hashbrown::HashMap<u128, u32>,
}

/// The weight that a table holds for each destination.
pub uninterp spec fn weights_of(table: WeightTable) -> Map<u128, u32>;

impl View for WeightTable {
    type V = Map<u128, u32>;

    open spec fn view(&self) -> Map<u128, u32> {
        weights_of(*self)
    }
}

impl WeightTable {
    /// The empty table.
    pub fn new() -> (table: WeightTable)
        ensures
            table@ == Map::<u128, u32>::empty(),
    {
        weights_new()
    }

    /// Whether the table holds nothing.
    pub fn is_empty(&self) -> (empty: bool)
        ensures
            empty <==> self@ == Map::<u128, u32>::empty(),
    {
        weights_is_empty(self)
    }

    /// Whether there is an edge to `to`.
    pub fn contains_key(&self, to: &u128) -> (found: bool)
        ensures
            found == self@.contains_key(*to),
    {
        weights_contains_key(self, to)
    }

    /// The weight of the edge to `to`, if there is one.
    pub fn get(&self, to: &u128) -> (weight: Option<&u32>)
        ensures
            match weight {
                Some(w) => self@.contains_key(*to) && *w == self@[*to],
                None => !self@.contains_key(*to),
            },
    {
        weights_get(self, to)
    }

    /// Sets the weight of the edge to `to`; returns the weight it had.
    pub fn insert(&mut self, to: u128, weight: u32) -> (previous: Option<u32>)
        ensures
            final(self)@ == old(self)@.insert(to, weight),
            previous == old(self)@.get(to),
    {
        weights_insert(self, to, weight)
    }

    /// Takes the edge to `to` out; returns the weight it had.
    pub fn remove(&mut self, to: &u128) -> (previous: Option<u32>)
        ensures
            final(self)@ == old(self)@.remove(*to),
            previous == old(self)@.get(*to),
    {
        weights_remove(self, to)
    }

    /// Puts every edge of `other` into the table; where both have an edge to
    /// the same destination, the weight of `other` stays.
    pub fn extend(&mut self, other: WeightTable)
        ensures
            final(self)@ == old(self)@.union_prefer_right(other@),
    {
        weights_extend(self, other)
    }

    /// The destinations, each once, in the order in which the table happens
    /// to hold them.
    pub fn keys(&self) -> (keys: Vec<u128>)
        ensures
            keys@.no_duplicates(),
            keys@.to_set() == self@.dom(),
    {
        weights_keys(self)
    }
}

impl PartialEq for WeightTable {
    /// Two tables are equal where they hold the same entries, in whatever
    /// order they were filled.
    fn eq(&self, other: &WeightTable) -> (equal: bool) {
        weights_eq(self, other)
    }
}

impl vstd::std_specs::cmp::PartialEqSpecImpl for WeightTable {
    open spec fn obeys_eq_spec() -> bool {
        true
    }

    open spec fn eq_spec(&self, other: &WeightTable) -> bool {
        self@ == other@
    }
}

impl Clone for WeightTable {
    fn clone(&self) -> (copy: WeightTable)
        ensures
            copy@ == self@,
    {
        weights_clone(self)
    }
}

impl Default for WeightTable {
    fn default() -> (table: WeightTable)
        ensures
            table@ == Map::<u128, u32>::empty(),
    {
        weights_new()
    }
}

/// `hashbrown::HashMap::new`: the map that it makes holds nothing.
#[verifier::external_body]
fn weights_new() -> (table: WeightTable)
    ensures
        weights_of(table) == (Map::<u128, u32>::empty()),
{
    WeightTable { weights: hashbrown::HashMap::new() }
}

/// `hashbrown::HashMap::is_empty`: true exactly when there is no entry.
#[verifier::external_body]
fn weights_is_empty(table: &WeightTable) -> (empty: bool)
    ensures
        empty == (weights_of(*table) == (Map::<u128, u32>::empty())),
{
    table.weights.is_empty()
}

/// `hashbrown::HashMap::contains_key`: whether the key has an entry.
#[verifier::external_body]
fn weights_contains_key(table: &WeightTable, to: &u128) -> (found: bool)
    ensures
        found == weights_of(*table).contains_key(*to),
{
    table.weights.contains_key(to)
}

/// `hashbrown::HashMap::get`: a reference to the value of the key's entry,
/// or `None` where the key has none.
#[verifier::external_body]
fn weights_get<'a>(table: &'a WeightTable, to: &u128) -> (weight: Option<&'a u32>)
    ensures
        match weight {
            Some(w) => weights_of(*table).contains_key(*to) && *w == weights_of(*table)[*to],
            None => !weights_of(*table).contains_key(*to),
        },
{
    table.weights.get(to)
}

/// `hashbrown::HashMap::insert`: the key has the new value afterwards and no
/// other entry changes; the result is the value that the key had.
#[verifier::external_body]
fn weights_insert(table: &mut WeightTable, to: u128, weight: u32) -> (previous: Option<u32>)
    ensures
        weights_of(*final(table)) == weights_of(*old(table)).insert(to, weight),
        previous == weights_of(*old(table)).get(to),
{
    table.weights.insert(to, weight)
}

/// `hashbrown::HashMap::remove`: the key has no entry afterwards and no
/// other entry changes; the result is the value that the key had.
#[verifier::external_body]
fn weights_remove(table: &mut WeightTable, to: &u128) -> (previous: Option<u32>)
    ensures
        weights_of(*final(table)) == weights_of(*old(table)).remove(*to),
        previous == weights_of(*old(table)).get(*to),
{
    table.weights.remove(to)
}

/// `Extend::extend` of `hashbrown::HashMap`, fed with another map: it
/// inserts each entry of the other map, so a key of both ends with the other
/// map's value.
#[verifier::external_body]
fn weights_extend(table: &mut WeightTable, other: WeightTable)
    ensures
        weights_of(*final(table)) == weights_of(*old(table)).union_prefer_right(weights_of(other)),
{
    table.weights.extend(other.weights)
}

/// `hashbrown::HashMap::keys`: visits every key exactly once, in an order of
/// which nothing is said. The keys are copied into a vector.
#[verifier::external_body]
fn weights_keys(table: &WeightTable) -> (keys: Vec<u128>)
    ensures
        keys@.no_duplicates(),
        keys@.to_set() == weights_of(*table).dom(),
{
    table.weights.keys().copied().collect()
}

/// `Clone::clone` of `hashbrown::HashMap`: the copy holds the same entries.
#[verifier::external_body]
fn weights_clone(table: &WeightTable) -> (copy: WeightTable)
    ensures
        weights_of(copy) == weights_of(*table),
{
    WeightTable { weights: table.weights.clone() }
}

/// `PartialEq::eq` of `hashbrown::HashMap`: true exactly where the two maps have the
/// same keys and the same value under each.
#[verifier::external_body]
fn weights_eq(table: &WeightTable, other: &WeightTable) -> (equal: bool)
    ensures
        equal == (weights_of(*table) == weights_of(*other)),
{
    table.weights == other.weights
}

} // verus!
