//! A set of node identifiers, kept in a `hashbrown::HashSet`.
//!
//! Verus does not look inside the set. What it holds is named by [`ids_of`],
//! and the functions at the end of this file say, without proof, what each
//! `hashbrown` method does to it. The methods of [`IdSet`] are verified
//! against those statements.

use vstd::prelude::*;

verus! {

/// A set of node identifiers.
#[verifier::external_body]
#[derive(Debug)]
pub struct IdSet {
    pub(crate) ids: hashbrown::HashSet<u128>,
}

/// The identifiers that a set holds.
pub uninterp spec fn ids_of(set: IdSet) -> Set<u128>;

/// `ids` is a finite set of `count` elements.
pub open spec fn counts(ids: Set<u128>, count: usize) -> bool {
    ids.finite() && ids.len() == count
}

impl View for IdSet {
    type V = Set<u128>;

    open spec fn view(&self) -> Set<u128> {
        ids_of(*self)
    }
}

impl IdSet {
    /// The empty set.
    pub fn new() -> (set: IdSet)
        ensures
            set@ == Set::<u128>::empty(),
    {
        ids_new()
    }

    /// The number of identifiers in the set.
    pub fn len(&self) -> (count: usize)
        ensures
            self@.finite(),
            count == self@.len(),
    {
        ids_len(self)
    }

    /// Whether the set holds nothing.
    pub fn is_empty(&self) -> (empty: bool)
        ensures
            empty <==> self@ == Set::<u128>::empty(),
    {
        ids_is_empty(self)
    }

    /// Whether `id` is in the set.
    pub fn contains(&self, id: &u128) -> (found: bool)
        ensures
            found == self@.contains(*id),
    {
        ids_contains(self, id)
    }

    /// Adds `id`; returns whether it was new to the set.
    pub fn insert(&mut self, id: u128) -> (fresh: bool)
        ensures
            final(self)@ == old(self)@.insert(id),
            fresh == !old(self)@.contains(id),
    {
        ids_insert(self, id)
    }

    /// Takes `id` out; returns whether it was in the set.
    pub fn remove(&mut self, id: &u128) -> (found: bool)
        ensures
            final(self)@ == old(self)@.remove(*id),
            found == old(self)@.contains(*id),
    {
        ids_remove(self, id)
    }

    /// Empties the set.
    pub fn clear(&mut self)
        ensures
            final(self)@ == Set::<u128>::empty(),
    {
        ids_clear(self)
    }

    /// The identifiers of the set, each once, in the order in which the
    /// table happens to hold them.
    pub fn ids(&self) -> (ids: Vec<u128>)
        ensures
            ids@.no_duplicates(),
            ids@.to_set() == self@,
    {
        ids_to_vec(self)
    }
}

impl PartialEq for IdSet {
    /// Two sets are equal where they hold the same identifiers.
    fn eq(&self, other: &IdSet) -> (equal: bool) {
        ids_eq(self, other)
    }
}

impl vstd::std_specs::cmp::PartialEqSpecImpl for IdSet {
    open spec fn obeys_eq_spec() -> bool {
        true
    }

    open spec fn eq_spec(&self, other: &IdSet) -> bool {
        self@ == other@
    }
}

impl Clone for IdSet {
    fn clone(&self) -> (copy: IdSet)
        ensures
            copy@ == self@,
    {
        ids_clone(self)
    }
}

impl Default for IdSet {
    fn default() -> (set: IdSet)
        ensures
            set@ == Set::<u128>::empty(),
    {
        ids_new()
    }
}

/// `hashbrown::HashSet::new`: the set that it makes holds nothing.
#[verifier::external_body]
fn ids_new() -> (set: IdSet)
    ensures
        ids_of(set) == (Set::<u128>::empty()),
{
    IdSet { ids: hashbrown::HashSet::new() }
}

/// `hashbrown::HashSet::len`: the number of elements, which is finite.
#[verifier::external_body]
fn ids_len(set: &IdSet) -> (count: usize)
    ensures
        counts(ids_of(*set), count),
{
    set.ids.len()
}

/// `hashbrown::HashSet::is_empty`: true exactly when there is no element.
#[verifier::external_body]
fn ids_is_empty(set: &IdSet) -> (empty: bool)
    ensures
        empty == (ids_of(*set) == (Set::<u128>::empty())),
{
    set.ids.is_empty()
}

/// `hashbrown::HashSet::contains`: membership of the value.
#[verifier::external_body]
fn ids_contains(set: &IdSet, id: &u128) -> (found: bool)
    ensures
        found == ids_of(*set).contains(*id),
{
    set.ids.contains(id)
}

/// `hashbrown::HashSet::insert`: the value is in the set afterwards and
/// nothing else changes; the result tells whether it was absent before.
#[verifier::external_body]
fn ids_insert(set: &mut IdSet, id: u128) -> (fresh: bool)
    ensures
        ids_of(*final(set)) == ids_of(*old(set)).insert(id),
        fresh == !ids_of(*old(set)).contains(id),
{
    set.ids.insert(id)
}

/// `hashbrown::HashSet::remove`: the value is gone afterwards and nothing
/// else changes; the result tells whether it was present before.
#[verifier::external_body]
fn ids_remove(set: &mut IdSet, id: &u128) -> (found: bool)
    ensures
        ids_of(*final(set)) == ids_of(*old(set)).remove(*id),
        found == ids_of(*old(set)).contains(*id),
{
    set.ids.remove(id)
}

/// `hashbrown::HashSet::clear`: the set holds nothing afterwards.
#[verifier::external_body]
fn ids_clear(set: &mut IdSet)
    ensures
        ids_of(*final(set)) == (Set::<u128>::empty()),
{
    set.ids.clear()
}

/// `hashbrown::HashSet::iter`: visits every element exactly once, in an
/// order of which nothing is said. The elements are copied into a vector.
#[verifier::external_body]
fn ids_to_vec(set: &IdSet) -> (ids: Vec<u128>)
    ensures
        ids@.no_duplicates(),
        ids@.to_set() == ids_of(*set),
{
    set.ids.iter().copied().collect()
}

/// `PartialEq::eq` of `hashbrown::HashSet`: true exactly where the two sets
/// hold the same elements.
#[verifier::external_body]
fn ids_eq(set: &IdSet, other: &IdSet) -> (equal: bool)
    ensures
        equal == (ids_of(*set) == ids_of(*other)),
{
    set.ids == other.ids
}

/// `Clone::clone` of `hashbrown::HashSet`: the copy holds the same elements.
#[verifier::external_body]
fn ids_clone(set: &IdSet) -> (copy: IdSet)
    ensures
        ids_of(copy) == ids_of(*set),
{
    IdSet { ids: set.ids.clone() }
}

} // verus!
