//! The weighted edges of a changeset: source to destination to weight, kept
//! in a `hashbrown::HashMap` of [`WeightTable`]s.
//!
//! Verus does not look inside the map. What it holds is named by
//! [`rows_of`], which gives each source its row as a mathematical map, and
//! the functions at the end of this file say, without proof, what each
//! `hashbrown` method does to it.

use crate::id_set::counts;
use crate::weight_table::{weights_of, WeightTable};
use vstd::prelude::*;

verus! {

/// Source to destination to weight.
#[verifier::external_body]
#[derive(Debug)]
pub struct EdgeTable {
    pub(crate) rows: hashbrown::HashMap<u128, WeightTable>,
}

/// The row that a table holds for each source.
pub uninterp spec fn rows_of(table: EdgeTable) -> Map<u128, Map<u128, u32>>;

/// The row of `from` in `rows`, empty where `from` has none.
pub open spec fn row_or_empty(rows: Map<u128, Map<u128, u32>>, from: u128) -> Map<u128, u32> {
    if rows.contains_key(from) {
        rows[from]
    } else {
        Map::empty()
    }
}

impl View for EdgeTable {
    type V = Map<u128, Map<u128, u32>>;

    open spec fn view(&self) -> Map<u128, Map<u128, u32>> {
        rows_of(*self)
    }
}

impl EdgeTable {
    /// The empty table.
    pub fn new() -> (table: EdgeTable)
        ensures
            table@ == Map::<u128, Map<u128, u32>>::empty(),
    {
        rows_new()
    }

    /// The number of sources that have a row.
    pub fn len(&self) -> (count: usize)
        ensures
            counts(self@.dom(), count),
    {
        rows_len(self)
    }

    /// Whether no source has a row.
    pub fn is_empty(&self) -> (empty: bool)
        ensures
            empty <==> self@ == Map::<u128, Map<u128, u32>>::empty(),
    {
        rows_is_empty(self)
    }

    /// The row of `from`, if it has one.
    pub fn get(&self, from: &u128) -> (found: Option<&WeightTable>)
        ensures
            match found {
                Some(row) => self@.contains_key(*from) && row@ == self@[*from],
                None => !self@.contains_key(*from),
            },
    {
        rows_get(self, from)
    }

    /// The row of `from`, to be changed in place, if it has one. What the
    /// caller leaves in the row is what the table holds for `from` afterwards.
    pub fn get_mut(&mut self, from: &u128) -> (found: Option<&mut WeightTable>)
        ensures
            match found {
                Some(row) => old(self)@.contains_key(*from) && row@ == old(self)@[*from]
                    && final(self)@ == old(self)@.insert(*from, final(row)@),
                None => !old(self)@.contains_key(*from) && final(self)@ == old(self)@,
            },
    {
        rows_get_mut(self, from)
    }

    /// The row of `from`, to be changed in place; an empty row is made where
    /// `from` had none.
    pub fn entry_or_default(&mut self, from: u128) -> (row: &mut WeightTable)
        ensures
            row@ == row_or_empty(old(self)@, from),
            final(self)@ == old(self)@.insert(from, final(row)@),
    {
        rows_entry_or_default(self, from)
    }

    /// Takes the row of `from` out of the table and returns it.
    pub fn remove(&mut self, from: &u128) -> (taken: Option<WeightTable>)
        ensures
            final(self)@ == old(self)@.remove(*from),
            match taken {
                Some(row) => old(self)@.contains_key(*from) && row@ == old(self)@[*from],
                None => !old(self)@.contains_key(*from),
            },
    {
        rows_remove(self, from)
    }

    /// Empties the table.
    pub fn clear(&mut self)
        ensures
            final(self)@ == Map::<u128, Map<u128, u32>>::empty(),
    {
        rows_clear(self)
    }

    /// The sources that have a row, each once, in the order in which the
    /// table happens to hold them.
    pub fn keys(&self) -> (keys: Vec<u128>)
        ensures
            keys@.no_duplicates(),
            keys@.to_set() == self@.dom(),
    {
        rows_keys(self)
    }
}

impl PartialEq for EdgeTable {
    /// Two tables are equal where they hold the same entries, in whatever
    /// order they were filled.
    fn eq(&self, other: &EdgeTable) -> (equal: bool) {
        rows_eq(self, other)
    }
}

impl vstd::std_specs::cmp::PartialEqSpecImpl for EdgeTable {
    open spec fn obeys_eq_spec() -> bool {
        true
    }

    open spec fn eq_spec(&self, other: &EdgeTable) -> bool {
        self@ == other@
    }
}

impl Clone for EdgeTable {
    fn clone(&self) -> (copy: EdgeTable)
        ensures
            copy@ == self@,
    {
        rows_clone(self)
    }
}

/// `hashbrown::HashMap::new`: the map that it makes holds nothing.
#[verifier::external_body]
fn rows_new() -> (table: EdgeTable)
    ensures
        rows_of(table) == (Map::<u128, Map<u128, u32>>::empty()),
{
    EdgeTable { rows: hashbrown::HashMap::new() }
}

/// `hashbrown::HashMap::len`: the number of entries, which is finite.
#[verifier::external_body]
fn rows_len(table: &EdgeTable) -> (count: usize)
    ensures
        counts(rows_of(*table).dom(), count),
{
    table.rows.len()
}

/// `hashbrown::HashMap::is_empty`: true exactly when there is no entry.
#[verifier::external_body]
fn rows_is_empty(table: &EdgeTable) -> (empty: bool)
    ensures
        empty == (rows_of(*table) == (Map::<u128, Map<u128, u32>>::empty())),
{
    table.rows.is_empty()
}

/// `hashbrown::HashMap::get`: a reference to the value of the key's entry,
/// or `None` where the key has none.
#[verifier::external_body]
fn rows_get<'a>(table: &'a EdgeTable, from: &u128) -> (found: Option<&'a WeightTable>)
    ensures
        match found {
            Some(row) => rows_of(*table).contains_key(*from) && weights_of(*row) == rows_of(
                *table,
            )[*from],
            None => !rows_of(*table).contains_key(*from),
        },
{
    table.rows.get(from)
}

/// `hashbrown::HashMap::get_mut`: a mutable reference to the value of the
/// key's entry, or `None` where the key has none. The map changes only in
/// that value, and only as the caller changes it.
#[verifier::external_body]
fn rows_get_mut<'a>(table: &'a mut EdgeTable, from: &u128) -> (found: Option<&'a mut WeightTable>)
    ensures
        match found {
            Some(row) => rows_of(*old(table)).contains_key(*from) && weights_of(*row) == rows_of(
                *old(table),
            )[*from] && rows_of(*final(table)) == rows_of(*old(table)).insert(
                *from,
                weights_of(*final(row)),
            ),
            None => !rows_of(*old(table)).contains_key(*from) && rows_of(*final(table)) == rows_of(
                *old(table),
            ),
        },
{
    table.rows.get_mut(from)
}

/// `hashbrown::HashMap::entry` followed by `Entry::or_default`: a mutable
/// reference to the value of the key's entry, which is made with the default
/// value, an empty row, where the key had none. No other entry changes.
#[verifier::external_body]
fn rows_entry_or_default<'a>(table: &'a mut EdgeTable, from: u128) -> (row: &'a mut WeightTable)
    ensures
        weights_of(*row) == row_or_empty(rows_of(*old(table)), from),
        rows_of(*final(table)) == rows_of(*old(table)).insert(from, weights_of(*final(row))),
{
    table.rows.entry(from).or_default()
}

/// `hashbrown::HashMap::remove`: the key has no entry afterwards and no
/// other entry changes; the result is the value that the key had.
#[verifier::external_body]
fn rows_remove(table: &mut EdgeTable, from: &u128) -> (taken: Option<WeightTable>)
    ensures
        rows_of(*final(table)) == rows_of(*old(table)).remove(*from),
        match taken {
            Some(row) => rows_of(*old(table)).contains_key(*from) && weights_of(row) == rows_of(
                *old(table),
            )[*from],
            None => !rows_of(*old(table)).contains_key(*from),
        },
{
    table.rows.remove(from)
}

/// `hashbrown::HashMap::clear`: the map holds nothing afterwards.
#[verifier::external_body]
fn rows_clear(table: &mut EdgeTable)
    ensures
        rows_of(*final(table)) == (Map::<u128, Map<u128, u32>>::empty()),
{
    table.rows.clear()
}

/// `hashbrown::HashMap::keys`: visits every key exactly once, in an order of
/// which nothing is said. The keys are copied into a vector.
#[verifier::external_body]
fn rows_keys(table: &EdgeTable) -> (keys: Vec<u128>)
    ensures
        keys@.no_duplicates(),
        keys@.to_set() == rows_of(*table).dom(),
{
    table.rows.keys().copied().collect()
}

/// `Clone::clone` of `hashbrown::HashMap`: the copy holds the same entries,
/// each row copied in turn.
#[verifier::external_body]
fn rows_clone(table: &EdgeTable) -> (copy: EdgeTable)
    ensures
        rows_of(copy) == rows_of(*table),
{
    EdgeTable { rows: table.rows.clone() }
}

/// `PartialEq::eq` of `hashbrown::HashMap`: true exactly where the two maps have the
/// same keys and, under each, rows that are equal in turn.
#[verifier::external_body]
fn rows_eq(table: &EdgeTable, other: &EdgeTable) -> (equal: bool)
    ensures
        equal == (rows_of(*table) == rows_of(*other)),
{
    table.rows == other.rows
}

} // verus!
