//! The pending node updates of a changeset: node to payload delta, kept in a
//! `hashbrown::HashMap`.
//!
//! Verus does not look inside the map. What it holds is named by
//! [`updates_of`], and the functions at the end of this file say, without
//! proof, what each `hashbrown` method does to it.

use crate::id_set::counts;
use crate::node_update::NodeUpdate;
use vstd::prelude::*;

verus! {

/// Node to payload delta.
#[verifier::external_body]
#[derive(Debug)]
pub struct NodeTable {
    updates: hashbrown::HashMap<u128, NodeUpdate>,
}

/// The payload delta that a table holds for each node.
pub uninterp spec fn updates_of(table: NodeTable) -> Map<u128, NodeUpdate>;

/// The two maps give the same nodes an update, and to each node updates
/// that set the same fields to the same values.
pub open spec fn same_updates(updates: Map<u128, NodeUpdate>, others: Map<u128, NodeUpdate>) -> bool {
    &&& updates.dom() == others.dom()
    &&& forall|id: u128| #[trigger] updates.contains_key(id) ==> updates[id]@ == others[id]@
}

impl View for NodeTable {
    type V = Map<u128, NodeUpdate>;

    open spec fn view(&self) -> Map<u128, NodeUpdate> {
        updates_of(*self)
    }
}

impl NodeTable {
    /// The empty table.
    pub fn new() -> (table: NodeTable)
        ensures
            table@ == Map::<u128, NodeUpdate>::empty(),
    {
        updates_new()
    }

    /// The number of nodes that have an update.
    pub fn len(&self) -> (count: usize)
        ensures
            counts(self@.dom(), count),
    {
        updates_len(self)
    }

    /// Whether no node has an update.
    pub fn is_empty(&self) -> (empty: bool)
        ensures
            empty <==> self@ == Map::<u128, NodeUpdate>::empty(),
    {
        updates_is_empty(self)
    }

    /// Whether `id` has an update.
    pub fn contains_key(&self, id: &u128) -> (found: bool)
        ensures
            found == self@.contains_key(*id),
    {
        updates_contains_key(self, id)
    }

    /// The update of `id`, if it has one.
    pub fn get(&self, id: &u128) -> (found: Option<&NodeUpdate>)
        ensures
            match found {
                Some(update) => self@.contains_key(*id) && *update == self@[*id],
                None => !self@.contains_key(*id),
            },
    {
        updates_get(self, id)
    }

    /// The update of `id`, to be changed in place, if it has one. What the
    /// caller leaves in it is what the table holds for `id` afterwards.
    pub fn get_mut(&mut self, id: &u128) -> (found: Option<&mut NodeUpdate>)
        ensures
            match found {
                Some(update) => old(self)@.contains_key(*id) && *update == old(self)@[*id]
                    && final(self)@ == old(self)@.insert(*id, *final(update)),
                None => !old(self)@.contains_key(*id) && final(self)@ == old(self)@,
            },
    {
        updates_get_mut(self, id)
    }

    /// Sets the update of `id`; returns the update it had.
    pub fn insert(&mut self, id: u128, update: NodeUpdate) -> (previous: Option<NodeUpdate>)
        ensures
            final(self)@ == old(self)@.insert(id, update),
            previous == old(self)@.get(id),
    {
        updates_insert(self, id, update)
    }

    /// Gives `id` the update where it has none, and changes nothing where it
    /// has one.
    pub fn try_insert(&mut self, id: u128, update: NodeUpdate)
        ensures
            final(self)@ == (if old(self)@.contains_key(id) {
                old(self)@
            } else {
                old(self)@.insert(id, update)
            }),
    {
        updates_try_insert(self, id, update)
    }

    /// Takes the update of `id` out of the table and returns it.
    pub fn remove(&mut self, id: &u128) -> (previous: Option<NodeUpdate>)
        ensures
            final(self)@ == old(self)@.remove(*id),
            previous == old(self)@.get(*id),
    {
        updates_remove(self, id)
    }

    /// Empties the table.
    pub fn clear(&mut self)
        ensures
            final(self)@ == Map::<u128, NodeUpdate>::empty(),
    {
        updates_clear(self)
    }

    /// The nodes that have an update, each once, in the order in which the
    /// table happens to hold them.
    pub fn keys(&self) -> (keys: Vec<u128>)
        ensures
            keys@.no_duplicates(),
            keys@.to_set() == self@.dom(),
    {
        updates_keys(self)
    }
}

impl PartialEq for NodeTable {
    /// Two tables are equal where they hold the same entries, in whatever
    /// order they were filled.
    fn eq(&self, other: &NodeTable) -> (equal: bool) {
        updates_eq(self, other)
    }
}

impl vstd::std_specs::cmp::PartialEqSpecImpl for NodeTable {
    open spec fn obeys_eq_spec() -> bool {
        true
    }

    open spec fn eq_spec(&self, other: &NodeTable) -> bool {
        same_updates(self@, other@)
    }
}

impl Clone for NodeTable {
    fn clone(&self) -> (copy: NodeTable)
        ensures
            copy@ == self@,
    {
        updates_clone(self)
    }
}

/// `hashbrown::HashMap::new`: the map that it makes holds nothing.
#[verifier::external_body]
fn updates_new() -> (table: NodeTable)
    ensures
        updates_of(table) == (Map::<u128, NodeUpdate>::empty()),
{
    NodeTable { updates: hashbrown::HashMap::new() }
}

/// `hashbrown::HashMap::len`: the number of entries, which is finite.
#[verifier::external_body]
fn updates_len(table: &NodeTable) -> (count: usize)
    ensures
        counts(updates_of(*table).dom(), count),
{
    table.updates.len()
}

/// `hashbrown::HashMap::is_empty`: true exactly when there is no entry.
#[verifier::external_body]
fn updates_is_empty(table: &NodeTable) -> (empty: bool)
    ensures
        empty == (updates_of(*table) == (Map::<u128, NodeUpdate>::empty())),
{
    table.updates.is_empty()
}

/// `hashbrown::HashMap::contains_key`: whether the key has an entry.
#[verifier::external_body]
fn updates_contains_key(table: &NodeTable, id: &u128) -> (found: bool)
    ensures
        found == updates_of(*table).contains_key(*id),
{
    table.updates.contains_key(id)
}

/// `hashbrown::HashMap::get`: a reference to the value of the key's entry,
/// or `None` where the key has none.
#[verifier::external_body]
fn updates_get<'a>(table: &'a NodeTable, id: &u128) -> (found: Option<&'a NodeUpdate>)
    ensures
        match found {
            Some(update) => updates_of(*table).contains_key(*id) && *update == updates_of(
                *table,
            )[*id],
            None => !updates_of(*table).contains_key(*id),
        },
{
    table.updates.get(id)
}

/// `hashbrown::HashMap::get_mut`: a mutable reference to the value of the
/// key's entry, or `None` where the key has none. The map changes only in
/// that value, and only as the caller changes it.
#[verifier::external_body]
fn updates_get_mut<'a>(table: &'a mut NodeTable, id: &u128) -> (found: Option<&'a mut NodeUpdate>)
    ensures
        match found {
            Some(update) => updates_of(*old(table)).contains_key(*id) && *update == updates_of(
                *old(table),
            )[*id] && updates_of(*final(table)) == updates_of(*old(table)).insert(
                *id,
                *final(update),
            ),
            None => !updates_of(*old(table)).contains_key(*id) && updates_of(*final(table))
                == updates_of(*old(table)),
        },
{
    table.updates.get_mut(id)
}

/// `hashbrown::HashMap::insert`: the key has the new value afterwards and no
/// other entry changes; the result is the value that the key had.
#[verifier::external_body]
fn updates_insert(table: &mut NodeTable, id: u128, update: NodeUpdate) -> (previous: Option<
    NodeUpdate,
>)
    ensures
        updates_of(*final(table)) == updates_of(*old(table)).insert(id, update),
        previous == updates_of(*old(table)).get(id),
{
    table.updates.insert(id, update)
}

/// `hashbrown::HashMap::try_insert`: where the key has an entry nothing is
/// changed; where it has none, it gets the value. What the call hands back
/// is dropped.
#[verifier::external_body]
fn updates_try_insert(table: &mut NodeTable, id: u128, update: NodeUpdate)
    ensures
        updates_of(*final(table)) == (if updates_of(*old(table)).contains_key(id) {
            updates_of(*old(table))
        } else {
            updates_of(*old(table)).insert(id, update)
        }),
{
    let _ = table.updates.try_insert(id, update);
}

/// `hashbrown::HashMap::remove`: the key has no entry afterwards and no
/// other entry changes; the result is the value that the key had.
#[verifier::external_body]
fn updates_remove(table: &mut NodeTable, id: &u128) -> (previous: Option<NodeUpdate>)
    ensures
        updates_of(*final(table)) == updates_of(*old(table)).remove(*id),
        previous == updates_of(*old(table)).get(*id),
{
    table.updates.remove(id)
}

/// `hashbrown::HashMap::clear`: the map holds nothing afterwards.
#[verifier::external_body]
fn updates_clear(table: &mut NodeTable)
    ensures
        updates_of(*final(table)) == (Map::<u128, NodeUpdate>::empty()),
{
    table.updates.clear()
}

/// `hashbrown::HashMap::keys`: visits every key exactly once, in an order of
/// which nothing is said. The keys are copied into a vector.
#[verifier::external_body]
fn updates_keys(table: &NodeTable) -> (keys: Vec<u128>)
    ensures
        keys@.no_duplicates(),
        keys@.to_set() == updates_of(*table).dom(),
{
    table.updates.keys().copied().collect()
}

/// `Clone::clone` of `hashbrown::HashMap`: the copy holds the same entries,
/// each update copied in turn.
#[verifier::external_body]
fn updates_clone(table: &NodeTable) -> (copy: NodeTable)
    ensures
        updates_of(copy) == updates_of(*table),
{
    NodeTable { updates: table.updates.clone() }
}

/// `PartialEq::eq` of `hashbrown::HashMap`: true exactly where the two maps have the
/// same keys and, under each, updates that are equal in turn.
#[verifier::external_body]
fn updates_eq(table: &NodeTable, other: &NodeTable) -> (equal: bool)
    ensures
        equal == same_updates(updates_of(*table), updates_of(*other)),
{
    table.updates == other.updates
}

} // verus!
