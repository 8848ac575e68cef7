//! The payload deltas of a changeset as they travel: node to text, kept in a
//! `hashbrown::HashMap`.
//!
//! Verus does not look inside the map. What it holds is named by
//! [`texts_of`], and the functions at the end of this file say, without
//! proof, what each `hashbrown` method does to it.

use vstd::prelude::*;

verus! {

/// Node to the text of its payload delta.
#[verifier::external_body]
#[derive(Debug)]
pub struct TextTable {
    pub(crate) texts: hashbrown::HashMap<u128, String>,
}

/// The text that a table holds for each node.
pub uninterp spec fn texts_of(table: TextTable) -> Map<u128, String>;

/// The two maps give the same nodes a text, and to each node texts of the
/// same characters.
pub open spec fn same_texts(texts: Map<u128, String>, others: Map<u128, String>) -> bool {
    &&& texts.dom() == others.dom()
    &&& forall|id: u128| #[trigger] texts.contains_key(id) ==> texts[id]@ == others[id]@
}

impl View for TextTable {
    type V = Map<u128, String>;

    open spec fn view(&self) -> Map<u128, String> {
        texts_of(*self)
    }
}

impl TextTable {
    /// The empty table.
    pub fn new() -> (table: TextTable)
        ensures
            table@ == Map::<u128, String>::empty(),
    {
        texts_new()
    }

    /// The text of `id`, if it has one.
    pub fn get(&self, id: &u128) -> (found: Option<&String>)
        ensures
            match found {
                Some(text) => self@.contains_key(*id) && *text == self@[*id],
                None => !self@.contains_key(*id),
            },
    {
        texts_get(self, id)
    }

    /// Sets the text of `id`; returns the text it had.
    pub fn insert(&mut self, id: u128, text: String) -> (previous: Option<String>)
        ensures
            final(self)@ == old(self)@.insert(id, text),
            previous == old(self)@.get(id),
    {
        texts_insert(self, id, text)
    }

    /// Takes the text of `id` out of the table and returns it.
    pub fn remove(&mut self, id: &u128) -> (previous: Option<String>)
        ensures
            final(self)@ == old(self)@.remove(*id),
            previous == old(self)@.get(*id),
    {
        texts_remove(self, id)
    }

    /// The nodes that have a text, each once, in the order in which the
    /// table happens to hold them.
    pub fn keys(&self) -> (keys: Vec<u128>)
        ensures
            keys@.no_duplicates(),
            keys@.to_set() == self@.dom(),
    {
        texts_keys(self)
    }
}

impl PartialEq for TextTable {
    /// Two tables are equal where they hold the same entries, in whatever
    /// order they were filled.
    fn eq(&self, other: &TextTable) -> (equal: bool) {
        texts_eq(self, other)
    }
}

impl vstd::std_specs::cmp::PartialEqSpecImpl for TextTable {
    open spec fn obeys_eq_spec() -> bool {
        true
    }

    open spec fn eq_spec(&self, other: &TextTable) -> bool {
        same_texts(self@, other@)
    }
}

/// `hashbrown::HashMap::new`: the map that it makes holds nothing.
#[verifier::external_body]
fn texts_new() -> (table: TextTable)
    ensures
        texts_of(table) == (Map::<u128, String>::empty()),
{
    TextTable { texts: hashbrown::HashMap::new() }
}

/// `hashbrown::HashMap::get`: a reference to the value of the key's entry,
/// or `None` where the key has none.
#[verifier::external_body]
fn texts_get<'a>(table: &'a TextTable, id: &u128) -> (found: Option<&'a String>)
    ensures
        match found {
            Some(text) => texts_of(*table).contains_key(*id) && *text == texts_of(*table)[*id],
            None => !texts_of(*table).contains_key(*id),
        },
{
    table.texts.get(id)
}

/// `hashbrown::HashMap::insert`: the key has the new value afterwards and no
/// other entry changes; the result is the value that the key had.
#[verifier::external_body]
fn texts_insert(table: &mut TextTable, id: u128, text: String) -> (previous: Option<String>)
    ensures
        texts_of(*final(table)) == texts_of(*old(table)).insert(id, text),
        previous == texts_of(*old(table)).get(id),
{
    table.texts.insert(id, text)
}

/// `hashbrown::HashMap::remove`: the key has no entry afterwards and no
/// other entry changes; the result is the value that the key had.
#[verifier::external_body]
fn texts_remove(table: &mut TextTable, id: &u128) -> (previous: Option<String>)
    ensures
        texts_of(*final(table)) == texts_of(*old(table)).remove(*id),
        previous == texts_of(*old(table)).get(*id),
{
    table.texts.remove(id)
}

/// `hashbrown::HashMap::keys`: visits every key exactly once, in an order of
/// which nothing is said. The keys are copied into a vector.
#[verifier::external_body]
fn texts_keys(table: &TextTable) -> (keys: Vec<u128>)
    ensures
        keys@.no_duplicates(),
        keys@.to_set() == texts_of(*table).dom(),
{
    table.texts.keys().copied().collect()
}

/// `PartialEq::eq` of `hashbrown::HashMap`: true exactly where the two maps have the
/// same keys and, under each, texts of the same characters.
#[verifier::external_body]
fn texts_eq(table: &TextTable, other: &TextTable) -> (equal: bool)
    ensures
        equal == same_texts(texts_of(*table), texts_of(*other)),
{
    table.texts == other.texts
}

} // verus!
