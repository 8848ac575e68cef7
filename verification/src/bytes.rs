//! A changeset as bytes.
//!
//! What travels is a [`SlimDiff`]: the payload delta of each node as a text,
//! the nodes marked as deleted, and the edge diff. `bincode` frames it. How
//! a payload delta becomes a text and a text a payload delta is the
//! caller's to say, with a function handed to the codec: so the payload can
//! change its schema while the frame keeps its shape.
//!
//! Nothing is taken on trust about the bytes that `bincode` writes: they
//! are read back before they are handed out ([`accept_frame`]), so the
//! bytes of a successful call are known to frame the changeset that was
//! given.

use crate::diff::{EdgeDiff, GraphDiff, NodeDiff};
use crate::edge_set_table::EdgeSetTable;
use crate::edge_table::EdgeTable;
use crate::id_set::IdSet;
use crate::model::{EdgeDiffView, GraphDiffView};
use crate::node_table::NodeTable;
use crate::node_update::NodeUpdate;
use crate::text_table::{same_texts, TextTable};
use crate::walk::{lemma_visited_all, lemma_visited_none, lemma_visited_step, visited};
use crate::weight_table::WeightTable;
use vstd::prelude::*;

verus! {

/// What `bincode` reports when it cannot write or read a frame.
#[verifier::external_type_specification]
#[verifier::external_body]
pub struct ExErrorKind(bincode::ErrorKind);

/// Why a changeset could not be written or read.
#[derive(Clone, Copy, Debug, PartialEq, Eq)]
pub enum CodecError {
    /// A payload delta was refused by the function that turns it into a
    /// text, or a text by the function that turns it into a payload delta.
    Payload,
    /// The frame could not be written, or the bytes are no frame.
    Envelope,
}

impl CodecError {
    /// The error in words.
    pub fn message(&self) -> (text: &'static str)
        ensures
            text@ == (match *self {
                CodecError::Payload => "Failed to convert a node update."@,
                CodecError::Envelope => "Failed to frame the graph diff."@,
            }),
    {
        match self {
            CodecError::Payload => "Failed to convert a node update.",
            CodecError::Envelope => "Failed to frame the graph diff.",
        }
    }
}

/// A changeset as it travels.
#[derive(Debug)]
pub struct SlimDiff {
    pub(crate) texts: TextTable,
    pub(crate) deleted: IdSet,
    pub(crate) edges: EdgeDiff,
}

/// What a travelling changeset holds.
pub struct SlimDiffView {
    pub texts: Map<u128, String>,
    pub deleted: Set<u128>,
    pub edges: EdgeDiffView,
}

impl View for SlimDiff {
    type V = SlimDiffView;

    closed spec fn view(&self) -> SlimDiffView {
        SlimDiffView { texts: self.texts@, deleted: self.deleted@, edges: self.edges@ }
    }
}

impl SlimDiffView {
    /// The two hold the same: the same nodes with texts of the same
    /// characters, the same tombstones and the same edge diff.
    pub open spec fn same_as(self, other: SlimDiffView) -> bool {
        same_texts(self.texts, other.texts) && self.deleted == other.deleted && self.edges
            == other.edges
    }
}

impl PartialEq for SlimDiff {
    /// Two travelling changesets are equal where they hold the same, in
    /// whatever order they were built.
    fn eq(&self, other: &SlimDiff) -> (equal: bool) {
        self.texts == other.texts && self.deleted == other.deleted && self.edges == other.edges
    }
}

impl vstd::std_specs::cmp::PartialEqSpecImpl for SlimDiff {
    open spec fn obeys_eq_spec() -> bool {
        true
    }

    open spec fn eq_spec(&self, other: &SlimDiff) -> bool {
        self@.same_as(other@)
    }
}

/// What `bincode::deserialize` makes of the bytes: the changeset that they
/// frame, or `None` where they frame none.
pub uninterp spec fn slim_of(bytes: Seq<u8>) -> Option<SlimDiffView>;

impl SlimDiff {
    /// A travelling changeset of the given parts.
    pub fn new(texts: TextTable, deleted: IdSet, edges: EdgeDiff) -> (slim: SlimDiff)
        ensures
            slim@ == (SlimDiffView { texts: texts@, deleted: deleted@, edges: edges@ }),
    {
        SlimDiff { texts, deleted, edges }
    }

    /// The text of each node's payload delta.
    pub fn texts(&self) -> (texts: &TextTable)
        ensures
            texts@ == self@.texts,
    {
        &self.texts
    }

    /// The nodes marked as deleted.
    pub fn deleted(&self) -> (deleted: &IdSet)
        ensures
            deleted@ == self@.deleted,
    {
        &self.deleted
    }

    /// The edge diff.
    pub fn edges(&self) -> (edges: &EdgeDiff)
        ensures
            edges@ == self@.edges,
    {
        &self.edges
    }
}

/// `slim` is `diff` in the form in which it travels: the same tombstones
/// and edges, and for each node with an update a text that `encode` can
/// give for that update.
pub open spec fn slims_to<F: Fn(&NodeUpdate) -> Option<String>>(
    diff: GraphDiffView,
    slim: SlimDiffView,
    encode: F,
) -> bool {
    &&& slim.deleted == diff.nodes.deleted
    &&& slim.edges == diff.edges
    &&& slim.texts.dom() == diff.nodes.new_or_updated.dom()
    &&& forall|id: u128| #[trigger]
        slim.texts.contains_key(id) ==> call_ensures(
            encode,
            (&diff.nodes.new_or_updated[id],),
            Some(slim.texts[id]),
        )
}

/// `diff` is `slim` read back: the same tombstones and edges, and for each
/// node with a text an update that `decode` can give for that text.
pub open spec fn fattens_to<F: Fn(String) -> Option<NodeUpdate>>(
    slim: SlimDiffView,
    diff: GraphDiffView,
    decode: F,
) -> bool {
    &&& diff.nodes.deleted == slim.deleted
    &&& diff.edges == slim.edges
    &&& diff.nodes.new_or_updated.dom() == slim.texts.dom()
    &&& forall|id: u128| #[trigger]
        slim.texts.contains_key(id) ==> call_ensures(
            decode,
            (slim.texts[id],),
            Some(diff.nodes.new_or_updated[id]),
        )
}

/// For each update of `updates`: whatever text `encode` gives for it,
/// `decode` reads from that text nothing but an update that sets the same
/// fields to the same values. Nothing is asked of other updates.
pub open spec fn inverts<D: Fn(String) -> Option<NodeUpdate>, E: Fn(&NodeUpdate) -> Option<String>>(
    decode: D,
    encode: E,
    updates: Map<u128, NodeUpdate>,
) -> bool {
    forall|id: u128, text: String, back: NodeUpdate|
        #![trigger call_ensures(encode, (&updates[id],), Some(text)), call_ensures(decode, (text,), Some(back))]
        updates.contains_key(id) && call_ensures(encode, (&updates[id],), Some(text))
            && call_ensures(decode, (text,), Some(back)) ==> back@ == updates[id]@
}

/// Round trip: a diff that is made slim and read back, with a `decode` that
/// inverts the `encode` on the updates that the diff holds, is equal to
/// what it was.
pub proof fn lemma_slim_round_trip<
    D: Fn(String) -> Option<NodeUpdate>,
    E: Fn(&NodeUpdate) -> Option<String>,
>(diff: GraphDiffView, slim: SlimDiffView, back: GraphDiffView, encode: E, decode: D)
    requires
        slims_to(diff, slim, encode),
        fattens_to(slim, back, decode),
        inverts(decode, encode, diff.nodes.new_or_updated),
    ensures
        back.same_as(diff),
{
    assert forall|id: u128| #[trigger]
        back.nodes.new_or_updated.contains_key(id) implies back.nodes.new_or_updated[id]@
        == diff.nodes.new_or_updated[id]@ by {
        assert(slim.texts.contains_key(id));
    }
}

/// For each update of `updates`: whatever text `encode` gives for it,
/// `decode` reads from a text of the same characters nothing but an update
/// that sets the same fields to the same values. Nothing is asked of other
/// updates.
pub open spec fn inverts_by_characters<
    D: Fn(String) -> Option<NodeUpdate>,
    E: Fn(&NodeUpdate) -> Option<String>,
>(decode: D, encode: E, updates: Map<u128, NodeUpdate>) -> bool {
    forall|id: u128, text: String, read: String, back: NodeUpdate|
        #![trigger call_ensures(encode, (&updates[id],), Some(text)), call_ensures(decode, (read,), Some(back))]
        updates.contains_key(id) && call_ensures(encode, (&updates[id],), Some(text)) && read@
            == text@ && call_ensures(decode, (read,), Some(back)) ==> back@ == updates[id]@
}

/// `bytes` are a frame of `diff`: they frame a changeset, and that
/// changeset is equal to `diff` in the form in which it travels, the text
/// of each update being one that `encode` can give for it.
pub open spec fn frames<E: Fn(&NodeUpdate) -> Option<String>>(
    bytes: Seq<u8>,
    diff: GraphDiffView,
    encode: E,
) -> bool {
    &&& slim_of(bytes) is Some
    &&& exists|slim: SlimDiffView|
        slims_to(diff, slim, encode) && #[trigger] slim_of(bytes).unwrap().same_as(slim)
}

/// `outcome` is what reading `bytes` gives, with `decode`: `Envelope`
/// exactly where the bytes frame nothing; else `Payload`, and then
/// `decode` can refuse one of the texts; else the changeset of the frame,
/// each text made an update that `decode` can give for it.
pub open spec fn reads_as<D: Fn(String) -> Option<NodeUpdate>>(
    bytes: Seq<u8>,
    outcome: Result<GraphDiff, CodecError>,
    decode: D,
) -> bool {
    &&& outcome == Err::<GraphDiff, CodecError>(CodecError::Envelope) <==> slim_of(bytes) is None
    &&& match outcome {
        Ok(diff) => slim_of(bytes) is Some && fattens_to(slim_of(bytes).unwrap(), diff@, decode),
        Err(CodecError::Payload) => {
            &&& slim_of(bytes) is Some
            &&& exists|id: u128| #[trigger]
                slim_of(bytes).unwrap().texts.contains_key(id) && call_ensures(
                    decode,
                    (slim_of(bytes).unwrap().texts[id],),
                    None,
                )
        },
        Err(CodecError::Envelope) => true,
    }
}

/// For each update of `updates`: whatever text `encode` gives for it,
/// `decode` does not refuse a text of the same characters. Nothing is asked
/// of other updates.
pub open spec fn accepts_what_is_written<
    D: Fn(String) -> Option<NodeUpdate>,
    E: Fn(&NodeUpdate) -> Option<String>,
>(decode: D, encode: E, updates: Map<u128, NodeUpdate>) -> bool {
    forall|id: u128, text: String, read: String|
        #![trigger call_ensures(encode, (&updates[id],), Some(text)), call_ensures(decode, (read,), None)]
        updates.contains_key(id) && call_ensures(encode, (&updates[id],), Some(text)) && read@
            == text@ ==> !call_ensures(decode, (read,), None)
}

/// Round trip through bytes: where `bytes` are a frame of a diff, as the
/// bytes of `graph_diff_to_bytes` and of `slim_diff_to_bytes` are, and
/// `decode` accepts and inverts what `encode` writes for the updates that
/// the diff holds, reading the bytes succeeds and gives a diff equal to the
/// one that was written.
pub proof fn lemma_bytes_round_trip<
    D: Fn(String) -> Option<NodeUpdate>,
    E: Fn(&NodeUpdate) -> Option<String>,
>(diff: GraphDiffView, bytes: Seq<u8>, outcome: Result<GraphDiff, CodecError>, encode: E, decode: D)
    requires
        frames(bytes, diff, encode),
        reads_as(bytes, outcome, decode),
        accepts_what_is_written(decode, encode, diff.nodes.new_or_updated),
        inverts_by_characters(decode, encode, diff.nodes.new_or_updated),
    ensures
        outcome is Ok,
        outcome.unwrap()@.same_as(diff),
{
    let read = slim_of(bytes).unwrap();
    let slim = choose|slim: SlimDiffView|
        slims_to(diff, slim, encode) && #[trigger] read.same_as(slim);
    assert forall|id: u128| #[trigger] read.texts.contains_key(id) implies !call_ensures(
        decode,
        (read.texts[id],),
        None,
    ) by {
        assert(slim.texts.contains_key(id));
        assert(read.texts[id]@ == slim.texts[id]@);
    }
    assert(outcome is Ok);
    let back = outcome.unwrap()@;
    assert forall|id: u128| #[trigger]
        back.nodes.new_or_updated.contains_key(id) implies back.nodes.new_or_updated[id]@
        == diff.nodes.new_or_updated[id]@ by {
        assert(read.texts.contains_key(id));
        assert(slim.texts.contains_key(id));
        assert(read.texts[id]@ == slim.texts[id]@);
    }
}

/// Turns the payload delta of every node into a text, with `encode`. One
/// delta that `encode` refuses makes the whole call fail.
pub fn payload_texts<F: Fn(&NodeUpdate) -> Option<String>>(updates: &NodeTable, encode: &F) -> (outcome:
    Option<TextTable>)
    requires
        forall|id: u128| #[trigger]
            updates@.contains_key(id) ==> call_requires(encode, (&updates@[id],)),
    ensures
        match outcome {
            Some(texts) => {
                &&& texts@.dom() == updates@.dom()
                &&& forall|id: u128| #[trigger]
                    updates@.contains_key(id) ==> call_ensures(
                        encode,
                        (&updates@[id],),
                        Some(texts@[id]),
                    )
            },
            None => exists|id: u128| #[trigger]
                updates@.contains_key(id) && call_ensures(encode, (&updates@[id],), None),
        },
{
    let mut texts = TextTable::new();
    let ids = updates.keys();
    proof {
        lemma_visited_none(ids@);
    }
    let mut i: usize = 0;
    while i < ids.len()
        invariant
            i <= ids.len(),
            ids@.no_duplicates(),
            ids@.to_set() == updates@.dom(),
            forall|id: u128| #[trigger]
                updates@.contains_key(id) ==> call_requires(encode, (&updates@[id],)),
            texts@.dom() == visited(ids@, i as int),
            forall|id: u128| #[trigger]
                texts@.contains_key(id) ==> call_ensures(
                    encode,
                    (&updates@[id],),
                    Some(texts@[id]),
                ),
        decreases ids.len() - i,
    {
        let id = ids[i];
        proof {
            assert(ids@.to_set().contains(id));
            lemma_visited_step(ids@, i as int);
        }
        match updates.get(&id) {
            Some(update) => {
                match encode(update) {
                    Some(text) => {
                        texts.insert(id, text);
                    },
                    None => {
                        return None;
                    },
                }
            },
            None => {},
        }
        i += 1;
    }
    proof {
        lemma_visited_all(ids@);
    }
    Some(texts)
}

/// Turns a changeset into the form in which it travels, the payload delta
/// of every node made a text with `encode`.
pub fn graph_diff_to_slim_diff<F: Fn(&NodeUpdate) -> Option<String>>(
    diff: &GraphDiff,
    encode: &F,
) -> (outcome: Result<SlimDiff, CodecError>)
    requires
        forall|id: u128| #[trigger]
            diff@.nodes.new_or_updated.contains_key(id) ==> call_requires(
                encode,
                (&diff@.nodes.new_or_updated[id],),
            ),
    ensures
        match outcome {
            Ok(slim) => slims_to(diff@, slim@, encode),
            Err(error) => {
                &&& error == CodecError::Payload
                &&& exists|id: u128| #[trigger]
                    diff@.nodes.new_or_updated.contains_key(id) && call_ensures(
                        encode,
                        (&diff@.nodes.new_or_updated[id],),
                        None,
                    )
            },
        },
{
    match payload_texts(diff.new_or_updated_nodes(), encode) {
        Some(texts) => Ok(
            SlimDiff { texts, deleted: diff.deleted_nodes().clone(), edges: diff.edges().clone() },
        ),
        None => Err(CodecError::Payload),
    }
}

/// Turns a travelling changeset back into a changeset, every text made a
/// payload delta with `decode`. One text that `decode` refuses makes the
/// whole call fail: there is no partial result.
pub fn slim_diff_to_graph_diff<F: Fn(String) -> Option<NodeUpdate>>(
    slim: SlimDiff,
    decode: &F,
) -> (outcome: Result<GraphDiff, CodecError>)
    requires
        forall|id: u128| #[trigger]
            slim@.texts.contains_key(id) ==> call_requires(decode, (slim@.texts[id],)),
    ensures
        match outcome {
            Ok(diff) => fattens_to(slim@, diff@, decode),
            Err(error) => {
                &&& error == CodecError::Payload
                &&& exists|id: u128| #[trigger]
                    slim@.texts.contains_key(id) && call_ensures(decode, (slim@.texts[id],), None)
            },
        },
{
    let ghost batch = slim@.texts;
    let mut texts = slim.texts;
    let mut updates = NodeTable::new();
    let ids = texts.keys();
    proof {
        lemma_visited_none(ids@);
        assert(batch.remove_keys(Set::<u128>::empty()) =~= batch);
    }
    let mut i: usize = 0;
    while i < ids.len()
        invariant
            i <= ids.len(),
            ids@.no_duplicates(),
            ids@.to_set() == batch.dom(),
            batch == slim@.texts,
            forall|id: u128| #[trigger]
                batch.contains_key(id) ==> call_requires(decode, (batch[id],)),
            texts@ == batch.remove_keys(visited(ids@, i as int)),
            updates@.dom() == visited(ids@, i as int),
            forall|id: u128| #[trigger]
                updates@.contains_key(id) ==> call_ensures(
                    decode,
                    (batch[id],),
                    Some(updates@[id]),
                ),
        decreases ids.len() - i,
    {
        let id = ids[i];
        proof {
            assert(ids@.to_set().contains(id));
            lemma_visited_step(ids@, i as int);
            assert(batch.remove_keys(visited(ids@, i as int)).remove(id) =~= batch.remove_keys(
                visited(ids@, i + 1),
            ));
        }
        match texts.remove(&id) {
            Some(text) => {
                match decode(text) {
                    Some(update) => {
                        updates.insert(id, update);
                    },
                    None => {
                        return Err(CodecError::Payload);
                    },
                }
            },
            None => {},
        }
        i += 1;
    }
    proof {
        lemma_visited_all(ids@);
    }
    Ok(GraphDiff::from_diffs(NodeDiff::new(updates, slim.deleted), slim.edges))
}

/// Decides on bytes that were written as the frame of `slim`: they are
/// handed on where they read back as a changeset equal to `slim`, and
/// refused with `Envelope` where they frame nothing or something else.
pub fn accept_frame(slim: &SlimDiff, bytes: Vec<u8>) -> (outcome: Result<Vec<u8>, CodecError>)
    ensures
        outcome == (if slim_of(bytes@) is Some && slim_of(bytes@).unwrap().same_as(slim@) {
            Ok::<Vec<u8>, CodecError>(bytes)
        } else {
            Err::<Vec<u8>, CodecError>(CodecError::Envelope)
        }),
{
    let same = match unframe(bytes.as_slice()) {
        Ok(back) => back == *slim,
        Err(_) => false,
    };
    if same {
        Ok(bytes)
    } else {
        Err(CodecError::Envelope)
    }
}

/// Frames a travelling changeset as bytes, and reads the bytes back before
/// it hands them out, as `accept_frame` does: the bytes of a successful
/// call are a frame, and the changeset that they frame is equal to the one
/// that was given.
///
/// The call fails with `Envelope` where the frame cannot be written, or
/// where what was written does not read back as the changeset.
pub fn slim_diff_to_bytes(slim: &SlimDiff) -> (outcome: Result<Vec<u8>, CodecError>)
    ensures
        match outcome {
            Ok(bytes) => slim_of(bytes@) is Some && slim_of(bytes@).unwrap().same_as(slim@),
            Err(error) => error == CodecError::Envelope,
        },
{
    match frame(&slim.texts, &slim.deleted, &slim.edges.new_or_updated, &slim.edges.deleted) {
        Ok(bytes) => accept_frame(slim, bytes),
        Err(_) => Err(CodecError::Envelope),
    }
}

/// Reads the travelling changeset that the bytes frame.
pub fn bytes_to_slim_diff(bytes: &[u8]) -> (outcome: Result<SlimDiff, CodecError>)
    ensures
        match outcome {
            Ok(slim) => slim_of(bytes@) == Some(slim@),
            Err(error) => error == CodecError::Envelope && slim_of(bytes@) is None,
        },
{
    match unframe(bytes) {
        Ok(slim) => Ok(slim),
        Err(_) => Err(CodecError::Envelope),
    }
}

/// Serializes a changeset to bytes: the diff is made slim, the payload
/// delta of every node made a text with `encode`, and the slim diff is
/// framed as `slim_diff_to_bytes` does. The bytes of a successful call are
/// a frame of the diff.
///
/// The call fails with `Payload` only where `encode` refuses a payload
/// delta of the diff, and with `Envelope` only where the frame cannot be
/// written or does not read back as the changeset.
pub fn graph_diff_to_bytes<F: Fn(&NodeUpdate) -> Option<String>>(diff: &GraphDiff, encode: F) -> (outcome:
    Result<Vec<u8>, CodecError>)
    requires
        forall|id: u128| #[trigger]
            diff@.nodes.new_or_updated.contains_key(id) ==> call_requires(
                encode,
                (&diff@.nodes.new_or_updated[id],),
            ),
    ensures
        outcome matches Ok(bytes) ==> frames(bytes@, diff@, encode),
        outcome == Err::<Vec<u8>, CodecError>(CodecError::Payload) ==> exists|id: u128| #[trigger]
            diff@.nodes.new_or_updated.contains_key(id) && call_ensures(
                encode,
                (&diff@.nodes.new_or_updated[id],),
                None,
            ),
        outcome != Err::<Vec<u8>, CodecError>(CodecError::Payload) ==> forall|id: u128| #[trigger]
            diff@.nodes.new_or_updated.contains_key(id) ==> exists|text: String|
                call_ensures(encode, (&diff@.nodes.new_or_updated[id],), Some(text)),
{
    match graph_diff_to_slim_diff(diff, &encode) {
        Ok(slim) => {
            let outcome = slim_diff_to_bytes(&slim);
            proof {
                assert forall|id: u128| #[trigger]
                    diff@.nodes.new_or_updated.contains_key(id) implies exists|text: String|
                    call_ensures(encode, (&diff@.nodes.new_or_updated[id],), Some(text)) by {
                    assert(slim@.texts.contains_key(id));
                    assert(call_ensures(
                        encode,
                        (&diff@.nodes.new_or_updated[id],),
                        Some(slim@.texts[id]),
                    ));
                }
                if outcome is Ok {
                    assert(slims_to(diff@, slim@, encode) && slim_of(
                        outcome.unwrap()@,
                    ).unwrap().same_as(slim@));
                }
            }
            outcome
        },
        Err(_) => Err(CodecError::Payload),
    }
}

/// Deserializes a changeset from bytes, every text made a payload delta
/// with `decode`.
///
/// The call fails with `Envelope` exactly where the bytes frame no
/// changeset; else it fails with `Payload` where `decode` refuses one of
/// the texts, and gives the changeset of the frame where it refuses none.
pub fn bytes_to_graph_diff<F: Fn(String) -> Option<NodeUpdate>>(bytes: &[u8], decode: F) -> (outcome:
    Result<GraphDiff, CodecError>)
    requires
        forall|text: String| call_requires(decode, (text,)),
    ensures
        reads_as(bytes@, outcome, decode),
{
    match bytes_to_slim_diff(bytes) {
        Ok(slim) => {
            let ghost texts = slim@.texts;
            let outcome = slim_diff_to_graph_diff(slim, &decode);
            proof {
                if outcome is Err {
                    let id = choose|id: u128| #[trigger]
                        texts.contains_key(id) && call_ensures(&decode, (texts[id],), None);
                    assert(slim_of(bytes@).unwrap().texts.contains_key(id) && call_ensures(
                        decode,
                        (slim_of(bytes@).unwrap().texts[id],),
                        None,
                    ));
                }
            }
            outcome
        },
        Err(error) => Err(error),
    }
}

/// `bincode::serialize`, given the three parts of the frame as one tuple:
/// the texts, the deleted nodes, and the pair of edge maps, each as the
/// `hashbrown` collection that it is. Nothing is said of the bytes: their
/// order follows the order in which the tables hand out their entries.
#[verifier::external_body]
fn frame(texts: &TextTable, deleted: &IdSet, rows: &EdgeTable, sets: &EdgeSetTable) -> (outcome:
    Result<Vec<u8>, Box<bincode::ErrorKind>>)
{
    let rows: hashbrown::HashMap<u128, &hashbrown::HashMap<u128, u32>> =
        rows.rows.iter().map(|(from, row)| (*from, &row.weights)).collect();
    let sets: hashbrown::HashMap<u128, &hashbrown::HashSet<u128>> =
        sets.sets.iter().map(|(from, set)| (*from, &set.ids)).collect();
    bincode::serialize(&(&texts.texts, &deleted.ids, (rows, sets)))
}

/// `bincode::deserialize`, asked for the three parts of the frame as one
/// tuple of `hashbrown` collections, which are then put into the library's
/// tables as they are. What comes out depends on the bytes alone, and
/// [`slim_of`] is its name.
#[verifier::external_body]
fn unframe(bytes: &[u8]) -> (outcome: Result<SlimDiff, Box<bincode::ErrorKind>>)
    ensures
        match outcome {
            Ok(slim) => slim_of(bytes@) == Some(slim@),
            Err(_) => slim_of(bytes@) is None,
        },
{
    let (texts, ids, (rows, sets)): (
        hashbrown::HashMap<u128, String>,
        hashbrown::HashSet<u128>,
        (hashbrown::HashMap<u128, hashbrown::HashMap<u128, u32>>, hashbrown::HashMap<u128, hashbrown::HashSet<u128>>),
    ) = bincode::deserialize(bytes)?;
    let rows = rows.into_iter().map(|(from, weights)| (from, WeightTable { weights })).collect();
    let sets = sets.into_iter().map(|(from, ids)| (from, IdSet { ids })).collect();
    let edges = EdgeDiff { new_or_updated: EdgeTable { rows }, deleted: EdgeSetTable { sets } };
    Ok(SlimDiff { texts: TextTable { texts }, deleted: IdSet { ids }, edges })
}

} // verus!
