//! Changesets: a node diff, an edge diff, and the graph diff that owns one of
//! each and keeps them consistent.

use crate::batches::{all_live, is_walk_of, lemma_all_live_rows, live_edges, sub_edges};
use crate::edge_set_table::{set_or_empty, EdgeSetTable};
use crate::edge_table::{row_or_empty, EdgeTable};
use crate::id_set::IdSet;
use crate::model::{EdgeDiffView, GraphDiffView, NodeDiffView};
use crate::node_table::NodeTable;
use crate::node_update::NodeUpdate;
use crate::walk::{lemma_visited_all, lemma_visited_none, lemma_visited_step, visited};
use core::ops::AddAssign;
use vstd::prelude::*;

verus! {

/// Why an operation on a diff was refused.
#[derive(Clone, Copy, Debug, PartialEq, Eq)]
pub enum DiffError {
    /// An edge was to be added at a node that is marked as deleted.
    EndpointDeleted,
}

impl DiffError {
    /// The error in words.
    pub fn message(&self) -> (text: &'static str)
        ensures
            text@ == "Either from or to nodes are marked to be deleted"@,
    {
        "Either from or to nodes are marked to be deleted"
    }
}

/// A count as a `usize` can give it: itself, or `usize::MAX` where it is
/// larger.
pub open spec fn saturated(count: nat) -> nat {
    if count > usize::MAX {
        usize::MAX as nat
    } else {
        count
    }
}

/// A diff between the nodes of two graphs.
#[derive(Debug)]
pub struct NodeDiff {
    pub(crate) new_or_updated: NodeTable,
    pub(crate) deleted: IdSet,
}

/// A diff between the edges of two graphs.
#[derive(Debug)]
pub struct EdgeDiff {
    pub(crate) new_or_updated: EdgeTable,
    pub(crate) deleted: EdgeSetTable,
}

/// A differential between two graphs.
///
/// It holds a diff for the nodes and one for the edges. Each holds what is
/// new or updated and what is marked for deletion. A diff that is made
/// empty and changed through the methods below, `add_edges_unchecked` apart,
/// is always consistent: [`GraphDiff::wf`] holds of it. A diff that
/// `from_diffs` makes, or that was read from bytes, is as consistent as
/// its parts were.
///
/// Node identifiers are 128-bit numbers. An edge weight is the bit pattern
/// of a single-precision number; every pattern is accepted as it is, those
/// of infinities and of not-a-number included.
#[derive(Debug)]
pub struct GraphDiff {
    pub(crate) nodes: NodeDiff,
    pub(crate) edges: EdgeDiff,
}

impl View for NodeDiff {
    type V = NodeDiffView;

    closed spec fn view(&self) -> NodeDiffView {
        NodeDiffView { new_or_updated: self.new_or_updated@, deleted: self.deleted@ }
    }
}

impl View for EdgeDiff {
    type V = EdgeDiffView;

    closed spec fn view(&self) -> EdgeDiffView {
        EdgeDiffView { new_or_updated: self.new_or_updated@, deleted: self.deleted@ }
    }
}

impl View for GraphDiff {
    type V = GraphDiffView;

    closed spec fn view(&self) -> GraphDiffView {
        GraphDiffView { nodes: self.nodes@, edges: self.edges@ }
    }
}

impl NodeDiff {
    /// A node diff of the given updates and tombstones.
    pub fn new(new_or_updated: NodeTable, deleted: IdSet) -> (diff: NodeDiff)
        ensures
            diff@ == (NodeDiffView { new_or_updated: new_or_updated@, deleted: deleted@ }),
    {
        NodeDiff { new_or_updated, deleted }
    }

    /// The pending update of each node.
    pub fn get_new_or_updated(&self) -> (table: &NodeTable)
        ensures
            table@ == self@.new_or_updated,
    {
        &self.new_or_updated
    }

    /// The nodes that are marked as deleted.
    pub fn get_deleted(&self) -> (set: &IdSet)
        ensures
            set@ == self@.deleted,
    {
        &self.deleted
    }
}

impl PartialEq for NodeDiff {
    /// Two node diffs are equal where they hold the same updates and the
    /// same tombstones, in whatever order they were built.
    fn eq(&self, other: &NodeDiff) -> (equal: bool) {
        self.new_or_updated == other.new_or_updated && self.deleted == other.deleted
    }
}

impl vstd::std_specs::cmp::PartialEqSpecImpl for NodeDiff {
    open spec fn obeys_eq_spec() -> bool {
        true
    }

    open spec fn eq_spec(&self, other: &NodeDiff) -> bool {
        self@.same_as(other@)
    }
}

impl Clone for NodeDiff {
    fn clone(&self) -> (copy: NodeDiff)
        ensures
            copy@ == self@,
    {
        NodeDiff { new_or_updated: self.new_or_updated.clone(), deleted: self.deleted.clone() }
    }
}

impl EdgeDiff {
    /// An edge diff of the given pending and deleted edges.
    pub fn new(new_or_updated: EdgeTable, deleted: EdgeSetTable) -> (diff: EdgeDiff)
        ensures
            diff@ == (EdgeDiffView { new_or_updated: new_or_updated@, deleted: deleted@ }),
    {
        EdgeDiff { new_or_updated, deleted }
    }

    /// The pending edges: source to destination to weight.
    pub fn get_new_or_updated(&self) -> (table: &EdgeTable)
        ensures
            table@ == self@.new_or_updated,
    {
        &self.new_or_updated
    }

    /// The edges that are marked as deleted: source to destinations.
    pub fn get_deleted(&self) -> (table: &EdgeSetTable)
        ensures
            table@ == self@.deleted,
    {
        &self.deleted
    }
}

impl PartialEq for EdgeDiff {
    /// Two edge diffs are equal where they hold the same pending edges with
    /// the same weights and the same deleted edges, in whatever order they
    /// were built.
    fn eq(&self, other: &EdgeDiff) -> (equal: bool) {
        self.new_or_updated == other.new_or_updated && self.deleted == other.deleted
    }
}

impl vstd::std_specs::cmp::PartialEqSpecImpl for EdgeDiff {
    open spec fn obeys_eq_spec() -> bool {
        true
    }

    open spec fn eq_spec(&self, other: &EdgeDiff) -> bool {
        self@ == other@
    }
}

impl Clone for EdgeDiff {
    fn clone(&self) -> (copy: EdgeDiff)
        ensures
            copy@ == self@,
    {
        EdgeDiff { new_or_updated: self.new_or_updated.clone(), deleted: self.deleted.clone() }
    }
}

impl Default for GraphDiff {
    /// The empty diff.
    fn default() -> (diff: GraphDiff)
        ensures
            diff@ == GraphDiffView::empty(),
            diff.wf(),
    {
        GraphDiff {
            nodes: NodeDiff { new_or_updated: NodeTable::new(), deleted: IdSet::new() },
            edges: EdgeDiff { new_or_updated: EdgeTable::new(), deleted: EdgeSetTable::new() },
        }
    }
}

impl PartialEq for GraphDiff {
    /// Two diffs are equal where their node diffs and their edge diffs are,
    /// in whatever order they were built.
    fn eq(&self, other: &GraphDiff) -> (equal: bool) {
        self.nodes == other.nodes && self.edges == other.edges
    }
}

impl vstd::std_specs::cmp::PartialEqSpecImpl for GraphDiff {
    open spec fn obeys_eq_spec() -> bool {
        true
    }

    open spec fn eq_spec(&self, other: &GraphDiff) -> bool {
        self@.same_as(other@)
    }
}

impl Clone for GraphDiff {
    fn clone(&self) -> (copy: GraphDiff)
        ensures
            copy@ == self@,
    {
        GraphDiff { nodes: self.nodes.clone(), edges: self.edges.clone() }
    }
}

impl GraphDiff {
    /// Whether the diff is consistent, as [`GraphDiffView::wf`] says.
    pub open spec fn wf(&self) -> bool {
        self@.wf()
    }

    /// The empty diff.
    pub fn new() -> (diff: GraphDiff)
        ensures
            diff@ == GraphDiffView::empty(),
            diff.wf(),
    {
        GraphDiff::default()
    }

    /// A diff of the given node diff and edge diff, taken as they are: the
    /// diff is consistent only if the two parts are consistent with each
    /// other.
    pub fn from_diffs(nodes: NodeDiff, edges: EdgeDiff) -> (diff: GraphDiff)
        ensures
            diff@ == (GraphDiffView { nodes: nodes@, edges: edges@ }),
    {
        GraphDiff { nodes, edges }
    }

    /// The node diff.
    pub fn nodes(&self) -> (nodes: &NodeDiff)
        ensures
            nodes@ == self@.nodes,
    {
        &self.nodes
    }

    /// The pending update of each node.
    pub fn new_or_updated_nodes(&self) -> (table: &NodeTable)
        ensures
            table@ == self@.nodes.new_or_updated,
    {
        &self.nodes.new_or_updated
    }

    /// The nodes that are marked as deleted.
    pub fn deleted_nodes(&self) -> (set: &IdSet)
        ensures
            set@ == self@.nodes.deleted,
    {
        &self.nodes.deleted
    }

    /// The edge diff.
    pub fn edges(&self) -> (edges: &EdgeDiff)
        ensures
            edges@ == self@.edges,
    {
        &self.edges
    }

    /// The pending edges: source to destination to weight.
    pub fn new_or_updated_edges(&self) -> (table: &EdgeTable)
        ensures
            table@ == self@.edges.new_or_updated,
    {
        &self.edges.new_or_updated
    }

    /// The edges that are marked as deleted: source to destinations.
    pub fn deleted_edges(&self) -> (table: &EdgeSetTable)
        ensures
            table@ == self@.edges.deleted,
    {
        &self.edges.deleted
    }

    /// Whether the diff holds no node and no edge, pending or deleted.
    pub fn is_empty(&self) -> (empty: bool)
        ensures
            empty <==> self@ == GraphDiffView::empty(),
    {
        self.nodes.new_or_updated.is_empty() && self.nodes.deleted.is_empty()
            && self.edges.new_or_updated.is_empty() && self.edges.deleted.is_empty()
    }

    /// The number of nodes that the diff names: those with an update and
    /// those marked as deleted. A count beyond `usize::MAX` is given as
    /// `usize::MAX`.
    pub fn num_nodes(&self) -> (count: usize)
        ensures
            self@.nodes.new_or_updated.dom().finite(),
            self@.nodes.deleted.finite(),
            count == saturated(self@.nodes.new_or_updated.dom().len() + self@.nodes.deleted.len()),
    {
        self.nodes.new_or_updated.len().saturating_add(self.nodes.deleted.len())
    }

    /// The number of sources under which the diff holds edges: those with
    /// pending edges and those with edges marked as deleted, a source of
    /// both counted twice. A count beyond `usize::MAX` is given as
    /// `usize::MAX`.
    pub fn num_edges(&self) -> (count: usize)
        ensures
            self@.edges.new_or_updated.dom().finite(),
            self@.edges.deleted.dom().finite(),
            count == saturated(
                self@.edges.new_or_updated.dom().len() + self@.edges.deleted.dom().len(),
            ),
    {
        self.edges.new_or_updated.len().saturating_add(self.edges.deleted.len())
    }

    /// Whether neither edge map names a node that is marked as deleted: no
    /// source that it lists, with or without anything under it, and no
    /// destination.
    ///
    /// This asks more than [`GraphDiff::wf`] does. A diff in which a node was
    /// deleted after an edge had reached it does not pass: `delete_node`
    /// marks that edge as deleted, and the edge names the node.
    pub fn is_internally_consistent(&self) -> (consistent: bool)
        ensures
            consistent <==> self@.internally_consistent(),
    {
        self.pending_avoids_tombstones() && self.deleted_avoids_tombstones()
    }

    /// Whether no source and no destination of the pending edges is marked
    /// as deleted.
    fn pending_avoids_tombstones(&self) -> (clean: bool)
        ensures
            clean <==> self@.pending_avoids_tombstones(),
    {
        let sources = self.edges.new_or_updated.keys();
        proof {
            lemma_visited_none(sources@);
        }
        let mut i: usize = 0;
        while i < sources.len()
            invariant
                i <= sources.len(),
                sources@.to_set() == self@.edges.new_or_updated.dom(),
                forall|f: u128| #[trigger]
                    visited(sources@, i as int).contains(f) ==> !self@.is_tombstoned(f),
                forall|f: u128, t: u128|
                    visited(sources@, i as int).contains(f) && #[trigger] self@.edges.has_edge(f, t)
                        ==> !self@.is_tombstoned(t),
            decreases sources.len() - i,
        {
            let from = sources[i];
            proof {
                assert(sources@.to_set().contains(from));
                lemma_visited_step(sources@, i as int);
            }
            if self.nodes.deleted.contains(&from) {
                proof {
                    assert(self@.edges.new_or_updated.contains_key(from));
                }
                return false;
            }
            match self.edges.new_or_updated.get(&from) {
                Some(row) => {
                    let tos = row.keys();
                    proof {
                        lemma_visited_none(tos@);
                    }
                    let mut j: usize = 0;
                    while j < tos.len()
                        invariant
                            j <= tos.len(),
                            self@.edges.new_or_updated.contains_key(from),
                            row@ == self@.edges.new_or_updated[from],
                            tos@.to_set() == row@.dom(),
                            forall|t: u128| #[trigger]
                                visited(tos@, j as int).contains(t) ==> !self@.is_tombstoned(t),
                        decreases tos.len() - j,
                    {
                        let to = tos[j];
                        proof {
                            assert(tos@.to_set().contains(to));
                            lemma_visited_step(tos@, j as int);
                        }
                        if self.nodes.deleted.contains(&to) {
                            proof {
                                assert(self@.edges.has_edge(from, to));
                            }
                            return false;
                        }
                        j += 1;
                    }
                    proof {
                        lemma_visited_all(tos@);
                        assert forall|t: u128| #[trigger]
                            self@.edges.has_edge(from, t) implies !self@.is_tombstoned(t) by {
                            assert(visited(tos@, j as int).contains(t));
                        }
                    }
                },
                None => {},
            }
            i += 1;
        }
        proof {
            lemma_visited_all(sources@);
            assert forall|f: u128| #[trigger]
                self@.edges.new_or_updated.contains_key(f) implies !self@.is_tombstoned(f) by {
                assert(visited(sources@, i as int).contains(f));
            }
            assert forall|f: u128, t: u128| #[trigger]
                self@.edges.has_edge(f, t) implies !self@.is_tombstoned(f) && !self@.is_tombstoned(
                t,
            ) by {
                assert(visited(sources@, i as int).contains(f));
            }
        }
        true
    }

    /// Whether no source and no destination of the edges marked as deleted
    /// is marked as deleted.
    fn deleted_avoids_tombstones(&self) -> (clean: bool)
        ensures
            clean <==> self@.deleted_avoids_tombstones(),
    {
        let sources = self.edges.deleted.keys();
        proof {
            lemma_visited_none(sources@);
        }
        let mut i: usize = 0;
        while i < sources.len()
            invariant
                i <= sources.len(),
                sources@.to_set() == self@.edges.deleted.dom(),
                forall|f: u128| #[trigger]
                    visited(sources@, i as int).contains(f) ==> !self@.is_tombstoned(f),
                forall|f: u128, t: u128|
                    visited(sources@, i as int).contains(f) && #[trigger] self@.edges.is_deleted(
                        f,
                        t,
                    ) ==> !self@.is_tombstoned(t),
            decreases sources.len() - i,
        {
            let from = sources[i];
            proof {
                assert(sources@.to_set().contains(from));
                lemma_visited_step(sources@, i as int);
            }
            if self.nodes.deleted.contains(&from) {
                proof {
                    assert(self@.edges.deleted.contains_key(from));
                }
                return false;
            }
            match self.edges.deleted.get(&from) {
                Some(set) => {
                    let tos = set.ids();
                    proof {
                        lemma_visited_none(tos@);
                    }
                    let mut j: usize = 0;
                    while j < tos.len()
                        invariant
                            j <= tos.len(),
                            self@.edges.deleted.contains_key(from),
                            set@ == self@.edges.deleted[from],
                            tos@.to_set() == set@,
                            forall|t: u128| #[trigger]
                                visited(tos@, j as int).contains(t) ==> !self@.is_tombstoned(t),
                        decreases tos.len() - j,
                    {
                        let to = tos[j];
                        proof {
                            assert(tos@.to_set().contains(to));
                            lemma_visited_step(tos@, j as int);
                        }
                        if self.nodes.deleted.contains(&to) {
                            proof {
                                assert(self@.edges.is_deleted(from, to));
                            }
                            return false;
                        }
                        j += 1;
                    }
                    proof {
                        lemma_visited_all(tos@);
                        assert forall|t: u128| #[trigger]
                            self@.edges.is_deleted(from, t) implies !self@.is_tombstoned(t) by {
                            assert(visited(tos@, j as int).contains(t));
                        }
                    }
                },
                None => {},
            }
            i += 1;
        }
        proof {
            lemma_visited_all(sources@);
            assert forall|f: u128| #[trigger]
                self@.edges.deleted.contains_key(f) implies !self@.is_tombstoned(f) by {
                assert(visited(sources@, i as int).contains(f));
            }
            assert forall|f: u128, t: u128| #[trigger]
                self@.edges.is_deleted(f, t) implies !self@.is_tombstoned(f) && !self@.is_tombstoned(
                t,
            ) by {
                assert(visited(sources@, i as int).contains(f));
            }
        }
        true
    }

    /// Adds a node to the diff. A node that has an update keeps it; a node
    /// that was marked as deleted is so no more.
    pub fn add_node(&mut self, node_id: &u128)
        ensures
            final(self)@ == old(self)@.add_node(*node_id),
            old(self).wf() ==> final(self).wf(),
    {
        proof {
            if self.wf() {
                self@.lemma_node_updates_keep_wf(*node_id, NodeUpdate::empty());
            }
        }
        self.nodes.new_or_updated.try_insert(*node_id, NodeUpdate::default());
        self.nodes.deleted.remove(node_id);
    }

    /// Adds a node with an update, or merges the update into the one that
    /// the node has. A node that was marked as deleted is so no more.
    pub fn add_or_update_node(&mut self, node_id: &u128, update: NodeUpdate)
        ensures
            final(self)@ == old(self)@.add_or_update_node(*node_id, update),
            old(self).wf() ==> final(self).wf(),
    {
        proof {
            if self.wf() {
                self@.lemma_node_updates_keep_wf(*node_id, update);
            }
        }
        match self.nodes.new_or_updated.get_mut(node_id) {
            Some(node) => {
                node.add_assign(update);
            },
            None => {
                self.nodes.new_or_updated.insert(*node_id, update);
            },
        }
        self.nodes.deleted.remove(node_id);
    }

    /// The update of a node, to be changed in place. The node is added
    /// first, as by `add_node`. What the caller leaves in the update is what
    /// the diff holds for the node afterwards.
    pub fn get_or_create_mut_node_update(&mut self, node_id: &u128) -> (update: &mut NodeUpdate)
        ensures
            *update == old(self)@.add_node(*node_id).nodes.new_or_updated[*node_id],
            final(self)@ == old(self)@.set_node_update(*node_id, *final(update)),
            old(self).wf() ==> final(self).wf(),
    {
        proof {
            assert forall|delta: NodeUpdate| old(self).wf() implies #[trigger] old(self)@.set_node_update(*node_id, delta).wf() by {
                old(self)@.lemma_node_updates_keep_wf(*node_id, delta);
            }
        }
        self.add_node(node_id);
        proof {
            assert forall|delta: NodeUpdate| #[trigger]
                self@.nodes.new_or_updated.insert(*node_id, delta) == old(self)@.nodes.new_or_updated.insert(*node_id, delta) by {
                assert(self@.nodes.new_or_updated.insert(*node_id, delta) =~= old(self)@.nodes.new_or_updated.insert(*node_id, delta));
            }
            assert(self@.nodes.deleted.remove(*node_id) =~= self@.nodes.deleted);
        }
        self.nodes.new_or_updated.get_mut(node_id).unwrap()
    }

    /// Use with caution: replaces the update of the node by the given one,
    /// and whatever had been merged into it is lost. A node that was marked
    /// as deleted is so no more.
    pub fn set_node_update(&mut self, node_id: &u128, update: NodeUpdate)
        ensures
            final(self)@ == old(self)@.set_node_update(*node_id, update),
            old(self).wf() ==> final(self).wf(),
    {
        proof {
            if self.wf() {
                self@.lemma_node_updates_keep_wf(*node_id, update);
            }
        }
        self.nodes.new_or_updated.insert(*node_id, update);
        self.nodes.deleted.remove(node_id);
    }

    /// Marks a node as deleted. Its pending update goes, and with it every
    /// pending edge that leaves or reaches the node; an edge that reached it
    /// from another node is marked as deleted as well.
    pub fn delete_node(&mut self, node_id: u128)
        ensures
            final(self)@ == old(self)@.delete_node(node_id),
            old(self).wf() ==> final(self).wf(),
            forall|from: u128, to: u128| #[trigger]
                final(self)@.edges.has_edge(from, to) <==> old(self)@.edges.has_edge(from, to)
                    && from != node_id && to != node_id,
            forall|from: u128|
                from != node_id && #[trigger] old(self)@.edges.has_edge(from, node_id) ==> final(self)@.edges.is_deleted(from, node_id),
    {
        let ghost before = self@;
        proof {
            before.lemma_delete_node_cascades(node_id);
            if before.wf() {
                before.lemma_delete_node_keeps_wf(node_id);
            }
            before.edges.lemma_delete_node_among_none(node_id);
        }
        self.nodes.new_or_updated.remove(&node_id);
        self.edges.new_or_updated.remove(&node_id);
        let sources = self.edges.new_or_updated.keys();
        proof {
            lemma_visited_none(sources@);
        }
        let mut i: usize = 0;
        while i < sources.len()
            invariant
                i <= sources.len(),
                sources@.no_duplicates(),
                sources@.to_set() == before.edges.new_or_updated.remove(node_id).dom(),
                self@.nodes.new_or_updated == before.nodes.new_or_updated.remove(node_id),
                self@.nodes.deleted == before.nodes.deleted,
                self@.edges == before.edges.delete_node_among(
                    node_id,
                    visited(sources@, i as int),
                ),
            decreases sources.len() - i,
        {
            let from = sources[i];
            proof {
                assert(sources@.to_set().contains(from));
                lemma_visited_step(sources@, i as int);
                before.edges.lemma_delete_node_among_step(
                    node_id,
                    visited(sources@, i as int),
                    from,
                );
            }
            let (held, emptied) = match self.edges.new_or_updated.get_mut(&from) {
                Some(row) => {
                    let held = row.contains_key(&node_id);
                    row.remove(&node_id);
                    (held, row.is_empty())
                },
                None => (false, false),
            };
            if held {
                self.edges.deleted.entry_or_default(from).insert(node_id);
            }
            if emptied {
                self.edges.new_or_updated.remove(&from);
            }
            proof {
                let row = before.edges.new_or_updated[from].remove(node_id);
                let mid = before.edges.delete_node_among(node_id, visited(sources@, i as int));
                if emptied {
                    assert(self@.edges.new_or_updated =~= mid.new_or_updated.remove(from));
                }
            }
            i += 1;
        }
        proof {
            lemma_visited_all(sources@);
            before.edges.lemma_delete_node_among_all(node_id, visited(sources@, i as int));
        }
        self.nodes.deleted.insert(node_id);
    }

    /// Adds an edge to the diff, or gives the edge a new weight. An edge
    /// that was marked as deleted is so no more.
    ///
    /// Where `from` or `to` is a node that is marked as deleted, the edge is
    /// refused and the diff stays as it is.
    pub fn add_edge(&mut self, from: &u128, to: &u128, weight: u32) -> (outcome: Result<
        (),
        DiffError,
    >)
        ensures
            outcome == (if old(self)@.is_tombstoned(*from) || old(self)@.is_tombstoned(*to) {
                Err::<(), DiffError>(DiffError::EndpointDeleted)
            } else {
                Ok::<(), DiffError>(())
            }),
            outcome is Err ==> final(self)@ == old(self)@,
            outcome is Ok ==> final(self)@ == old(self)@.add_edge(*from, *to, weight),
            old(self).wf() ==> final(self).wf(),
    {
        if self.nodes.deleted.contains(from) || self.nodes.deleted.contains(to) {
            return Err(DiffError::EndpointDeleted);
        }
        proof {
            if self.wf() {
                self@.lemma_add_edge_keeps_wf(*from, *to, weight);
            }
        }
        let emptied = match self.edges.deleted.get_mut(from) {
            Some(set) => {
                set.remove(to);
                set.is_empty()
            },
            None => false,
        };
        if emptied {
            self.edges.deleted.remove(from);
        }
        self.edges.new_or_updated.entry_or_default(*from).insert(*to, weight);
        proof {
            assert(self.edges.deleted@ =~= old(self)@.add_edge(*from, *to, weight).edges.deleted);
        }
        Ok(())
    }

    /// Adds the edges of a batch one by one, as `add_edge` does. An edge
    /// that `add_edge` refuses ends the walk where `strict` is set, and is
    /// passed over where it is not.
    pub(crate) fn add_edges_walk(&mut self, edges: &EdgeTable, strict: bool) -> (outcome: Result<
        (),
        DiffError,
    >)
        ensures
            final(self)@.nodes == old(self)@.nodes,
            exists|applied: Map<u128, Map<u128, u32>>|
                sub_edges(applied, live_edges(edges@, old(self)@.nodes.deleted)) && final(self)@.edges
                    == #[trigger] old(self)@.edges.add_edges(applied),
            outcome is Ok ==> final(self)@.edges == old(self)@.edges.add_edges(
                live_edges(edges@, old(self)@.nodes.deleted),
            ),
            strict ==> (outcome is Ok <==> all_live(edges@, old(self)@.nodes.deleted)),
            !strict ==> outcome is Ok,
            outcome is Err ==> outcome == Err::<(), DiffError>(DiffError::EndpointDeleted),
            outcome is Ok ==> outcome == Ok::<(), DiffError>(()),
            old(self).wf() ==> final(self).wf(),
    {
        let ghost before = self@;
        let ghost tombstones = before.nodes.deleted;
        let ghost live = live_edges(edges@, tombstones);
        let ghost applied: Map<u128, Map<u128, u32>> = Map::empty();
        let sources = edges.keys();
        proof {
            before.edges.lemma_add_edges_none();
            lemma_visited_none(sources@);
        }
        let mut i: usize = 0;
        while i < sources.len()
            invariant
                i <= sources.len(),
                sources@.no_duplicates(),
                sources@.to_set() == edges@.dom(),
                before == old(self)@,
                tombstones == before.nodes.deleted,
                live == live_edges(edges@, tombstones),
                self@.nodes == before.nodes,
                self@.edges == before.edges.add_edges(applied),
                before.wf() ==> self.wf(),
                forall|f: u128|
                    visited(sources@, i as int).contains(f) ==> #[trigger] row_or_empty(applied, f)
                        == row_or_empty(live, f),
                forall|f: u128|
                    !visited(sources@, i as int).contains(f) ==> #[trigger] row_or_empty(
                        applied,
                        f,
                    ) == Map::<u128, u32>::empty(),
                strict ==> forall|f: u128, t: u128|
                    visited(sources@, i as int).contains(f) && edges@.contains_key(f)
                        && #[trigger] edges@[f].contains_key(t) ==> !tombstones.contains(f)
                        && !tombstones.contains(t),
            decreases sources.len() - i,
        {
            let from = sources[i];
            proof {
                assert(sources@.to_set().contains(from));
                lemma_visited_step(sources@, i as int);
            }
            match edges.get(&from) {
                Some(row) => {
                    let tos = row.keys();
                    proof {
                        lemma_visited_none(tos@);
                        assert(row_or_empty(live, from).restrict(visited(tos@, 0)) =~= Map::<
                            u128,
                            u32,
                        >::empty());
                    }
                    let mut j: usize = 0;
                    while j < tos.len()
                        invariant
                            j <= tos.len(),
                            0 <= i < sources.len(),
                            from == sources@[i as int],
                            edges@.contains_key(from),
                            row@ == edges@[from],
                            tos@.no_duplicates(),
                            tos@.to_set() == row@.dom(),
                            !visited(sources@, i as int).contains(from),
                            before == old(self)@,
                            tombstones == before.nodes.deleted,
                            live == live_edges(edges@, tombstones),
                            self@.nodes == before.nodes,
                            self@.edges == before.edges.add_edges(applied),
                            before.wf() ==> self.wf(),
                            forall|f: u128|
                                visited(sources@, i as int).contains(f) ==> #[trigger] row_or_empty(
                                    applied,
                                    f,
                                ) == row_or_empty(live, f),
                            forall|f: u128|
                                !visited(sources@, i as int).contains(f) && f != from
                                    ==> #[trigger] row_or_empty(applied, f) == Map::<
                                    u128,
                                    u32,
                                >::empty(),
                            row_or_empty(applied, from) == row_or_empty(live, from).restrict(
                                visited(tos@, j as int),
                            ),
                            strict ==> forall|f: u128, t: u128|
                                visited(sources@, i as int).contains(f) && edges@.contains_key(f)
                                    && #[trigger] edges@[f].contains_key(t) ==> !tombstones.contains(
                                    f,
                                ) && !tombstones.contains(t),
                            strict ==> forall|t: u128| #[trigger]
                                visited(tos@, j as int).contains(t) ==> !tombstones.contains(from)
                                    && !tombstones.contains(t),
                        decreases tos.len() - j,
                    {
                        let to = tos[j];
                        proof {
                            assert(tos@.to_set().contains(to));
                            lemma_visited_step(tos@, j as int);
                        }
                        match row.get(&to) {
                            Some(weight) => {
                                let ghost earlier = self@.edges;
                                match self.add_edge(&from, &to, *weight) {
                                    Ok(()) => {
                                        proof {
                                            before.edges.lemma_add_edges_step(
                                                applied,
                                                from,
                                                to,
                                                *weight,
                                            );
                                            let grown = row_or_empty(applied, from).insert(
                                                to,
                                                *weight,
                                            );
                                            assert(grown =~= row_or_empty(live, from).restrict(
                                                visited(tos@, j + 1),
                                            ));
                                            let more = applied.insert(from, grown);
                                            assert forall|f: u128| f != from implies #[trigger]
                                                row_or_empty(more, f) == row_or_empty(
                                                    applied,
                                                    f,
                                                ) by {}
                                            applied = more;
                                        }
                                    },
                                    Err(refusal) => {
                                        proof {
                                            assert(row_or_empty(live, from).restrict(
                                                visited(tos@, j as int),
                                            ) =~= row_or_empty(live, from).restrict(
                                                visited(tos@, j + 1),
                                            ));
                                        }
                                        if strict {
                                            proof {
                                                assert(sub_edges(applied, live)) by {
                                                    assert forall|f: u128| #[trigger]
                                                        row_or_empty(applied, f).submap_of(
                                                            row_or_empty(live, f),
                                                        ) by {
                                                        if f != from {
                                                            if !visited(sources@, i as int).contains(
                                                                f,
                                                            ) {
                                                                assert(row_or_empty(applied, f)
                                                                    == Map::<u128, u32>::empty());
                                                            }
                                                        }
                                                    }
                                                }
                                                assert(edges@[from].contains_key(to));
                                            }
                                            return Err(refusal);
                                        }
                                    },
                                }
                            },
                            None => {},
                        }
                        j += 1;
                    }
                    proof {
                        lemma_visited_all(tos@);
                        assert(row_or_empty(live, from).restrict(row@.dom()) =~= row_or_empty(
                            live,
                            from,
                        ));
                        if strict {
                            assert forall|t: u128| #[trigger]
                                edges@[from].contains_key(t) implies !tombstones.contains(from)
                                && !tombstones.contains(t) by {
                                assert(visited(tos@, j as int).contains(t));
                            }
                        }
                    }
                },
                None => {},
            }
            i += 1;
        }
        proof {
            lemma_visited_all(sources@);
            assert forall|f: u128| #[trigger] row_or_empty(applied, f) == row_or_empty(live, f) by {
                if !edges@.dom().contains(f) {
                    assert(row_or_empty(applied, f) == Map::<u128, u32>::empty());
                }
            }
            before.edges.lemma_add_edges_by_rows(applied, live);
            assert(sub_edges(applied, live));
            if strict {
                assert(all_live(edges@, tombstones));
            }
        }
        Ok(())
    }

    /// Adds the edges of a batch, one by one, as `add_edge` does. The first
    /// edge that is refused ends the call with its error; the edges added
    /// before it stay added, and which those are depends on the order in
    /// which the batch hands out its edges.
    pub fn add_edges(&mut self, edges: &EdgeTable) -> (outcome: Result<(), DiffError>)
        ensures
            outcome == (if all_live(edges@, old(self)@.nodes.deleted) {
                Ok::<(), DiffError>(())
            } else {
                Err::<(), DiffError>(DiffError::EndpointDeleted)
            }),
            outcome is Ok ==> final(self)@ == old(self)@.add_edges(edges@),
            exists|applied: Map<u128, Map<u128, u32>>|
                sub_edges(applied, live_edges(edges@, old(self)@.nodes.deleted)) && final(self)@
                    == #[trigger] old(self)@.add_edges(applied),
            old(self).wf() ==> final(self).wf(),
    {
        let ghost before = self@;
        let outcome = self.add_edges_walk(edges, true);
        proof {
            let live = live_edges(edges@, before.nodes.deleted);
            let applied = choose|applied: Map<u128, Map<u128, u32>>|
                sub_edges(applied, live) && self@.edges == #[trigger] before.edges.add_edges(
                    applied,
                );
            assert(self@ == before.add_edges(applied));
            if outcome is Ok {
                lemma_all_live_rows(edges@, before.nodes.deleted);
                before.edges.lemma_add_edges_by_rows(live, edges@);
            }
        }
        outcome
    }

    /// Marks the edges of a batch as deleted, one by one, as `delete_edge`
    /// does. It never fails.
    pub fn delete_edges(&mut self, edges: &EdgeSetTable) -> (outcome: Result<(), DiffError>)
        ensures
            outcome == Ok::<(), DiffError>(()),
            final(self)@ == old(self)@.delete_edges(edges@),
            old(self).wf() ==> final(self).wf(),
    {
        let ghost before = self@;
        let ghost applied: Map<u128, Set<u128>> = Map::empty();
        let sources = edges.keys();
        proof {
            before.edges.lemma_delete_edges_none();
            lemma_visited_none(sources@);
        }
        let mut i: usize = 0;
        while i < sources.len()
            invariant
                i <= sources.len(),
                sources@.no_duplicates(),
                sources@.to_set() == edges@.dom(),
                before == old(self)@,
                self@.nodes == before.nodes,
                self@.edges == before.edges.delete_edges(applied),
                before.wf() ==> self.wf(),
                forall|f: u128|
                    visited(sources@, i as int).contains(f) ==> #[trigger] set_or_empty(applied, f)
                        == set_or_empty(edges@, f),
                forall|f: u128|
                    !visited(sources@, i as int).contains(f) ==> #[trigger] set_or_empty(
                        applied,
                        f,
                    ) == Set::<u128>::empty(),
            decreases sources.len() - i,
        {
            let from = sources[i];
            proof {
                assert(sources@.to_set().contains(from));
                lemma_visited_step(sources@, i as int);
            }
            match edges.get(&from) {
                Some(set) => {
                    let tos = set.ids();
                    proof {
                        lemma_visited_none(tos@);
                    }
                    let mut j: usize = 0;
                    while j < tos.len()
                        invariant
                            j <= tos.len(),
                            0 <= i < sources.len(),
                            from == sources@[i as int],
                            edges@.contains_key(from),
                            set@ == edges@[from],
                            tos@.no_duplicates(),
                            tos@.to_set() == set@,
                            !visited(sources@, i as int).contains(from),
                            before == old(self)@,
                            self@.nodes == before.nodes,
                            self@.edges == before.edges.delete_edges(applied),
                            before.wf() ==> self.wf(),
                            forall|f: u128|
                                visited(sources@, i as int).contains(f) ==> #[trigger] set_or_empty(
                                    applied,
                                    f,
                                ) == set_or_empty(edges@, f),
                            forall|f: u128|
                                !visited(sources@, i as int).contains(f) && f != from
                                    ==> #[trigger] set_or_empty(applied, f) == Set::<u128>::empty(),
                            set_or_empty(applied, from) == visited(tos@, j as int),
                        decreases tos.len() - j,
                    {
                        let to = tos[j];
                        proof {
                            lemma_visited_step(tos@, j as int);
                            before.edges.lemma_delete_edges_step(applied, from, to);
                            let more = applied.insert(from, set_or_empty(applied, from).insert(to));
                            assert forall|f: u128| f != from implies #[trigger] set_or_empty(
                                more,
                                f,
                            ) == set_or_empty(applied, f) by {}
                            applied = more;
                        }
                        self.delete_edge(&from, &to);
                        j += 1;
                    }
                    proof {
                        lemma_visited_all(tos@);
                    }
                },
                None => {},
            }
            i += 1;
        }
        proof {
            lemma_visited_all(sources@);
            assert forall|f: u128| #[trigger] set_or_empty(applied, f) == set_or_empty(
                edges@,
                f,
            ) by {
                if !edges@.dom().contains(f) {
                    assert(set_or_empty(applied, f) == Set::<u128>::empty());
                }
            }
            before.edges.lemma_delete_edges_by_sets(applied, edges@);
        }
        Ok(())
    }

    /// Pours the rows of a batch into the pending edges, with no check at
    /// all: an edge of the batch stays pending whatever the diff holds of
    /// its nodes or of the edge itself. It never fails.
    ///
    /// The caller answers for the batch. With a batch that meets
    /// [`GraphDiffView::accepts_unchecked`] a consistent diff stays
    /// consistent; with another one it may silently cease to be so.
    pub fn add_edges_unchecked(&mut self, edges: EdgeTable) -> (outcome: Result<(), DiffError>)
        ensures
            outcome == Ok::<(), DiffError>(()),
            final(self)@ == old(self)@.add_edges_unchecked(edges@),
            old(self).wf() && old(self)@.accepts_unchecked(edges@) ==> final(self).wf(),
    {
        let ghost before = self@;
        let ghost batch = edges@;
        let mut edges = edges;
        let sources = edges.keys();
        proof {
            before.edges.lemma_add_edges_unchecked_none();
            lemma_visited_none(sources@);
            assert(batch.restrict(Set::<u128>::empty()) =~= Map::<u128, Map<u128, u32>>::empty());
            assert(batch.remove_keys(Set::<u128>::empty()) =~= batch);
        }
        let mut i: usize = 0;
        while i < sources.len()
            invariant
                i <= sources.len(),
                sources@.no_duplicates(),
                sources@.to_set() == batch.dom(),
                edges@ == batch.remove_keys(visited(sources@, i as int)),
                self@.nodes == before.nodes,
                self@.edges.deleted == before.edges.deleted,
                self@.edges.new_or_updated == before.edges.add_edges_unchecked(
                    batch.restrict(visited(sources@, i as int)),
                ).new_or_updated,
            decreases sources.len() - i,
        {
            let from = sources[i];
            proof {
                assert(sources@.to_set().contains(from));
                lemma_visited_step(sources@, i as int);
                before.edges.lemma_add_edges_unchecked_step(
                    batch,
                    visited(sources@, i as int),
                    from,
                );
                assert(batch.remove_keys(visited(sources@, i as int)).remove(from)
                    =~= batch.remove_keys(visited(sources@, i + 1)));
            }
            match edges.remove(&from) {
                Some(row) => {
                    self.edges.new_or_updated.entry_or_default(from).extend(row);
                },
                None => {},
            }
            i += 1;
        }
        proof {
            lemma_visited_all(sources@);
            assert(batch.restrict(batch.dom()) =~= batch);
            if before.wf() && before.accepts_unchecked(batch) {
                before.lemma_add_edges_unchecked_keeps_wf(batch);
            }
        }
        Ok(())
    }

    /// Marks an edge as deleted. If the edge is pending, it is so no more.
    pub fn delete_edge(&mut self, from: &u128, to: &u128)
        ensures
            final(self)@ == old(self)@.delete_edge(*from, *to),
            old(self).wf() ==> final(self).wf(),
    {
        proof {
            if self.wf() {
                self@.lemma_delete_edge_keeps_wf(*from, *to);
            }
        }
        self.edges.deleted.entry_or_default(*from).insert(*to);
        let emptied = match self.edges.new_or_updated.get_mut(from) {
            Some(row) => {
                row.remove(to);
                row.is_empty()
            },
            None => false,
        };
        if emptied {
            self.edges.new_or_updated.remove(from);
        }
        proof {
            assert(self.edges.new_or_updated@ =~= old(self)@.delete_edge(
                *from,
                *to,
            ).edges.new_or_updated);
        }
    }

    /// Merges a node diff into this diff: each of its updates as
    /// `add_or_update_node` does, then each of its deletions as
    /// `delete_node` does, in the order in which its table hands them out.
    pub fn merge_nodes(&mut self, nodes: NodeDiff)
        ensures
            exists|order: Seq<u128>|
                is_walk_of(order, nodes@.deleted) && final(self)@ == #[trigger] old(self)@.merge_nodes(nodes@, order),
            old(self).wf() ==> final(self).wf(),
    {
        let ghost before = self@;
        let ghost batch = nodes@.new_or_updated;
        let mut updates = nodes.new_or_updated;
        let deleted = nodes.deleted;
        let ids = updates.keys();
        proof {
            before.nodes.lemma_add_or_update_nodes_none();
            lemma_visited_none(ids@);
            assert(batch.restrict(Set::<u128>::empty()) =~= Map::<u128, NodeUpdate>::empty());
            assert(batch.remove_keys(Set::<u128>::empty()) =~= batch);
        }
        let mut i: usize = 0;
        while i < ids.len()
            invariant
                i <= ids.len(),
                ids@.no_duplicates(),
                ids@.to_set() == batch.dom(),
                updates@ == batch.remove_keys(visited(ids@, i as int)),
                before.wf() ==> self.wf(),
                self@ == before.add_or_update_nodes(batch.restrict(visited(ids@, i as int))),
            decreases ids.len() - i,
        {
            let id = ids[i];
            proof {
                assert(ids@.to_set().contains(id));
                lemma_visited_step(ids@, i as int);
                before.nodes.lemma_add_or_update_nodes_step(batch, visited(ids@, i as int), id);
                assert(batch.remove_keys(visited(ids@, i as int)).remove(id)
                    =~= batch.remove_keys(visited(ids@, i + 1)));
            }
            match updates.remove(&id) {
                Some(update) => {
                    self.add_or_update_node(&id, update);
                },
                None => {},
            }
            i += 1;
        }
        proof {
            lemma_visited_all(ids@);
            assert(batch.restrict(batch.dom()) =~= batch);
        }
        let ghost merged = self@;
        let gone = deleted.ids();
        let mut k: usize = 0;
        while k < gone.len()
            invariant
                k <= gone.len(),
                before.wf() ==> self.wf(),
                self@ == merged.delete_nodes(gone@.subrange(0, k as int)),
            decreases gone.len() - k,
        {
            proof {
                assert(gone@.subrange(0, k + 1).drop_last() =~= gone@.subrange(0, k as int));
            }
            self.delete_node(gone[k]);
            k += 1;
        }
        proof {
            assert(gone@.subrange(0, k as int) =~= gone@);
            assert(is_walk_of(gone@, nodes@.deleted));
            assert(self@ == before.merge_nodes(nodes@, gone@));
        }
    }

    /// Merges an edge diff into this diff: each of its pending edges as
    /// `add_edge` does, then each of its deletions as `delete_edge` does. A
    /// pending edge that `add_edge` refuses, because it touches a node that
    /// this diff marks as deleted, is left out silently.
    pub fn merge_edges(&mut self, edges: EdgeDiff)
        ensures
            final(self)@ == old(self)@.merge_edges(edges@),
            old(self).wf() ==> final(self).wf(),
    {
        let _ = self.add_edges_walk(&edges.new_or_updated, false);
        let _ = self.delete_edges(&edges.deleted);
    }

    /// Merges another diff into this one, so that this diff stands for its
    /// own changes followed by those of `other`: the node diff of `other`
    /// is merged first, then its edge diff, whose pending edges are held
    /// against the tombstones as they are after the first step.
    pub fn merge(&mut self, other: GraphDiff)
        ensures
            exists|order: Seq<u128>|
                is_walk_of(order, other@.nodes.deleted) && final(self)@ == #[trigger] old(self)@.merge(other@, order),
            old(self).wf() ==> final(self).wf(),
    {
        let ghost before = self@;
        self.merge_nodes(other.nodes);
        proof {
            let order = choose|order: Seq<u128>|
                is_walk_of(order, other@.nodes.deleted) && self@ == #[trigger] before.merge_nodes(
                    other@.nodes,
                    order,
                );
            assert(before.merge(other@, order) == before.merge_nodes(
                other@.nodes,
                order,
            ).merge_edges(other@.edges));
        }
        self.merge_edges(other.edges);
    }

    /// Empties the diff.
    pub fn clear(&mut self)
        ensures
            final(self)@ == GraphDiffView::empty(),
            final(self).wf(),
    {
        self.nodes.new_or_updated.clear();
        self.nodes.deleted.clear();
        self.edges.new_or_updated.clear();
        self.edges.deleted.clear();
    }
}

impl AddAssign<NodeDiff> for GraphDiff {
    /// `merge_nodes`, written as `+=`.
    fn add_assign(&mut self, nodes: NodeDiff)
        ensures
            exists|order: Seq<u128>|
                is_walk_of(order, nodes@.deleted) && final(self)@ == #[trigger] old(self)@.merge_nodes(nodes@, order),
            old(self).wf() ==> final(self).wf(),
    {
        self.merge_nodes(nodes)
    }
}

impl AddAssign<EdgeDiff> for GraphDiff {
    /// `merge_edges`, written as `+=`.
    fn add_assign(&mut self, edges: EdgeDiff)
        ensures
            final(self)@ == old(self)@.merge_edges(edges@),
            old(self).wf() ==> final(self).wf(),
    {
        self.merge_edges(edges)
    }
}

impl AddAssign for GraphDiff {
    /// `merge`, written as `+=`.
    fn add_assign(&mut self, other: GraphDiff)
        ensures
            exists|order: Seq<u128>|
                is_walk_of(order, other@.nodes.deleted) && final(self)@ == #[trigger] old(self)@.merge(other@, order),
            old(self).wf() ==> final(self).wf(),
    {
        self.merge(other)
    }
}

} // verus!
