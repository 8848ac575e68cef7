//! What holds of every changeset that the algebra builds.

use crate::batches::{all_live, is_walk_of, live_edges};
use crate::edge_set_table::set_or_empty;
use crate::edge_table::row_or_empty;
use crate::model::{EdgeDiffView, GraphDiffView, NodeDiffView};
use crate::node_update::NodeUpdate;
use vstd::prelude::*;

verus! {

/// One step of building a changeset.
pub enum Operation {
    /// The node to add.
    AddNode(u128),
    /// The node, and the update to merge into the one it has.
    AddOrUpdateNode(u128, NodeUpdate),
    /// The node, and the update to replace the one it has.
    SetNodeUpdate(u128, NodeUpdate),
    /// The node to delete.
    DeleteNode(u128),
    /// Source, destination, weight.
    AddEdge(u128, u128, u32),
    /// Source, destination.
    DeleteEdge(u128, u128),
    /// A batch of edges, source to destination to weight, of which those
    /// are added that touch no tombstone.
    AddEdges(Map<u128, Map<u128, u32>>),
    /// The edges to mark as deleted, source to destinations.
    DeleteEdges(Map<u128, Set<u128>>),
    /// The diff to merge in, and the order in which its deleted nodes are
    /// taken.
    Merge(GraphDiffView, Seq<u128>),
    /// Empty the diff.
    Clear,
}

impl GraphDiffView {
    /// The diff after one operation. An edge that `add_edge` refuses
    /// leaves the diff as it is.
    pub open spec fn apply(self, operation: Operation) -> GraphDiffView {
        match operation {
            Operation::AddNode(id) => self.add_node(id),
            Operation::AddOrUpdateNode(id, delta) => self.add_or_update_node(id, delta),
            Operation::SetNodeUpdate(id, delta) => self.set_node_update(id, delta),
            Operation::DeleteNode(id) => self.delete_node(id),
            Operation::AddEdge(from, to, weight) => if self.is_tombstoned(from)
                || self.is_tombstoned(to) {
                self
            } else {
                self.add_edge(from, to, weight)
            },
            Operation::DeleteEdge(from, to) => self.delete_edge(from, to),
            Operation::AddEdges(batch) => self.add_edges(live_edges(batch, self.nodes.deleted)),
            Operation::DeleteEdges(dels) => self.delete_edges(dels),
            Operation::Merge(other, order) => self.merge(other, order),
            Operation::Clear => GraphDiffView::empty(),
        }
    }

    /// The diff after a sequence of operations, the first of it first.
    pub open spec fn run(self, operations: Seq<Operation>) -> GraphDiffView
        decreases operations.len(),
    {
        if operations.len() == 0 {
            self
        } else {
            self.run(operations.drop_last()).apply(operations.last())
        }
    }

    /// Merging updates in keeps a consistent diff consistent.
    pub proof fn lemma_add_or_update_nodes_keeps_wf(self, updates: Map<u128, NodeUpdate>)
        requires
            self.wf(),
        ensures
            self.add_or_update_nodes(updates).wf(),
    {
    }

    /// Deleting nodes one after the other keeps a consistent diff
    /// consistent.
    pub proof fn lemma_delete_nodes_keeps_wf(self, order: Seq<u128>)
        requires
            self.wf(),
        ensures
            self.delete_nodes(order).wf(),
        decreases order.len(),
    {
        if order.len() > 0 {
            self.lemma_delete_nodes_keeps_wf(order.drop_last());
            self.delete_nodes(order.drop_last()).lemma_delete_node_keeps_wf(order.last());
        }
    }

    /// Adding edges that touch no tombstone keeps a consistent diff
    /// consistent.
    pub proof fn lemma_add_edges_keeps_wf(self, adds: Map<u128, Map<u128, u32>>)
        requires
            self.wf(),
            all_live(adds, self.nodes.deleted),
        ensures
            self.add_edges(adds).wf(),
    {
        let after = self.add_edges(adds);
        assert forall|from: u128| #[trigger]
            after.edges.new_or_updated.contains_key(from) implies after.edges.new_or_updated[from]
            != Map::<u128, u32>::empty() by {
            let row = after.edges.new_or_updated[from];
            if self.edges.new_or_updated.contains_key(from) {
                let old_row = self.edges.new_or_updated[from];
                assert(old_row != Map::<u128, u32>::empty());
                if row == Map::<u128, u32>::empty() {
                    assert forall|to: u128| !old_row.contains_key(to) by {
                        assert(!row.contains_key(to));
                    }
                    assert(old_row =~= Map::<u128, u32>::empty());
                }
            } else {
                assert(row =~= row_or_empty(adds, from));
            }
        }
        assert forall|from: u128| #[trigger]
            after.edges.deleted.contains_key(from) implies after.edges.deleted[from] != Set::<
            u128,
        >::empty() by {
            if row_or_empty(adds, from) == Map::<u128, u32>::empty() {
                assert(after.edges.deleted[from] =~= self.edges.deleted[from]);
            }
        }
        assert forall|from: u128, to: u128| #[trigger]
            after.edges.has_edge(from, to) implies !after.edges.is_deleted(from, to)
            && !after.is_tombstoned(from) && !after.is_tombstoned(to) by {
            if row_or_empty(adds, from).contains_key(to) {
                assert(adds[from].contains_key(to));
            } else {
                assert(self.edges.has_edge(from, to));
                assert(!self.edges.is_deleted(from, to));
            }
        }
    }

    /// Marking edges as deleted keeps a consistent diff consistent.
    pub proof fn lemma_delete_edges_keeps_wf(self, dels: Map<u128, Set<u128>>)
        requires
            self.wf(),
        ensures
            self.delete_edges(dels).wf(),
    {
        let after = self.delete_edges(dels);
        assert forall|from: u128| #[trigger]
            after.edges.deleted.contains_key(from) implies after.edges.deleted[from] != Set::<
            u128,
        >::empty() by {
            let set = after.edges.deleted[from];
            if self.edges.deleted.contains_key(from) {
                let old_set = self.edges.deleted[from];
                assert(old_set != Set::<u128>::empty());
                if set == Set::<u128>::empty() {
                    assert forall|to: u128| !old_set.contains(to) by {
                        assert(!set.contains(to));
                    }
                    assert(old_set =~= Set::<u128>::empty());
                }
            } else {
                assert(set =~= set_or_empty(dels, from));
            }
        }
        assert forall|from: u128| #[trigger]
            after.edges.new_or_updated.contains_key(from) implies after.edges.new_or_updated[from]
            != Map::<u128, u32>::empty() by {
            if set_or_empty(dels, from) == Set::<u128>::empty() {
                assert(after.edges.new_or_updated[from] =~= self.edges.new_or_updated[from]);
            }
        }
        assert forall|from: u128, to: u128| #[trigger]
            after.edges.has_edge(from, to) implies self.edges.has_edge(from, to)
            && !after.edges.is_deleted(from, to) by {
            assert(self.edges.has_edge(from, to));
            assert(!self.edges.is_deleted(from, to));
        }
    }

    /// A batch that meets `accepts_unchecked` keeps a consistent diff
    /// consistent.
    pub proof fn lemma_add_edges_unchecked_keeps_wf(self, batch: Map<u128, Map<u128, u32>>)
        requires
            self.wf(),
            self.accepts_unchecked(batch),
        ensures
            self.add_edges_unchecked(batch).wf(),
    {
        let after = self.add_edges_unchecked(batch);
        assert forall|from: u128| #[trigger]
            after.edges.new_or_updated.contains_key(from) implies after.edges.new_or_updated[from]
            != Map::<u128, u32>::empty() by {
            if batch.contains_key(from) {
                assert(batch[from] != Map::<u128, u32>::empty());
                if after.edges.new_or_updated[from] == Map::<u128, u32>::empty() {
                    assert forall|to: u128| !batch[from].contains_key(to) by {
                        assert(!after.edges.new_or_updated[from].contains_key(to));
                    }
                    assert(batch[from] =~= Map::<u128, u32>::empty());
                }
            } else {
                assert(after.edges.new_or_updated[from] =~= self.edges.new_or_updated[from]);
            }
        }
        assert forall|from: u128, to: u128| #[trigger]
            after.edges.has_edge(from, to) implies !after.edges.is_deleted(from, to)
            && !after.is_tombstoned(from) && !after.is_tombstoned(to) by {
            if batch.contains_key(from) && batch[from].contains_key(to) {
            } else {
                assert(self.edges.has_edge(from, to));
                assert(!self.edges.is_deleted(from, to));
            }
        }
    }

    /// Merging any diff in, consistent or not, keeps a consistent diff
    /// consistent.
    pub proof fn lemma_merge_keeps_wf(self, other: GraphDiffView, order: Seq<u128>)
        requires
            self.wf(),
        ensures
            self.merge(other, order).wf(),
    {
        let with_updates = self.add_or_update_nodes(other.nodes.new_or_updated);
        self.lemma_add_or_update_nodes_keeps_wf(other.nodes.new_or_updated);
        with_updates.lemma_delete_nodes_keeps_wf(order);
        let with_nodes = self.merge_nodes(other.nodes, order);
        let live = live_edges(other.edges.new_or_updated, with_nodes.nodes.deleted);
        assert(all_live(live, with_nodes.nodes.deleted));
        with_nodes.lemma_add_edges_keeps_wf(live);
        with_nodes.add_edges(live).lemma_delete_edges_keeps_wf(other.edges.deleted);
    }

    /// One operation keeps a consistent diff consistent.
    pub proof fn lemma_apply_keeps_wf(self, operation: Operation)
        requires
            self.wf(),
        ensures
            self.apply(operation).wf(),
    {
        match operation {
            Operation::AddNode(id) => {
                self.lemma_node_updates_keep_wf(id, NodeUpdate::empty());
            },
            Operation::AddOrUpdateNode(id, delta) => {
                self.lemma_node_updates_keep_wf(id, delta);
            },
            Operation::SetNodeUpdate(id, delta) => {
                self.lemma_node_updates_keep_wf(id, delta);
            },
            Operation::DeleteNode(id) => {
                self.lemma_delete_node_keeps_wf(id);
            },
            Operation::AddEdge(from, to, weight) => {
                if !self.is_tombstoned(from) && !self.is_tombstoned(to) {
                    self.lemma_add_edge_keeps_wf(from, to, weight);
                }
            },
            Operation::DeleteEdge(from, to) => {
                self.lemma_delete_edge_keeps_wf(from, to);
            },
            Operation::AddEdges(batch) => {
                let live = live_edges(batch, self.nodes.deleted);
                assert(all_live(live, self.nodes.deleted));
                self.lemma_add_edges_keeps_wf(live);
            },
            Operation::DeleteEdges(dels) => {
                self.lemma_delete_edges_keeps_wf(dels);
            },
            Operation::Merge(other, order) => {
                self.lemma_merge_keeps_wf(other, order);
            },
            Operation::Clear => {},
        }
    }

    /// Any sequence of operations keeps a consistent diff consistent.
    pub proof fn lemma_run_keeps_wf(self, operations: Seq<Operation>)
        requires
            self.wf(),
        ensures
            self.run(operations).wf(),
        decreases operations.len(),
    {
        if operations.len() > 0 {
            self.lemma_run_keeps_wf(operations.drop_last());
            self.run(operations.drop_last()).lemma_apply_keeps_wf(operations.last());
        }
    }

    /// Tombstone exclusivity: after any sequence of operations on the empty
    /// diff, no node has at once a pending update and a tombstone, and no
    /// pending edge touches a node with a tombstone.
    pub proof fn lemma_tombstone_exclusivity(operations: Seq<Operation>, id: u128, other: u128)
        ensures
            ({
                let diff = GraphDiffView::empty().run(operations);
                &&& !(diff.nodes.new_or_updated.contains_key(id) && diff.nodes.deleted.contains(id))
                &&& diff.nodes.deleted.contains(id) ==> !diff.edges.has_edge(id, other)
                    && !diff.edges.has_edge(other, id)
                &&& !(diff.edges.has_edge(id, other) && diff.edges.is_deleted(id, other))
            }),
    {
        GraphDiffView::empty().lemma_run_keeps_wf(operations);
        let diff = GraphDiffView::empty().run(operations);
        if diff.edges.has_edge(id, other) {
            assert(!diff.is_tombstoned(id));
        }
        if diff.edges.has_edge(other, id) {
            assert(!diff.is_tombstoned(id));
        }
    }

    /// In a consistent diff no source and no destination of the pending
    /// edges carries a tombstone: of what `is_internally_consistent` asks,
    /// only the part on the edges marked as deleted can fail.
    pub proof fn lemma_wf_pending_avoids_tombstones(self)
        requires
            self.wf(),
        ensures
            self.pending_avoids_tombstones(),
    {
        assert forall|from: u128| #[trigger]
            self.edges.new_or_updated.contains_key(from) implies !self.is_tombstoned(from) by {
            let row = self.edges.new_or_updated[from];
            assert(row != Map::<u128, u32>::empty());
            if forall|to: u128| !row.contains_key(to) {
                assert(row =~= Map::<u128, u32>::empty());
            }
            let to = choose|to: u128| row.contains_key(to);
            assert(self.edges.has_edge(from, to));
        }
    }

    /// Adding a node is idempotent: the second time changes nothing.
    pub proof fn lemma_add_node_idempotent(self, id: u128)
        ensures
            self.add_node(id).add_node(id) == self.add_node(id),
    {
        let once = self.add_node(id);
        assert(once.nodes.new_or_updated.contains_key(id));
        assert(once.nodes.deleted.remove(id) =~= once.nodes.deleted);
    }

    /// A diff is not empty after an operation that adds content to it,
    /// whatever it held before.
    pub proof fn lemma_content_is_not_empty(
        self,
        id: u128,
        delta: NodeUpdate,
        from: u128,
        to: u128,
        weight: u32,
    )
        ensures
            self.add_node(id) != GraphDiffView::empty(),
            self.add_or_update_node(id, delta) != GraphDiffView::empty(),
            self.set_node_update(id, delta) != GraphDiffView::empty(),
            self.delete_node(id) != GraphDiffView::empty(),
            self.add_edge(from, to, weight) != GraphDiffView::empty(),
            self.delete_edge(from, to) != GraphDiffView::empty(),
    {
        assert(self.add_node(id).nodes.new_or_updated.contains_key(id));
        assert(self.add_or_update_node(id, delta).nodes.new_or_updated.contains_key(id));
        assert(self.set_node_update(id, delta).nodes.new_or_updated.contains_key(id));
        assert(self.delete_node(id).nodes.deleted.contains(id));
        assert(self.add_edge(from, to, weight).edges.new_or_updated.contains_key(from));
        assert(self.delete_edge(from, to).edges.deleted.contains_key(from));
    }

    /// Which nodes are updated and which are deleted after a run of
    /// deletions does not depend on their order.
    pub proof fn lemma_delete_nodes_nodes(self, order: Seq<u128>)
        ensures
            self.delete_nodes(order).nodes == (NodeDiffView {
                new_or_updated: self.nodes.new_or_updated.remove_keys(order.to_set()),
                deleted: self.nodes.deleted.union(order.to_set()),
            }),
        decreases order.len(),
    {
        let after = self.delete_nodes(order).nodes;
        if order.len() == 0 {
            assert(order.to_set() =~= Set::<u128>::empty());
            assert(after.new_or_updated =~= self.nodes.new_or_updated.remove_keys(order.to_set()));
            assert(after.deleted =~= self.nodes.deleted.union(order.to_set()));
        } else {
            self.lemma_delete_nodes_nodes(order.drop_last());
            assert(order =~= order.drop_last().push(order.last()));
            assert forall|id: u128| order.to_set().contains(id) <==> order.drop_last().to_set().contains(
                id,
            ) || id == order.last() by {
                if order.to_set().contains(id) {
                    let i = choose|i: int| 0 <= i < order.len() && order[i] == id;
                    if i < order.len() - 1 {
                        assert(order.drop_last()[i] == id);
                    }
                }
                if order.drop_last().to_set().contains(id) {
                    let i = choose|i: int|
                        0 <= i < order.drop_last().len() && order.drop_last()[i] == id;
                    assert(order[i] == id);
                }
                if id == order.last() {
                    assert(order[order.len() - 1] == id);
                }
            }
            assert(after.new_or_updated =~= self.nodes.new_or_updated.remove_keys(order.to_set()));
            assert(after.deleted =~= self.nodes.deleted.union(order.to_set()));
        }
    }

    /// Which edges are pending after a run of deletions does not depend on
    /// their order: those that touch none of the deleted nodes, with the
    /// weights that they had. An edge that was marked as deleted stays so.
    pub proof fn lemma_delete_nodes_edges(self, order: Seq<u128>)
        ensures
            forall|from: u128, to: u128| #[trigger]
                self.delete_nodes(order).edges.has_edge(from, to) <==> self.edges.has_edge(
                    from,
                    to,
                ) && !order.contains(from) && !order.contains(to),
            forall|from: u128, to: u128| #[trigger]
                self.delete_nodes(order).edges.has_edge(from, to) ==> self.delete_nodes(
                    order,
                ).edges.new_or_updated[from][to] == self.edges.new_or_updated[from][to],
            forall|from: u128, to: u128| #[trigger]
                self.edges.is_deleted(from, to) ==> self.delete_nodes(order).edges.is_deleted(
                    from,
                    to,
                ),
        decreases order.len(),
    {
        if order.len() > 0 {
            let shorter = order.drop_last();
            let before = self.delete_nodes(shorter);
            let after = self.delete_nodes(order);
            self.lemma_delete_nodes_edges(shorter);
            before.lemma_delete_node_cascades(order.last());
            assert forall|id: u128| order.contains(id) <==> shorter.contains(id) || id
                == order.last() by {
                if order.contains(id) {
                    let i = choose|i: int| 0 <= i < order.len() && order[i] == id;
                    if i < order.len() - 1 {
                        assert(shorter[i] == id);
                    }
                }
                if shorter.contains(id) {
                    let i = choose|i: int| 0 <= i < shorter.len() && shorter[i] == id;
                    assert(order[i] == id);
                }
                if id == order.last() {
                    assert(order[order.len() - 1] == id);
                }
            }
            assert forall|from: u128, to: u128| #[trigger]
                after.edges.has_edge(from, to) <==> self.edges.has_edge(from, to)
                    && !order.contains(from) && !order.contains(to) by {
                assert(after.edges.has_edge(from, to) <==> before.edges.has_edge(from, to) && from
                    != order.last() && to != order.last());
            }
            assert forall|from: u128, to: u128| #[trigger]
                after.edges.has_edge(from, to) implies after.edges.new_or_updated[from][to]
                == self.edges.new_or_updated[from][to] by {
                assert(before.edges.has_edge(from, to));
            }
            assert forall|from: u128, to: u128| #[trigger]
                self.edges.is_deleted(from, to) implies after.edges.is_deleted(from, to) by {
                assert(before.edges.is_deleted(from, to));
            }
        }
    }

    /// A run of deletions on a diff without edges leaves it without edges,
    /// pending or deleted.
    proof fn lemma_delete_nodes_deletions(self, order: Seq<u128>)
        requires
            self.edges == EdgeDiffView::empty(),
        ensures
            self.delete_nodes(order).edges == EdgeDiffView::empty(),
        decreases order.len(),
    {
        if order.len() > 0 {
            self.lemma_delete_nodes_deletions(order.drop_last());
            let before = self.delete_nodes(order.drop_last());
            let after = before.delete_node(order.last());
            assert(after.edges.new_or_updated =~= Map::<u128, Map<u128, u32>>::empty());
            assert(after.edges.deleted =~= Map::<u128, Set<u128>>::empty());
        }
    }

    /// The empty diff is a right identity of merging: merging it in changes
    /// nothing.
    pub proof fn lemma_merge_right_identity(self)
        ensures
            self.merge(GraphDiffView::empty(), Seq::empty()) == self,
    {
        self.nodes.lemma_add_or_update_nodes_none();
        let live = live_edges(Map::empty(), self.nodes.deleted);
        assert(live =~= Map::<u128, Map<u128, u32>>::empty());
        self.edges.lemma_add_edges_none();
        self.edges.lemma_delete_edges_none();
    }

    /// The empty diff is a left identity of merging: a consistent diff
    /// merged into it gives that diff, in whatever order its deleted nodes
    /// are taken.
    pub proof fn lemma_merge_left_identity(other: GraphDiffView, order: Seq<u128>)
        requires
            other.wf(),
            is_walk_of(order, other.nodes.deleted),
        ensures
            GraphDiffView::empty().merge(other, order) == other,
    {
        let start = GraphDiffView::empty();
        let with_updates = start.add_or_update_nodes(other.nodes.new_or_updated);
        assert(with_updates.nodes.new_or_updated =~= other.nodes.new_or_updated);
        assert(with_updates.nodes.deleted =~= Set::<u128>::empty());
        let with_nodes = with_updates.delete_nodes(order);
        with_updates.lemma_delete_nodes_nodes(order);
        with_updates.lemma_delete_nodes_edges(order);
        assert(with_nodes.nodes.new_or_updated =~= other.nodes.new_or_updated);
        assert(with_nodes.nodes.deleted =~= other.nodes.deleted);
        assert forall|from: u128| !with_nodes.edges.new_or_updated.contains_key(from) by {
            start.lemma_delete_nodes_keeps_wf(order);
            with_updates.lemma_delete_nodes_keeps_wf(order);
            if with_nodes.edges.new_or_updated.contains_key(from) {
                let row = with_nodes.edges.new_or_updated[from];
                assert(row != Map::<u128, u32>::empty());
                assert forall|to: u128| !row.contains_key(to) by {
                    assert(!with_nodes.edges.has_edge(from, to));
                }
                assert(row =~= Map::<u128, u32>::empty());
            }
        }
        assert(with_nodes.edges.new_or_updated =~= Map::<u128, Map<u128, u32>>::empty());
        with_updates.lemma_delete_nodes_deletions(order);
        assert(with_nodes.edges.deleted =~= Map::<u128, Set<u128>>::empty());
        let live = live_edges(other.edges.new_or_updated, other.nodes.deleted);
        let with_edges = with_nodes.edges.add_edges(live);
        assert forall|from: u128| #[trigger]
            other.edges.new_or_updated.contains_key(from) implies live.contains_key(from)
            && live[from] == other.edges.new_or_updated[from] by {
            let row = other.edges.new_or_updated[from];
            assert(row != Map::<u128, u32>::empty());
            if forall|to: u128| !row.contains_key(to) {
                assert(row =~= Map::<u128, u32>::empty());
            }
            let to = choose|to: u128| row.contains_key(to);
            assert(other.edges.has_edge(from, to));
            assert forall|t: u128| row.contains_key(t) implies !other.nodes.deleted.contains(
                t,
            ) by {
                assert(other.edges.has_edge(from, t));
            }
            assert(row.remove_keys(other.nodes.deleted) =~= row);
        }
        assert(with_edges.new_or_updated =~~= other.edges.new_or_updated);
        assert(with_edges.deleted =~= Map::<u128, Set<u128>>::empty());
        let end = with_edges.delete_edges(other.edges.deleted);
        assert forall|from: u128| #[trigger]
            other.edges.new_or_updated.contains_key(from) implies other.edges.new_or_updated[from].remove_keys(
            set_or_empty(other.edges.deleted, from),
        ) == other.edges.new_or_updated[from] by {
            let row = other.edges.new_or_updated[from];
            assert forall|t: u128| row.contains_key(t) implies !set_or_empty(
                other.edges.deleted,
                from,
            ).contains(t) by {
                assert(other.edges.has_edge(from, t));
                assert(!other.edges.is_deleted(from, t));
            }
            assert(row.remove_keys(set_or_empty(other.edges.deleted, from)) =~= row);
        }
        assert(end.new_or_updated =~= other.edges.new_or_updated);
        assert forall|from: u128| #[trigger]
            other.edges.deleted.contains_key(from) implies Set::<u128>::empty().union(
            other.edges.deleted[from],
        ) == other.edges.deleted[from] by {
            assert(Set::<u128>::empty().union(other.edges.deleted[from])
                =~= other.edges.deleted[from]);
        }
        assert(end.deleted =~= other.edges.deleted);
    }
}

} // verus!
