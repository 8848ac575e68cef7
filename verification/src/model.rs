//! The mathematical model of a changeset: four maps and sets, what each
//! single operation of the algebra does to them, and the consistency that
//! the operations keep.

use crate::edge_set_table::set_or_empty;
use crate::edge_table::row_or_empty;
use crate::node_table::same_updates;
use crate::node_update::NodeUpdate;
use vstd::prelude::*;

verus! {

/// What a node diff holds: the pending update of each node, and the nodes
/// that are marked as deleted (the tombstones).
pub struct NodeDiffView {
    pub new_or_updated: Map<u128, NodeUpdate>,
    pub deleted: Set<u128>,
}

/// What an edge diff holds: source to destination to weight for the pending
/// edges, and source to destinations for the edges marked as deleted.
pub struct EdgeDiffView {
    pub new_or_updated: Map<u128, Map<u128, u32>>,
    pub deleted: Map<u128, Set<u128>>,
}

/// What a graph diff holds.
pub struct GraphDiffView {
    pub nodes: NodeDiffView,
    pub edges: EdgeDiffView,
}

impl NodeDiffView {
    /// The node diff that holds nothing.
    pub open spec fn empty() -> NodeDiffView {
        NodeDiffView { new_or_updated: Map::empty(), deleted: Set::empty() }
    }

    /// The two node diffs hold the same: the same nodes with updates that
    /// set the same fields to the same values, and the same tombstones.
    pub open spec fn same_as(self, other: NodeDiffView) -> bool {
        same_updates(self.new_or_updated, other.new_or_updated) && self.deleted == other.deleted
    }

    /// No node is at once updated and deleted.
    pub open spec fn exclusive(self) -> bool {
        forall|id: u128| !(self.new_or_updated.contains_key(id) && self.deleted.contains(id))
    }

    /// `id` is brought to life: it keeps the update it has, or gets the
    /// empty one, and its tombstone goes.
    pub open spec fn add_node(self, id: u128) -> NodeDiffView {
        NodeDiffView {
            new_or_updated: if self.new_or_updated.contains_key(id) {
                self.new_or_updated
            } else {
                self.new_or_updated.insert(id, NodeUpdate::empty())
            },
            deleted: self.deleted.remove(id),
        }
    }

    /// `delta` is merged into the update of `id`, or becomes its update
    /// where it has none, and the tombstone of `id` goes.
    pub open spec fn add_or_update_node(self, id: u128, delta: NodeUpdate) -> NodeDiffView {
        NodeDiffView {
            new_or_updated: self.new_or_updated.insert(
                id,
                if self.new_or_updated.contains_key(id) {
                    self.new_or_updated[id].merged(delta)
                } else {
                    delta
                },
            ),
            deleted: self.deleted.remove(id),
        }
    }

    /// `delta` replaces whatever update `id` has, and the tombstone of `id`
    /// goes.
    pub open spec fn set_node_update(self, id: u128, delta: NodeUpdate) -> NodeDiffView {
        NodeDiffView {
            new_or_updated: self.new_or_updated.insert(id, delta),
            deleted: self.deleted.remove(id),
        }
    }

    /// `id` loses its update and gets a tombstone.
    pub open spec fn delete_node(self, id: u128) -> NodeDiffView {
        NodeDiffView {
            new_or_updated: self.new_or_updated.remove(id),
            deleted: self.deleted.insert(id),
        }
    }
}

impl EdgeDiffView {
    /// The edge diff that holds nothing.
    pub open spec fn empty() -> EdgeDiffView {
        EdgeDiffView { new_or_updated: Map::empty(), deleted: Map::empty() }
    }

    /// The edge `from -> to` is pending.
    pub open spec fn has_edge(self, from: u128, to: u128) -> bool {
        self.new_or_updated.contains_key(from) && self.new_or_updated[from].contains_key(to)
    }

    /// The edge `from -> to` is marked as deleted.
    pub open spec fn is_deleted(self, from: u128, to: u128) -> bool {
        self.deleted.contains_key(from) && self.deleted[from].contains(to)
    }

    /// No source is kept with nothing under it, in either map.
    pub open spec fn pruned(self) -> bool {
        &&& forall|from: u128| #[trigger]
            self.new_or_updated.contains_key(from) ==> self.new_or_updated[from] != Map::<
                u128,
                u32,
            >::empty()
        &&& forall|from: u128| #[trigger]
            self.deleted.contains_key(from) ==> self.deleted[from] != Set::<u128>::empty()
    }

    /// No edge is at once pending and deleted.
    pub open spec fn exclusive(self) -> bool {
        forall|from: u128, to: u128| !(self.has_edge(from, to) && self.is_deleted(from, to))
    }

    /// The edge `from -> to` is pending with `weight`; a deletion of it is
    /// taken back, and `from` leaves the deletions where nothing is left
    /// under it.
    pub open spec fn add_edge(self, from: u128, to: u128, weight: u32) -> EdgeDiffView {
        EdgeDiffView {
            new_or_updated: self.new_or_updated.insert(
                from,
                row_or_empty(self.new_or_updated, from).insert(to, weight),
            ),
            deleted: if !self.deleted.contains_key(from) {
                self.deleted
            } else if self.deleted[from].remove(to) == Set::<u128>::empty() {
                self.deleted.remove(from)
            } else {
                self.deleted.insert(from, self.deleted[from].remove(to))
            },
        }
    }

    /// The edge `from -> to` is marked as deleted; it is pending no more,
    /// and `from` leaves the pending edges where nothing is left under it.
    pub open spec fn delete_edge(self, from: u128, to: u128) -> EdgeDiffView {
        EdgeDiffView {
            new_or_updated: if !self.new_or_updated.contains_key(from) {
                self.new_or_updated
            } else if self.new_or_updated[from].remove(to) == Map::<u128, u32>::empty() {
                self.new_or_updated.remove(from)
            } else {
                self.new_or_updated.insert(from, self.new_or_updated[from].remove(to))
            },
            deleted: self.deleted.insert(from, set_or_empty(self.deleted, from).insert(to)),
        }
    }

    /// The node `id` goes: no pending edge leaves it or reaches it any more,
    /// a source stays only where something is left under it, and each edge
    /// that reached `id` from another node is marked as deleted.
    pub open spec fn delete_node(self, id: u128) -> EdgeDiffView {
        EdgeDiffView {
            new_or_updated: Map::new(
                |from: u128|
                    from != id && self.new_or_updated.contains_key(from)
                        && self.new_or_updated[from].remove(id) != Map::<u128, u32>::empty(),
                |from: u128| self.new_or_updated[from].remove(id),
            ),
            deleted: Map::new(
                |from: u128|
                    self.deleted.contains_key(from) || (from != id && self.has_edge(from, id)),
                |from: u128|
                    if from != id && self.has_edge(from, id) {
                        set_or_empty(self.deleted, from).insert(id)
                    } else {
                        self.deleted[from]
                    },
            ),
        }
    }
}

impl GraphDiffView {
    /// The diff that holds nothing: the identity of composition.
    pub open spec fn empty() -> GraphDiffView {
        GraphDiffView { nodes: NodeDiffView::empty(), edges: EdgeDiffView::empty() }
    }

    /// The two diffs hold the same nodes and edges.
    pub open spec fn same_as(self, other: GraphDiffView) -> bool {
        self.nodes.same_as(other.nodes) && self.edges == other.edges
    }

    /// Whether `id` carries a tombstone.
    pub open spec fn is_tombstoned(self, id: u128) -> bool {
        self.nodes.deleted.contains(id)
    }

    /// No pending edge leaves or reaches a node that carries a tombstone.
    pub open spec fn edges_avoid_tombstones(self) -> bool {
        forall|from: u128, to: u128| #[trigger]
            self.edges.has_edge(from, to) ==> !self.is_tombstoned(from) && !self.is_tombstoned(to)
    }

    /// No edge marked as deleted leaves or reaches a node that carries a
    /// tombstone.
    pub open spec fn deletions_avoid_tombstones(self) -> bool {
        forall|from: u128, to: u128| #[trigger]
            self.edges.is_deleted(from, to) ==> !self.is_tombstoned(from) && !self.is_tombstoned(
                to,
            )
    }

    /// No source of the pending edges carries a tombstone, whether or not
    /// anything is left under it.
    pub open spec fn pending_sources_avoid_tombstones(self) -> bool {
        forall|from: u128| #[trigger]
            self.edges.new_or_updated.contains_key(from) ==> !self.is_tombstoned(from)
    }

    /// No source of the edges marked as deleted carries a tombstone, whether
    /// or not anything is left under it.
    pub open spec fn deleted_sources_avoid_tombstones(self) -> bool {
        forall|from: u128| #[trigger]
            self.edges.deleted.contains_key(from) ==> !self.is_tombstoned(from)
    }

    /// No source and no destination of the pending edges carries a
    /// tombstone.
    pub open spec fn pending_avoids_tombstones(self) -> bool {
        self.pending_sources_avoid_tombstones() && self.edges_avoid_tombstones()
    }

    /// No source and no destination of the edges marked as deleted carries
    /// a tombstone.
    pub open spec fn deleted_avoids_tombstones(self) -> bool {
        self.deleted_sources_avoid_tombstones() && self.deletions_avoid_tombstones()
    }

    /// Neither edge map names a node that carries a tombstone: no source
    /// that it lists, with or without anything under it, and no
    /// destination. This asks more than [`GraphDiffView::wf`] does of the
    /// deleted edges, and `delete_node` does not keep it: the edges that it
    /// marks as deleted name the node that it deletes.
    pub open spec fn internally_consistent(self) -> bool {
        self.pending_avoids_tombstones() && self.deleted_avoids_tombstones()
    }

    /// The consistency that every operation of the algebra keeps: no node
    /// and no edge is at once pending and deleted, no source is kept with
    /// nothing under it, and no pending edge touches a tombstone.
    pub open spec fn wf(self) -> bool {
        &&& self.nodes.exclusive()
        &&& self.edges.pruned()
        &&& self.edges.exclusive()
        &&& self.edges_avoid_tombstones()
    }

    /// The diff after `add_node`: only the node diff changes.
    pub open spec fn add_node(self, id: u128) -> GraphDiffView {
        GraphDiffView { nodes: self.nodes.add_node(id), edges: self.edges }
    }

    /// The diff after `add_or_update_node`: only the node diff changes.
    pub open spec fn add_or_update_node(self, id: u128, delta: NodeUpdate) -> GraphDiffView {
        GraphDiffView { nodes: self.nodes.add_or_update_node(id, delta), edges: self.edges }
    }

    /// The diff after `set_node_update`: only the node diff changes.
    pub open spec fn set_node_update(self, id: u128, delta: NodeUpdate) -> GraphDiffView {
        GraphDiffView { nodes: self.nodes.set_node_update(id, delta), edges: self.edges }
    }

    /// The diff after `delete_node`: the node gets its tombstone, and the
    /// edge diff loses every pending edge that touches it.
    pub open spec fn delete_node(self, id: u128) -> GraphDiffView {
        GraphDiffView { nodes: self.nodes.delete_node(id), edges: self.edges.delete_node(id) }
    }

    /// The diff after `add_edge` has succeeded.
    pub open spec fn add_edge(self, from: u128, to: u128, weight: u32) -> GraphDiffView {
        GraphDiffView { nodes: self.nodes, edges: self.edges.add_edge(from, to, weight) }
    }

    /// The diff after `delete_edge`: only the edge diff changes.
    pub open spec fn delete_edge(self, from: u128, to: u128) -> GraphDiffView {
        GraphDiffView { nodes: self.nodes, edges: self.edges.delete_edge(from, to) }
    }

    /// Giving a node life, an update or a replacement update keeps a
    /// consistent diff consistent.
    pub proof fn lemma_node_updates_keep_wf(self, id: u128, delta: NodeUpdate)
        requires
            self.wf(),
        ensures
            self.add_node(id).wf(),
            self.add_or_update_node(id, delta).wf(),
            self.set_node_update(id, delta).wf(),
    {
    }

    /// Deleting a node keeps a consistent diff consistent.
    pub proof fn lemma_delete_node_keeps_wf(self, id: u128)
        requires
            self.wf(),
        ensures
            self.delete_node(id).wf(),
    {
        let after = self.delete_node(id);
        assert forall|from: u128| #[trigger]
            after.edges.deleted.contains_key(from) implies after.edges.deleted[from] != Set::<
            u128,
        >::empty() by {
            if from != id && self.edges.has_edge(from, id) {
                assert(after.edges.deleted[from].contains(id));
            }
        }
        assert forall|from: u128, to: u128| #[trigger]
            after.edges.has_edge(from, to) implies self.edges.has_edge(from, to) && from != id
            && to != id && !after.edges.is_deleted(from, to) by {
            assert(self.edges.has_edge(from, to));
            assert(!self.edges.is_deleted(from, to));
        }
    }

    /// Deleting a node cascades: a pending edge stays, with its weight,
    /// exactly where it does not touch the node, and every edge that reached
    /// the node from another one is marked as deleted.
    pub proof fn lemma_delete_node_cascades(self, id: u128)
        ensures
            !self.delete_node(id).nodes.new_or_updated.contains_key(id),
            self.delete_node(id).is_tombstoned(id),
            forall|from: u128, to: u128| #[trigger]
                self.delete_node(id).edges.has_edge(from, to) <==> self.edges.has_edge(from, to)
                    && from != id && to != id,
            forall|from: u128, to: u128| #[trigger]
                self.delete_node(id).edges.has_edge(from, to) ==> self.delete_node(
                    id,
                ).edges.new_or_updated[from][to] == self.edges.new_or_updated[from][to],
            forall|from: u128|
                from != id && #[trigger] self.edges.has_edge(from, id) ==> self.delete_node(
                    id,
                ).edges.is_deleted(from, id),
            forall|from: u128, to: u128| #[trigger]
                self.edges.is_deleted(from, to) ==> self.delete_node(id).edges.is_deleted(
                    from,
                    to,
                ),
    {
        let after = self.delete_node(id);
        assert forall|from: u128, to: u128| #[trigger]
            after.edges.has_edge(from, to) <==> self.edges.has_edge(from, to) && from != id && to
                != id by {
            if self.edges.has_edge(from, to) && from != id && to != id {
                assert(self.edges.new_or_updated[from].remove(id).contains_key(to));
            }
        }
    }

    /// Adding an edge between two nodes without a tombstone keeps a
    /// consistent diff consistent.
    pub proof fn lemma_add_edge_keeps_wf(self, from: u128, to: u128, weight: u32)
        requires
            self.wf(),
            !self.is_tombstoned(from),
            !self.is_tombstoned(to),
        ensures
            self.add_edge(from, to, weight).wf(),
    {
        let after = self.add_edge(from, to, weight);
        assert(after.edges.new_or_updated[from].contains_key(to));
        assert forall|f: u128| #[trigger]
            after.edges.new_or_updated.contains_key(f) implies after.edges.new_or_updated[f]
            != Map::<u128, u32>::empty() by {
            if f == from {
                assert(after.edges.new_or_updated[f].contains_key(to));
            }
        }
        assert forall|f: u128| #[trigger]
            after.edges.deleted.contains_key(f) implies after.edges.deleted[f] != Set::<
            u128,
        >::empty() by {
            assert(self.edges.deleted.contains_key(f));
        }
        assert forall|f: u128, t: u128| #[trigger]
            after.edges.has_edge(f, t) implies !after.edges.is_deleted(f, t)
            && !after.is_tombstoned(f) && !after.is_tombstoned(t) by {
            if f == from && t == to {
            } else {
                assert(self.edges.has_edge(f, t));
                assert(!self.edges.is_deleted(f, t));
            }
        }
    }

    /// Deleting an edge keeps a consistent diff consistent.
    pub proof fn lemma_delete_edge_keeps_wf(self, from: u128, to: u128)
        requires
            self.wf(),
        ensures
            self.delete_edge(from, to).wf(),
    {
        let after = self.delete_edge(from, to);
        assert(after.edges.deleted[from].contains(to));
        assert forall|f: u128| #[trigger]
            after.edges.deleted.contains_key(f) implies after.edges.deleted[f] != Set::<
            u128,
        >::empty() by {
            if f == from {
                assert(after.edges.deleted[f].contains(to));
            }
        }
        assert forall|f: u128| #[trigger]
            after.edges.new_or_updated.contains_key(f) implies after.edges.new_or_updated[f]
            != Map::<u128, u32>::empty() by {
            assert(self.edges.new_or_updated.contains_key(f));
        }
        assert forall|f: u128, t: u128| #[trigger]
            after.edges.has_edge(f, t) implies self.edges.has_edge(f, t) && !(f == from && t
            == to) && !after.edges.is_deleted(f, t) by {
            assert(self.edges.has_edge(f, t));
            assert(!self.edges.is_deleted(f, t));
        }
    }
}

impl EdgeDiffView {
    /// The state in the middle of `delete_node`: `id` has lost its own row,
    /// and the sources in `done` have lost their edge to `id`.
    pub open spec fn delete_node_among(self, id: u128, done: Set<u128>) -> EdgeDiffView {
        EdgeDiffView {
            new_or_updated: Map::new(
                |from: u128|
                    from != id && self.new_or_updated.contains_key(from) && (done.contains(from)
                        ==> self.new_or_updated[from].remove(id) != Map::<u128, u32>::empty()),
                |from: u128|
                    if done.contains(from) {
                        self.new_or_updated[from].remove(id)
                    } else {
                        self.new_or_updated[from]
                    },
            ),
            deleted: Map::new(
                |from: u128|
                    self.deleted.contains_key(from) || (from != id && done.contains(from)
                        && self.has_edge(from, id)),
                |from: u128|
                    if from != id && done.contains(from) && self.has_edge(from, id) {
                        set_or_empty(self.deleted, from).insert(id)
                    } else {
                        self.deleted[from]
                    },
            ),
        }
    }

    /// With no source dealt with, only the row of `id` is gone.
    pub proof fn lemma_delete_node_among_none(self, id: u128)
        ensures
            self.delete_node_among(id, Set::empty()) == (EdgeDiffView {
                new_or_updated: self.new_or_updated.remove(id),
                deleted: self.deleted,
            }),
    {
        let start = self.delete_node_among(id, Set::empty());
        assert(start.new_or_updated =~= self.new_or_updated.remove(id));
        assert(start.deleted =~= self.deleted);
    }

    /// Dealing with one more source: its row loses the edge to `id` and
    /// goes where nothing is left in it, and where it held that edge, the
    /// edge is marked as deleted.
    pub proof fn lemma_delete_node_among_step(self, id: u128, done: Set<u128>, from: u128)
        requires
            from != id,
            self.new_or_updated.contains_key(from),
            !done.contains(from),
        ensures
            ({
                let before = self.delete_node_among(id, done);
                let after = self.delete_node_among(id, done.insert(from));
                let row = self.new_or_updated[from].remove(id);
                &&& before.new_or_updated.contains_key(from)
                &&& before.new_or_updated[from] == self.new_or_updated[from]
                &&& set_or_empty(before.deleted, from) == set_or_empty(self.deleted, from)
                &&& after.new_or_updated == (if row == Map::<u128, u32>::empty() {
                    before.new_or_updated.remove(from)
                } else {
                    before.new_or_updated.insert(from, row)
                })
                &&& after.deleted == (if self.new_or_updated[from].contains_key(id) {
                    before.deleted.insert(from, set_or_empty(self.deleted, from).insert(id))
                } else {
                    before.deleted
                })
            }),
    {
        let before = self.delete_node_among(id, done);
        let after = self.delete_node_among(id, done.insert(from));
        let row = self.new_or_updated[from].remove(id);
        if row == Map::<u128, u32>::empty() {
            assert(after.new_or_updated =~= before.new_or_updated.remove(from));
        } else {
            assert(after.new_or_updated =~= before.new_or_updated.insert(from, row));
        }
        if self.new_or_updated[from].contains_key(id) {
            assert(after.deleted =~= before.deleted.insert(
                from,
                set_or_empty(self.deleted, from).insert(id),
            ));
        } else {
            assert(after.deleted =~= before.deleted);
        }
    }

    /// With every source dealt with, the node is deleted.
    pub proof fn lemma_delete_node_among_all(self, id: u128, done: Set<u128>)
        requires
            self.new_or_updated.remove(id).dom().subset_of(done),
        ensures
            self.delete_node_among(id, done) == self.delete_node(id),
    {
        let end = self.delete_node_among(id, done);
        let goal = self.delete_node(id);
        assert forall|from: u128|
            from != id && self.new_or_updated.contains_key(from) implies done.contains(
            from,
        ) by {
            assert(self.new_or_updated.remove(id).dom().contains(from));
        }
        assert(end.new_or_updated =~= goal.new_or_updated);
        assert(end.deleted =~= goal.deleted);
    }
}

} // verus!
