//! What the operations on many nodes or edges at once do to the model: the
//! batch forms, and the merging of one changeset into another.
//!
//! A hash table hands out its entries in an order of its own. Where the
//! result does not depend on that order, it is stated here in closed form;
//! where it does, the order is a parameter.

use crate::edge_set_table::set_or_empty;
use crate::edge_table::row_or_empty;
use crate::model::{EdgeDiffView, GraphDiffView, NodeDiffView};
use crate::node_update::NodeUpdate;
use vstd::prelude::*;

verus! {

/// The edges of `batch` that touch no node of `tombstones`.
pub open spec fn live_edges(batch: Map<u128, Map<u128, u32>>, tombstones: Set<u128>) -> Map<
    u128,
    Map<u128, u32>,
> {
    Map::new(
        |from: u128| batch.contains_key(from) && !tombstones.contains(from),
        |from: u128| batch[from].remove_keys(tombstones),
    )
}

/// Every edge of `part` is an edge of `whole`, with the same weight.
pub open spec fn sub_edges(part: Map<u128, Map<u128, u32>>, whole: Map<u128, Map<u128, u32>>) -> bool {
    forall|from: u128| #[trigger] row_or_empty(part, from).submap_of(row_or_empty(whole, from))
}

/// No edge of `batch` touches a node of `tombstones`.
pub open spec fn all_live(batch: Map<u128, Map<u128, u32>>, tombstones: Set<u128>) -> bool {
    forall|from: u128, to: u128|
        batch.contains_key(from) && #[trigger] batch[from].contains_key(to) ==> !tombstones.contains(
            from,
        ) && !tombstones.contains(to)
}

/// `order` lists the elements of `set`, each once.
pub open spec fn is_walk_of(order: Seq<u128>, set: Set<u128>) -> bool {
    order.no_duplicates() && order.to_set() == set
}

/// Where no edge of a batch touches a tombstone, its live edges are all
/// its edges.
pub proof fn lemma_all_live_rows(batch: Map<u128, Map<u128, u32>>, tombstones: Set<u128>)
    requires
        all_live(batch, tombstones),
    ensures
        forall|from: u128| #[trigger]
            row_or_empty(live_edges(batch, tombstones), from) == row_or_empty(batch, from),
{
    assert forall|from: u128| #[trigger]
        row_or_empty(live_edges(batch, tombstones), from) == row_or_empty(batch, from) by {
        if batch.contains_key(from) {
            if tombstones.contains(from) {
                assert forall|to: u128| !batch[from].contains_key(to) by {}
                assert(batch[from] =~= Map::<u128, u32>::empty());
            } else {
                assert forall|to: u128| batch[from].contains_key(to) implies !tombstones.contains(
                    to,
                ) by {}
                assert(batch[from].remove_keys(tombstones) =~= batch[from]);
            }
        }
    }
}

impl NodeDiffView {
    /// Every update of `updates` is merged in, as by `add_or_update_node`.
    pub open spec fn add_or_update_nodes(self, updates: Map<u128, NodeUpdate>) -> NodeDiffView {
        NodeDiffView {
            new_or_updated: Map::new(
                |id: u128| self.new_or_updated.contains_key(id) || updates.contains_key(id),
                |id: u128|
                    if !updates.contains_key(id) {
                        self.new_or_updated[id]
                    } else if self.new_or_updated.contains_key(id) {
                        self.new_or_updated[id].merged(updates[id])
                    } else {
                        updates[id]
                    },
            ),
            deleted: self.deleted.difference(updates.dom()),
        }
    }

    /// Merging in no update changes nothing.
    pub proof fn lemma_add_or_update_nodes_none(self)
        ensures
            self.add_or_update_nodes(Map::empty()) == self,
    {
        let after = self.add_or_update_nodes(Map::empty());
        assert(after.new_or_updated =~= self.new_or_updated);
        assert(after.deleted =~= self.deleted);
    }

    /// Merging in one more update after some updates of a batch is merging
    /// in those updates and that one.
    pub proof fn lemma_add_or_update_nodes_step(
        self,
        updates: Map<u128, NodeUpdate>,
        done: Set<u128>,
        id: u128,
    )
        requires
            updates.contains_key(id),
            !done.contains(id),
        ensures
            self.add_or_update_nodes(updates.restrict(done)).add_or_update_node(id, updates[id])
                == self.add_or_update_nodes(updates.restrict(done.insert(id))),
    {
        let left = self.add_or_update_nodes(updates.restrict(done)).add_or_update_node(
            id,
            updates[id],
        );
        let right = self.add_or_update_nodes(updates.restrict(done.insert(id)));
        assert(left.new_or_updated =~= right.new_or_updated);
        assert(left.deleted =~= right.deleted);
    }
}

impl EdgeDiffView {
    /// Every edge of `adds` is added, as by `add_edge`, in whatever order.
    pub open spec fn add_edges(self, adds: Map<u128, Map<u128, u32>>) -> EdgeDiffView {
        EdgeDiffView {
            new_or_updated: Map::new(
                |from: u128|
                    self.new_or_updated.contains_key(from) || row_or_empty(adds, from) != Map::<
                        u128,
                        u32,
                    >::empty(),
                |from: u128|
                    row_or_empty(self.new_or_updated, from).union_prefer_right(
                        row_or_empty(adds, from),
                    ),
            ),
            deleted: Map::new(
                |from: u128|
                    self.deleted.contains_key(from) && (row_or_empty(adds, from) == Map::<
                        u128,
                        u32,
                    >::empty() || self.deleted[from].difference(row_or_empty(adds, from).dom())
                        != Set::<u128>::empty()),
                |from: u128| self.deleted[from].difference(row_or_empty(adds, from).dom()),
            ),
        }
    }

    /// Every edge of `dels` is marked as deleted, as by `delete_edge`, in
    /// whatever order.
    pub open spec fn delete_edges(self, dels: Map<u128, Set<u128>>) -> EdgeDiffView {
        EdgeDiffView {
            new_or_updated: Map::new(
                |from: u128|
                    self.new_or_updated.contains_key(from) && (set_or_empty(dels, from) == Set::<
                        u128,
                    >::empty() || self.new_or_updated[from].remove_keys(set_or_empty(dels, from))
                        != Map::<u128, u32>::empty()),
                |from: u128| self.new_or_updated[from].remove_keys(set_or_empty(dels, from)),
            ),
            deleted: Map::new(
                |from: u128|
                    self.deleted.contains_key(from) || set_or_empty(dels, from) != Set::<
                        u128,
                    >::empty(),
                |from: u128| set_or_empty(self.deleted, from).union(set_or_empty(dels, from)),
            ),
        }
    }

    /// Every row of `batch` is poured into the pending edges, with no
    /// regard to tombstones or deletions.
    pub open spec fn add_edges_unchecked(self, batch: Map<u128, Map<u128, u32>>) -> EdgeDiffView {
        EdgeDiffView {
            new_or_updated: Map::new(
                |from: u128| self.new_or_updated.contains_key(from) || batch.contains_key(from),
                |from: u128|
                    row_or_empty(self.new_or_updated, from).union_prefer_right(
                        row_or_empty(batch, from),
                    ),
            ),
            deleted: self.deleted,
        }
    }

    /// Adding no edge changes nothing.
    pub proof fn lemma_add_edges_none(self)
        ensures
            self.add_edges(Map::empty()) == self,
    {
        let after = self.add_edges(Map::empty());
        assert(after.new_or_updated =~~= self.new_or_updated);
        assert forall|from: u128| self.deleted.contains_key(from) implies #[trigger]
            self.deleted[from].difference(Set::empty()) == self.deleted[from] by {
            assert(self.deleted[from].difference(Set::empty()) =~= self.deleted[from]);
        }
        assert(after.deleted =~~= self.deleted);
    }

    /// Only the rows of `adds` count, not the sources that it lists.
    pub proof fn lemma_add_edges_by_rows(
        self,
        adds: Map<u128, Map<u128, u32>>,
        others: Map<u128, Map<u128, u32>>,
    )
        requires
            forall|from: u128| #[trigger] row_or_empty(adds, from) == row_or_empty(others, from),
        ensures
            self.add_edges(adds) == self.add_edges(others),
    {
        let a = self.add_edges(adds);
        let b = self.add_edges(others);
        assert forall|from: u128| a.new_or_updated.contains_key(from) == b.new_or_updated.contains_key(from)
            && a.deleted.contains_key(from) == b.deleted.contains_key(from) by {
            assert(row_or_empty(adds, from) == row_or_empty(others, from));
        }
        assert forall|from: u128| #[trigger] a.new_or_updated.contains_key(from) implies a.new_or_updated[from] == b.new_or_updated[from] by {
            assert(row_or_empty(adds, from) == row_or_empty(others, from));
        }
        assert forall|from: u128| #[trigger] a.deleted.contains_key(from) implies a.deleted[from] == b.deleted[from] by {
            assert(row_or_empty(adds, from) == row_or_empty(others, from));
        }
        assert(a.new_or_updated =~= b.new_or_updated);
        assert(a.deleted =~= b.deleted);
    }

    /// Adding one more edge after a batch is adding the batch with that
    /// edge in it.
    pub proof fn lemma_add_edges_step(
        self,
        adds: Map<u128, Map<u128, u32>>,
        from: u128,
        to: u128,
        weight: u32,
    )
        ensures
            self.add_edges(adds).add_edge(from, to, weight) == self.add_edges(
                adds.insert(from, row_or_empty(adds, from).insert(to, weight)),
            ),
    {
        let more = adds.insert(from, row_or_empty(adds, from).insert(to, weight));
        let mid = self.add_edges(adds);
        let left = mid.add_edge(from, to, weight);
        let right = self.add_edges(more);
        assert(row_or_empty(more, from).contains_key(to));
        assert(row_or_empty(more, from) != Map::<u128, u32>::empty());
        assert forall|f: u128| f != from implies row_or_empty(more, f) == row_or_empty(adds, f) by {}
        assert(left.new_or_updated[from] =~= right.new_or_updated[from]);
        assert(left.new_or_updated =~= right.new_or_updated);
        if self.deleted.contains_key(from) {
            let kept = self.deleted[from].difference(row_or_empty(adds, from).dom());
            let kept_more = self.deleted[from].difference(row_or_empty(more, from).dom());
            assert(kept_more =~= kept.remove(to));
            if kept == Set::<u128>::empty() {
                assert(kept_more =~= Set::<u128>::empty());
            }
        }
        assert(left.deleted =~= right.deleted);
    }

    /// Deleting no edge changes nothing.
    pub proof fn lemma_delete_edges_none(self)
        ensures
            self.delete_edges(Map::empty()) == self,
    {
        let after = self.delete_edges(Map::empty());
        assert forall|from: u128| self.new_or_updated.contains_key(from) implies #[trigger]
            self.new_or_updated[from].remove_keys(Set::empty()) == self.new_or_updated[from] by {
            assert(self.new_or_updated[from].remove_keys(Set::empty())
                =~= self.new_or_updated[from]);
        }
        assert(after.new_or_updated =~~= self.new_or_updated);
        assert forall|from: u128| self.deleted.contains_key(from) implies #[trigger]
            self.deleted[from].union(Set::empty()) == self.deleted[from] by {
            assert(self.deleted[from].union(Set::empty()) =~= self.deleted[from]);
        }
        assert(after.deleted =~~= self.deleted);
    }

    /// Only the destinations that `dels` gives a source count, not the
    /// sources that it lists.
    pub proof fn lemma_delete_edges_by_sets(
        self,
        dels: Map<u128, Set<u128>>,
        others: Map<u128, Set<u128>>,
    )
        requires
            forall|from: u128| #[trigger] set_or_empty(dels, from) == set_or_empty(others, from),
        ensures
            self.delete_edges(dels) == self.delete_edges(others),
    {
        let a = self.delete_edges(dels);
        let b = self.delete_edges(others);
        assert forall|from: u128|
            a.new_or_updated.contains_key(from) == b.new_or_updated.contains_key(from)
                && a.deleted.contains_key(from) == b.deleted.contains_key(from) by {
            assert(set_or_empty(dels, from) == set_or_empty(others, from));
        }
        assert forall|from: u128| #[trigger]
            a.new_or_updated.contains_key(from) implies a.new_or_updated[from]
            == b.new_or_updated[from] by {
            assert(set_or_empty(dels, from) == set_or_empty(others, from));
        }
        assert forall|from: u128| #[trigger] a.deleted.contains_key(from) implies a.deleted[from]
            == b.deleted[from] by {
            assert(set_or_empty(dels, from) == set_or_empty(others, from));
        }
        assert(a.new_or_updated =~= b.new_or_updated);
        assert(a.deleted =~= b.deleted);
    }

    /// Deleting one more edge after a batch is deleting the batch with
    /// that edge in it.
    pub proof fn lemma_delete_edges_step(self, dels: Map<u128, Set<u128>>, from: u128, to: u128)
        ensures
            self.delete_edges(dels).delete_edge(from, to) == self.delete_edges(
                dels.insert(from, set_or_empty(dels, from).insert(to)),
            ),
    {
        let more = dels.insert(from, set_or_empty(dels, from).insert(to));
        let mid = self.delete_edges(dels);
        let left = mid.delete_edge(from, to);
        let right = self.delete_edges(more);
        assert(set_or_empty(more, from).contains(to));
        assert(set_or_empty(more, from) != Set::<u128>::empty());
        assert forall|f: u128| f != from implies set_or_empty(more, f) == set_or_empty(dels, f) by {}
        assert(left.deleted[from] =~= right.deleted[from]);
        assert(left.deleted =~= right.deleted);
        if self.new_or_updated.contains_key(from) {
            let kept = self.new_or_updated[from].remove_keys(set_or_empty(dels, from));
            let kept_more = self.new_or_updated[from].remove_keys(set_or_empty(more, from));
            assert(kept_more =~= kept.remove(to));
            if kept == Map::<u128, u32>::empty() {
                assert(kept_more =~= Map::<u128, u32>::empty());
            }
        }
        assert(left.new_or_updated =~= right.new_or_updated);
    }

    /// Pouring in no row changes nothing.
    pub proof fn lemma_add_edges_unchecked_none(self)
        ensures
            self.add_edges_unchecked(Map::empty()) == self,
    {
        let after = self.add_edges_unchecked(Map::empty());
        assert(after.new_or_updated =~~= self.new_or_updated);
    }

    /// Pouring in one more row after some rows of a batch is pouring in
    /// those rows and that one.
    pub proof fn lemma_add_edges_unchecked_step(
        self,
        batch: Map<u128, Map<u128, u32>>,
        done: Set<u128>,
        from: u128,
    )
        requires
            batch.contains_key(from),
            !done.contains(from),
        ensures
            ({
                let mid = self.add_edges_unchecked(batch.restrict(done)).new_or_updated;
                self.add_edges_unchecked(batch.restrict(done.insert(from))).new_or_updated
                    == mid.insert(from, row_or_empty(mid, from).union_prefer_right(batch[from]))
            }),
    {
        let mid = self.add_edges_unchecked(batch.restrict(done)).new_or_updated;
        let end = self.add_edges_unchecked(batch.restrict(done.insert(from))).new_or_updated;
        let poured = mid.insert(from, row_or_empty(mid, from).union_prefer_right(batch[from]));
        assert(row_or_empty(batch.restrict(done), from) == Map::<u128, u32>::empty());
        assert(row_or_empty(mid, from) =~= row_or_empty(self.new_or_updated, from));
        assert forall|f: u128| f != from implies row_or_empty(batch.restrict(done), f)
            == row_or_empty(batch.restrict(done.insert(from)), f) by {}
        assert(end =~~= poured);
    }
}

impl GraphDiffView {
    /// The diff after every update of `updates` has been merged in.
    pub open spec fn add_or_update_nodes(self, updates: Map<u128, NodeUpdate>) -> GraphDiffView {
        GraphDiffView { nodes: self.nodes.add_or_update_nodes(updates), edges: self.edges }
    }

    /// The nodes of `order` are deleted one after the other, the first of
    /// the sequence first.
    pub open spec fn delete_nodes(self, order: Seq<u128>) -> GraphDiffView
        decreases order.len(),
    {
        if order.len() == 0 {
            self
        } else {
            self.delete_nodes(order.drop_last()).delete_node(order.last())
        }
    }

    /// The diff after every edge of `adds` has been added.
    pub open spec fn add_edges(self, adds: Map<u128, Map<u128, u32>>) -> GraphDiffView {
        GraphDiffView { nodes: self.nodes, edges: self.edges.add_edges(adds) }
    }

    /// The diff after every edge of `dels` has been marked as deleted.
    pub open spec fn delete_edges(self, dels: Map<u128, Set<u128>>) -> GraphDiffView {
        GraphDiffView { nodes: self.nodes, edges: self.edges.delete_edges(dels) }
    }

    /// The diff after every row of `batch` has been poured in unchecked.
    pub open spec fn add_edges_unchecked(self, batch: Map<u128, Map<u128, u32>>) -> GraphDiffView {
        GraphDiffView { nodes: self.nodes, edges: self.edges.add_edges_unchecked(batch) }
    }

    /// What lets a batch be poured in unchecked without harm: every row
    /// holds an edge, no edge touches a tombstone, and no edge is marked
    /// as deleted.
    pub open spec fn accepts_unchecked(self, batch: Map<u128, Map<u128, u32>>) -> bool {
        &&& forall|from: u128| #[trigger]
            batch.contains_key(from) ==> batch[from] != Map::<u128, u32>::empty()
        &&& all_live(batch, self.nodes.deleted)
        &&& forall|from: u128, to: u128|
            batch.contains_key(from) && #[trigger] batch[from].contains_key(to)
                ==> !self.edges.is_deleted(from, to)
    }

    /// The diff after a node diff has been merged in: its updates first,
    /// then its deletions in the given order.
    pub open spec fn merge_nodes(self, other: NodeDiffView, order: Seq<u128>) -> GraphDiffView {
        self.add_or_update_nodes(other.new_or_updated).delete_nodes(order)
    }

    /// The diff after an edge diff has been merged in: its pending edges
    /// first, those left out that touch a tombstone, then its deletions.
    pub open spec fn merge_edges(self, other: EdgeDiffView) -> GraphDiffView {
        self.add_edges(live_edges(other.new_or_updated, self.nodes.deleted)).delete_edges(
            other.deleted,
        )
    }

    /// The diff after another diff has been merged in: its node diff first,
    /// then its edge diff.
    pub open spec fn merge(self, other: GraphDiffView, order: Seq<u128>) -> GraphDiffView {
        self.merge_nodes(other.nodes, order).merge_edges(other.edges)
    }
}

} // verus!
