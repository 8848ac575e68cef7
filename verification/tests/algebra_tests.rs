use drisk_api::{
    DiffError, EdgeDiff, EdgeSetTable, EdgeTable, GraphDiff, IdSet, NodeDiff, NodeTable,
    NodeUpdate,
};

fn sorted(mut ids: Vec<u128>) -> Vec<u128> {
    ids.sort();
    ids
}

fn has_edge(diff: &GraphDiff, from: u128, to: u128) -> bool {
    match diff.new_or_updated_edges().get(&from) {
        Some(row) => row.contains_key(&to),
        None => false,
    }
}

fn is_deleted(diff: &GraphDiff, from: u128, to: u128) -> bool {
    match diff.deleted_edges().get(&from) {
        Some(set) => set.contains(&to),
        None => false,
    }
}

fn weight_of(diff: &GraphDiff, from: u128, to: u128) -> Option<f32> {
    let bits = diff.new_or_updated_edges().get(&from)?.get(&to)?;
    Some(f32::from_bits(*bits))
}

fn no_empty_rows(diff: &GraphDiff) -> bool {
    let pending = diff.new_or_updated_edges();
    let deleted = diff.deleted_edges();
    pending.keys().iter().all(|from| !pending.get(from).unwrap().is_empty())
        && deleted.keys().iter().all(|from| !deleted.get(from).unwrap().is_empty())
}

fn tombstones_are_exclusive(diff: &GraphDiff) -> bool {
    diff.new_or_updated_nodes()
        .keys()
        .iter()
        .all(|id| !diff.deleted_nodes().contains(id))
}

#[test]
fn a_new_diff_is_empty() {
    let diff = GraphDiff::new();
    assert!(diff.is_empty());
    assert!(diff.new_or_updated_nodes().is_empty());
    assert!(diff.deleted_nodes().is_empty());
    assert!(diff.new_or_updated_edges().is_empty());
    assert!(diff.deleted_edges().is_empty());
    assert_eq!(diff, GraphDiff::default());
    assert_eq!(diff.num_nodes(), 0);
    assert_eq!(diff.num_edges(), 0);
}

#[test]
fn any_content_makes_a_diff_not_empty() {
    let mut diff = GraphDiff::new();
    diff.add_node(&1);
    assert!(!diff.is_empty());

    let mut diff = GraphDiff::new();
    diff.add_or_update_node(&1, NodeUpdate::default());
    assert!(!diff.is_empty());

    let mut diff = GraphDiff::new();
    diff.set_node_update(&1, NodeUpdate::default());
    assert!(!diff.is_empty());

    let mut diff = GraphDiff::new();
    diff.get_or_create_mut_node_update(&1);
    assert!(!diff.is_empty());

    let mut diff = GraphDiff::new();
    diff.delete_node(1);
    assert!(!diff.is_empty());

    let mut diff = GraphDiff::new();
    diff.add_edge(&1, &2, 0).unwrap();
    assert!(!diff.is_empty());

    let mut diff = GraphDiff::new();
    diff.delete_edge(&1, &2);
    assert!(!diff.is_empty());
}

#[test]
fn clear_makes_a_diff_empty_again() {
    let mut diff = GraphDiff::new();
    diff.add_or_update_node(&1, NodeUpdate::default().with_red(1));
    diff.delete_node(2);
    diff.add_edge(&1, &3, 1.0f32.to_bits()).unwrap();
    diff.delete_edge(&3, &1);
    assert!(!diff.is_empty());
    diff.clear();
    assert!(diff.is_empty());
    assert_eq!(diff, GraphDiff::new());
}

#[test]
fn add_node_is_idempotent_and_keeps_an_update() {
    let mut diff = GraphDiff::new();
    diff.add_node(&1);
    assert_eq!(diff.new_or_updated_nodes().get(&1), Some(&NodeUpdate::default()));
    let once = diff.clone();
    diff.add_node(&1);
    assert_eq!(diff, once);

    diff.add_or_update_node(&1, NodeUpdate::default().with_red(4));
    diff.add_node(&1);
    assert_eq!(
        diff.new_or_updated_nodes().get(&1),
        Some(&NodeUpdate::default().with_red(4))
    );
}

#[test]
fn every_way_to_add_a_node_clears_its_tombstone() {
    let mut diff = GraphDiff::new();
    diff.delete_node(1);
    diff.add_node(&1);
    assert!(!diff.deleted_nodes().contains(&1));
    assert!(diff.new_or_updated_nodes().contains_key(&1));

    diff.delete_node(1);
    diff.add_or_update_node(&1, NodeUpdate::default());
    assert!(!diff.deleted_nodes().contains(&1));

    diff.delete_node(1);
    diff.set_node_update(&1, NodeUpdate::default());
    assert!(!diff.deleted_nodes().contains(&1));

    diff.delete_node(1);
    diff.get_or_create_mut_node_update(&1).blue = Some(1);
    assert!(!diff.deleted_nodes().contains(&1));
    assert_eq!(
        diff.new_or_updated_nodes().get(&1),
        Some(&NodeUpdate::default().with_blue(1))
    );
}

#[test]
fn set_node_update_discards_what_was_merged() {
    let mut diff = GraphDiff::new();
    diff.add_or_update_node(&1, NodeUpdate::default().with_red(1).with_green(2));
    diff.set_node_update(&1, NodeUpdate::default().with_blue(3));
    assert_eq!(
        diff.new_or_updated_nodes().get(&1),
        Some(&NodeUpdate::default().with_blue(3))
    );
}

#[test]
fn get_or_create_gives_the_update_to_change_in_place() {
    let mut diff = GraphDiff::new();
    {
        let update = diff.get_or_create_mut_node_update(&5);
        assert_eq!(*update, NodeUpdate::default());
        update.label = Some("five".to_string());
    }
    {
        let update = diff.get_or_create_mut_node_update(&5);
        assert_eq!(update.label.as_deref(), Some("five"));
        update.red = Some(5);
    }
    assert_eq!(
        diff.new_or_updated_nodes().get(&5),
        Some(&NodeUpdate::default().with_label("five".to_string()).with_red(5))
    );
    assert_eq!(diff.num_nodes(), 1);
}

#[test]
fn a_node_is_never_both_updated_and_deleted() {
    let mut diff = GraphDiff::new();
    let mut state: u64 = 7;
    for _ in 0..2000 {
        state = state.wrapping_mul(6364136223846793005).wrapping_add(1442695040888963407);
        let id = u128::from((state >> 33) % 6);
        let other = u128::from((state >> 40) % 6);
        match (state >> 50) % 8 {
            0 => diff.add_node(&id),
            1 => diff.add_or_update_node(&id, NodeUpdate::default().with_red(1)),
            2 => diff.set_node_update(&id, NodeUpdate::default()),
            3 => diff.delete_node(id),
            4 => {
                let _ = diff.add_edge(&id, &other, 1);
            }
            5 => diff.delete_edge(&id, &other),
            6 => {
                let mut more = GraphDiff::new();
                more.add_node(&id);
                more.delete_node(other);
                let _ = more.add_edge(&id, &((other + 1) % 6), 2);
                more.delete_edge(&((id + 2) % 6), &other);
                diff += more;
            }
            _ => {
                diff.get_or_create_mut_node_update(&id).green = Some(3);
            }
        }
        assert!(tombstones_are_exclusive(&diff));
        assert!(no_empty_rows(&diff));
        for from in 0..6 {
            for to in 0..6 {
                assert!(!(has_edge(&diff, from, to) && is_deleted(&diff, from, to)));
                if has_edge(&diff, from, to) {
                    assert!(!diff.deleted_nodes().contains(&from));
                    assert!(!diff.deleted_nodes().contains(&to));
                }
            }
        }
    }
}

#[test]
fn an_edge_at_a_tombstone_is_refused_and_changes_nothing() {
    let mut diff = GraphDiff::new();
    diff.add_edge(&1, &2, 1.0f32.to_bits()).unwrap();
    diff.delete_edge(&3, &4);
    diff.delete_node(9);
    let before = diff.clone();

    assert_eq!(diff.add_edge(&9, &1, 0), Err(DiffError::EndpointDeleted));
    assert_eq!(diff, before);
    assert_eq!(diff.add_edge(&1, &9, 0), Err(DiffError::EndpointDeleted));
    assert_eq!(diff, before);
    assert_eq!(diff.add_edge(&9, &9, 0), Err(DiffError::EndpointDeleted));
    assert_eq!(diff, before);
    assert_eq!(
        DiffError::EndpointDeleted.message(),
        "Either from or to nodes are marked to be deleted"
    );

    diff.add_node(&9);
    assert_eq!(diff.add_edge(&9, &1, 0), Ok(()));
}

#[test]
fn add_edge_takes_back_a_deletion() {
    let mut diff = GraphDiff::new();
    diff.delete_edge(&1, &2);
    diff.delete_edge(&1, &3);
    diff.add_edge(&1, &2, 4.0f32.to_bits()).unwrap();
    assert!(!is_deleted(&diff, 1, 2));
    assert!(is_deleted(&diff, 1, 3));
    assert_eq!(weight_of(&diff, 1, 2), Some(4.0));

    diff.add_edge(&1, &3, 5.0f32.to_bits()).unwrap();
    assert!(diff.deleted_edges().is_empty());
    assert_eq!(sorted(diff.new_or_updated_edges().get(&1).unwrap().keys()), vec![2, 3]);
}

#[test]
fn delete_edge_takes_back_a_pending_edge() {
    let mut diff = GraphDiff::new();
    diff.add_edge(&1, &2, 0).unwrap();
    diff.add_edge(&1, &3, 0).unwrap();
    diff.delete_edge(&1, &2);
    assert!(!has_edge(&diff, 1, 2));
    assert!(has_edge(&diff, 1, 3));
    assert!(is_deleted(&diff, 1, 2));

    diff.delete_edge(&1, &3);
    assert!(diff.new_or_updated_edges().is_empty());
    assert_eq!(sorted(diff.deleted_edges().get(&1).unwrap().ids()), vec![2, 3]);

    diff.delete_edge(&7, &8);
    assert!(is_deleted(&diff, 7, 8));
    assert_eq!(diff.num_edges(), 2);
}

#[test]
fn every_weight_is_stored_as_given() {
    let mut diff = GraphDiff::new();
    for (to, weight) in [f32::NAN, f32::INFINITY, f32::NEG_INFINITY, -0.0, 1e-40]
        .into_iter()
        .enumerate()
    {
        let to = to as u128;
        assert_eq!(diff.add_edge(&0, &to, weight.to_bits()), Ok(()));
        assert_eq!(
            diff.new_or_updated_edges().get(&0).unwrap().get(&to),
            Some(&weight.to_bits())
        );
    }
}

#[test]
fn delete_node_cascades() {
    let mut diff = GraphDiff::new();
    diff.add_or_update_node(&2, NodeUpdate::default().with_red(2));
    diff.add_edge(&1, &2, 12.0f32.to_bits()).unwrap();
    diff.add_edge(&1, &3, 13.0f32.to_bits()).unwrap();
    diff.add_edge(&2, &3, 23.0f32.to_bits()).unwrap();
    diff.add_edge(&2, &2, 22.0f32.to_bits()).unwrap();
    diff.add_edge(&4, &2, 42.0f32.to_bits()).unwrap();
    diff.add_edge(&5, &6, 56.0f32.to_bits()).unwrap();
    diff.delete_edge(&8, &9);

    diff.delete_node(2);

    assert!(!diff.new_or_updated_nodes().contains_key(&2));
    assert!(diff.deleted_nodes().contains(&2));
    for from in 1..7 {
        assert!(!has_edge(&diff, from, 2));
        assert!(!has_edge(&diff, 2, from));
    }
    assert_eq!(weight_of(&diff, 1, 3), Some(13.0));
    assert_eq!(weight_of(&diff, 5, 6), Some(56.0));
    assert!(is_deleted(&diff, 1, 2));
    assert!(is_deleted(&diff, 4, 2));
    assert!(!is_deleted(&diff, 2, 2));
    assert!(!is_deleted(&diff, 2, 3));
    assert!(is_deleted(&diff, 8, 9));
    assert_eq!(sorted(diff.new_or_updated_edges().keys()), vec![1, 5]);
    assert_eq!(sorted(diff.deleted_edges().keys()), vec![1, 4, 8]);
}

#[test]
fn delete_node_leaves_no_empty_row() {
    let mut diff = GraphDiff::new();
    diff.add_edge(&1, &2, 0).unwrap();
    diff.delete_node(2);
    assert!(diff.new_or_updated_edges().is_empty());
    assert!(is_deleted(&diff, 1, 2));
    assert!(no_empty_rows(&diff));
}

#[test]
fn add_edges_adds_every_edge() {
    let mut batch = GraphDiff::new();
    batch.add_edge(&1, &2, 12).unwrap();
    batch.add_edge(&1, &3, 13).unwrap();
    batch.add_edge(&4, &1, 41).unwrap();

    let mut diff = GraphDiff::new();
    diff.add_edge(&1, &2, 99).unwrap();
    diff.add_edge(&7, &8, 78).unwrap();
    diff.delete_edge(&1, &3);
    diff.delete_edge(&1, &5);
    diff.delete_edge(&4, &1);

    assert_eq!(diff.add_edges(batch.new_or_updated_edges()), Ok(()));
    assert_eq!(diff.new_or_updated_edges().get(&1).unwrap().get(&2), Some(&12));
    assert_eq!(diff.new_or_updated_edges().get(&1).unwrap().get(&3), Some(&13));
    assert_eq!(diff.new_or_updated_edges().get(&4).unwrap().get(&1), Some(&41));
    assert_eq!(diff.new_or_updated_edges().get(&7).unwrap().get(&8), Some(&78));
    assert_eq!(sorted(diff.deleted_edges().keys()), vec![1]);
    assert_eq!(sorted(diff.deleted_edges().get(&1).unwrap().ids()), vec![5]);
}

#[test]
fn add_edges_stops_at_a_refusal_and_rolls_nothing_back() {
    let mut batch = GraphDiff::new();
    batch.add_edge(&1, &2, 12).unwrap();
    batch.add_edge(&1, &3, 13).unwrap();
    batch.add_edge(&1, &4, 14).unwrap();

    let mut diff = GraphDiff::new();
    diff.delete_node(3);
    let nodes_before = diff.nodes().clone();
    assert_eq!(
        diff.add_edges(batch.new_or_updated_edges()),
        Err(DiffError::EndpointDeleted)
    );
    assert_eq!(diff.nodes(), &nodes_before);
    assert!(!has_edge(&diff, 1, 3));
    for to in [2, 4] {
        if has_edge(&diff, 1, to) {
            assert_eq!(
                diff.new_or_updated_edges().get(&1).unwrap().get(&to),
                batch.new_or_updated_edges().get(&1).unwrap().get(&to)
            );
        }
    }
    assert!(diff.is_internally_consistent());
}

#[test]
fn delete_edges_marks_every_edge() {
    let mut batch = GraphDiff::new();
    batch.delete_edge(&1, &2);
    batch.delete_edge(&1, &3);
    batch.delete_edge(&4, &5);

    let mut diff = GraphDiff::new();
    diff.add_edge(&1, &2, 0).unwrap();
    diff.add_edge(&1, &6, 0).unwrap();
    diff.add_edge(&4, &5, 0).unwrap();
    diff.delete_edge(&1, &9);

    assert_eq!(diff.delete_edges(batch.deleted_edges()), Ok(()));
    assert_eq!(sorted(diff.new_or_updated_edges().keys()), vec![1]);
    assert_eq!(sorted(diff.new_or_updated_edges().get(&1).unwrap().keys()), vec![6]);
    assert_eq!(sorted(diff.deleted_edges().get(&1).unwrap().ids()), vec![2, 3, 9]);
    assert_eq!(sorted(diff.deleted_edges().get(&4).unwrap().ids()), vec![5]);
}

#[test]
fn add_edges_unchecked_pours_the_rows_in() {
    let mut batch = GraphDiff::new();
    batch.add_edge(&1, &2, 12).unwrap();
    batch.add_edge(&3, &4, 34).unwrap();

    let mut diff = GraphDiff::new();
    diff.add_edge(&1, &2, 99).unwrap();
    diff.add_edge(&1, &5, 15).unwrap();

    assert_eq!(
        diff.add_edges_unchecked(batch.new_or_updated_edges().clone()),
        Ok(())
    );
    assert_eq!(diff.new_or_updated_edges().get(&1).unwrap().get(&2), Some(&12));
    assert_eq!(diff.new_or_updated_edges().get(&1).unwrap().get(&5), Some(&15));
    assert_eq!(diff.new_or_updated_edges().get(&3).unwrap().get(&4), Some(&34));
    assert!(diff.is_internally_consistent());
}

#[test]
fn add_edges_unchecked_does_not_look_at_tombstones() {
    let mut batch = GraphDiff::new();
    batch.add_edge(&1, &2, 12).unwrap();

    let mut diff = GraphDiff::new();
    diff.delete_node(2);
    diff.delete_edge(&1, &2);
    assert_eq!(
        diff.add_edges_unchecked(batch.new_or_updated_edges().clone()),
        Ok(())
    );
    assert!(has_edge(&diff, 1, 2));
    assert!(is_deleted(&diff, 1, 2));
    assert!(diff.deleted_nodes().contains(&2));
    assert!(!diff.is_internally_consistent());
}

#[test]
fn internal_consistency_looks_at_both_edge_maps() {
    let mut diff = GraphDiff::new();
    diff.add_edge(&1, &2, 0).unwrap();
    diff.delete_edge(&3, &4);
    assert!(diff.is_internally_consistent());

    diff.delete_node(5);
    assert!(diff.is_internally_consistent());

    let mut reached = diff.clone();
    reached.delete_node(2);
    assert!(is_deleted(&reached, 1, 2));
    assert!(!reached.is_internally_consistent());

    let mut marked = diff.clone();
    marked.delete_node(4);
    assert!(!marked.is_internally_consistent());
}

#[test]
fn a_tombstoned_source_with_nothing_under_it_is_not_consistent() {
    let mut gone = IdSet::new();
    gone.insert(7);

    let mut rows = EdgeTable::new();
    rows.entry_or_default(7);
    let pending = GraphDiff::from_diffs(
        NodeDiff::new(NodeTable::new(), gone.clone()),
        EdgeDiff::new(rows.clone(), EdgeSetTable::new()),
    );
    assert!(pending.new_or_updated_edges().get(&7).unwrap().is_empty());
    assert!(!pending.is_internally_consistent());

    let mut sets = EdgeSetTable::new();
    sets.entry_or_default(7);
    let deleted = GraphDiff::from_diffs(
        NodeDiff::new(NodeTable::new(), gone.clone()),
        EdgeDiff::new(EdgeTable::new(), sets.clone()),
    );
    assert!(!deleted.is_internally_consistent());

    let alive = GraphDiff::from_diffs(
        NodeDiff::new(NodeTable::new(), IdSet::new()),
        EdgeDiff::new(rows.clone(), sets.clone()),
    );
    assert!(alive.is_internally_consistent());

    let mut elsewhere = IdSet::new();
    elsewhere.insert(8);
    let other = GraphDiff::from_diffs(
        NodeDiff::new(NodeTable::new(), elsewhere),
        EdgeDiff::new(rows, sets),
    );
    assert!(other.is_internally_consistent());
}

#[test]
fn a_batch_may_hold_a_source_with_nothing_under_it() {
    let mut edges = EdgeTable::new();
    edges.entry_or_default(0);
    edges.entry_or_default(1).insert(2, 12);

    let mut diff = GraphDiff::new();
    diff.delete_node(0);
    assert_eq!(diff.add_edges(&edges), Ok(()));
    assert!(!has_edge(&diff, 0, 0));
    assert!(diff.new_or_updated_edges().get(&0).is_none());
    assert!(has_edge(&diff, 1, 2));
    assert!(diff.is_internally_consistent());
}

#[test]
fn merging_composes_two_diffs() {
    let mut d1 = GraphDiff::new();
    d1.add_node(&1);
    d1.add_node(&2);
    d1.add_node(&3);
    d1.add_edge(&1, &2, 1.0f32.to_bits()).unwrap();
    d1.add_edge(&1, &3, 2.0f32.to_bits()).unwrap();

    let mut d2 = GraphDiff::new();
    d2.add_edge(&1, &2, 5.0f32.to_bits()).unwrap();
    d2.delete_edge(&1, &3);

    d1 += d2;

    assert_eq!(weight_of(&d1, 1, 2), Some(5.0));
    assert!(!has_edge(&d1, 1, 3));
    assert!(is_deleted(&d1, 1, 3));
    assert_eq!(sorted(d1.new_or_updated_nodes().keys()), vec![1, 2, 3]);
}

#[test]
fn merging_is_applying_the_second_diff_step_by_step() {
    let mut merged = GraphDiff::new();
    merged.add_or_update_node(&1, NodeUpdate::default().with_red(1));
    merged.add_edge(&1, &2, 12).unwrap();
    merged.add_edge(&3, &1, 31).unwrap();
    merged.delete_edge(&1, &4);
    let mut stepwise = merged.clone();

    let mut other = GraphDiff::new();
    other.add_or_update_node(&1, NodeUpdate::default().with_green(2));
    other.add_or_update_node(&5, NodeUpdate::default().with_blue(3));
    other.delete_node(3);
    other.add_edge(&1, &4, 14).unwrap();
    other.delete_edge(&1, &2);
    merged += other;

    stepwise.add_or_update_node(&1, NodeUpdate::default().with_green(2));
    stepwise.add_or_update_node(&5, NodeUpdate::default().with_blue(3));
    stepwise.delete_node(3);
    stepwise.add_edge(&1, &4, 14).unwrap();
    stepwise.delete_edge(&1, &2);

    assert_eq!(merged, stepwise);
    assert_eq!(
        merged.new_or_updated_nodes().get(&1),
        Some(&NodeUpdate::default().with_red(1).with_green(2))
    );
    assert!(!has_edge(&merged, 3, 1));
    assert!(!is_deleted(&merged, 3, 1));
    assert!(has_edge(&merged, 1, 4));
    assert!(is_deleted(&merged, 1, 2));
}

#[test]
fn merging_leaves_out_edges_at_tombstones() {
    let mut diff = GraphDiff::new();
    diff.delete_node(9);

    let mut other = GraphDiff::new();
    other.add_edge(&1, &9, 19).unwrap();
    other.add_edge(&9, &2, 92).unwrap();
    other.add_edge(&1, &2, 12).unwrap();

    diff += other;
    assert!(!has_edge(&diff, 1, 9));
    assert!(!has_edge(&diff, 9, 2));
    assert!(has_edge(&diff, 1, 2));
    assert!(diff.deleted_nodes().contains(&9));
    assert!(diff.is_internally_consistent());
}

#[test]
fn merging_holds_edges_against_the_tombstones_of_the_merged_nodes() {
    let mut diff = GraphDiff::new();
    diff.add_node(&1);

    let nodes = {
        let mut deleted = IdSet::new();
        deleted.insert(2);
        NodeDiff::new(NodeTable::new(), deleted)
    };
    let edges = {
        let mut source = GraphDiff::new();
        source.add_edge(&1, &2, 12).unwrap();
        source.add_edge(&1, &3, 13).unwrap();
        source.edges().clone()
    };
    diff += GraphDiff::from_diffs(nodes, edges);

    assert!(!has_edge(&diff, 1, 2));
    assert!(has_edge(&diff, 1, 3));
    assert!(diff.deleted_nodes().contains(&2));
}

#[test]
fn merging_the_empty_diff_changes_nothing() {
    let mut diff = GraphDiff::new();
    diff.add_or_update_node(&1, NodeUpdate::default().with_red(1));
    diff.delete_node(2);
    diff.add_edge(&1, &3, 13).unwrap();
    diff.delete_edge(&3, &1);
    let before = diff.clone();

    diff += GraphDiff::new();
    assert_eq!(diff, before);

    let mut empty = GraphDiff::new();
    empty += before.clone();
    assert_eq!(empty, before);
}

#[test]
fn node_and_edge_diffs_can_be_merged_on_their_own() {
    let mut source = GraphDiff::new();
    source.add_or_update_node(&1, NodeUpdate::default().with_red(1));
    source.delete_node(2);
    source.add_edge(&1, &3, 13).unwrap();
    source.delete_edge(&4, &5);

    let mut diff = GraphDiff::new();
    diff.add_edge(&6, &2, 62).unwrap();
    diff += source.nodes().clone();
    assert_eq!(diff.nodes(), source.nodes());
    assert!(is_deleted(&diff, 6, 2));
    assert!(diff.new_or_updated_edges().is_empty());

    let mut diff = GraphDiff::new();
    diff += source.edges().clone();
    assert_eq!(diff.edges(), source.edges());
    assert!(diff.new_or_updated_nodes().is_empty());
    assert!(diff.deleted_nodes().is_empty());
}

#[test]
fn equality_does_not_depend_on_the_order_of_building() {
    let mut forward = GraphDiff::new();
    let mut backward = GraphDiff::new();
    for id in 0..40u128 {
        forward.add_or_update_node(&id, NodeUpdate::default().with_red(7));
        forward.add_edge(&id, &(id + 1), 3).unwrap();
        forward.delete_edge(&(id + 100), &id);
    }
    for id in (0..40u128).rev() {
        backward.delete_edge(&(id + 100), &id);
        backward.add_edge(&id, &(id + 1), 3).unwrap();
        backward.add_or_update_node(&id, NodeUpdate::default().with_red(7));
    }
    assert_eq!(forward, backward);
    backward.add_edge(&0, &1, 4).unwrap();
    assert_ne!(forward, backward);
}

#[test]
fn counts_add_pending_and_deleted() {
    let mut diff = GraphDiff::new();
    diff.add_node(&1);
    diff.add_node(&2);
    diff.delete_node(3);
    diff.add_edge(&1, &2, 0).unwrap();
    diff.add_edge(&1, &4, 0).unwrap();
    diff.add_edge(&2, &1, 0).unwrap();
    diff.delete_edge(&1, &5);
    assert_eq!(diff.num_nodes(), 3);
    assert_eq!(diff.num_edges(), 3);
}

#[test]
fn a_diff_is_made_of_its_two_parts() {
    let mut updates = NodeTable::new();
    updates.insert(1, NodeUpdate::default().with_red(1));
    let mut deleted = IdSet::new();
    deleted.insert(2);
    let nodes = NodeDiff::new(updates.clone(), deleted.clone());
    assert_eq!(nodes.get_new_or_updated(), &updates);
    assert_eq!(nodes.get_deleted(), &deleted);

    let mut rows = EdgeTable::new();
    rows.entry_or_default(1).insert(3, 13);
    let mut sets = EdgeSetTable::new();
    sets.entry_or_default(3).insert(1);
    let edges = EdgeDiff::new(rows.clone(), sets.clone());
    assert_eq!(edges.get_new_or_updated(), &rows);
    assert_eq!(edges.get_deleted(), &sets);

    let diff = GraphDiff::from_diffs(nodes.clone(), edges.clone());
    assert_eq!(diff.nodes(), &nodes);
    assert_eq!(diff.edges(), &edges);
    assert_eq!(diff.new_or_updated_nodes(), &updates);
    assert_eq!(diff.deleted_nodes(), &deleted);
    assert_eq!(diff.new_or_updated_edges(), &rows);
    assert_eq!(diff.deleted_edges(), &sets);
    assert!(!diff.is_empty());
}
