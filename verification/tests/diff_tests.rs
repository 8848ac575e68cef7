use drisk_api::{EdgeTable, GraphDiff, NodeUpdate};

#[test]
fn test_node() {
    let mut diff = GraphDiff::new();

    let id = 1;
    let mut node = NodeUpdate {
        label: Some("test".to_string()),
        ..NodeUpdate::default()
    };

    diff.add_node(&id);
    diff.add_or_update_node(&id, node.clone());
    assert_eq!(diff.new_or_updated_nodes().get(&id).unwrap(), &node);

    node.size = Some(10.0f32.to_bits());
    diff.add_or_update_node(&id, node.clone());
    assert_eq!(diff.new_or_updated_nodes().get(&id).unwrap(), &node);

    let node2 = NodeUpdate {
        green: Some(5),
        ..NodeUpdate::default()
    };
    diff.add_or_update_node(&id, node2.clone());

    let combined = NodeUpdate {
        label: Some("test".to_string()),
        size: Some(10.0f32.to_bits()),
        green: Some(5),
        ..NodeUpdate::default()
    };
    assert_eq!(diff.new_or_updated_nodes().get(&id).unwrap(), &combined);

    diff.delete_node(id);
    assert!(diff.new_or_updated_nodes().is_empty());
}

#[test]
fn test_edge() {
    let mut diff = GraphDiff::new();

    let from = 1;
    let to = 2;
    let weight = 1.0f32;

    diff.add_edge(&from, &to, weight.to_bits()).unwrap();
    assert_eq!(
        f32::from_bits(
            *diff
                .new_or_updated_edges()
                .get(&from)
                .unwrap()
                .get(&to)
                .unwrap()
        ),
        weight
    );

    let weight2 = 2.0f32;
    diff.add_edge(&from, &to, weight2.to_bits()).unwrap();
    assert_eq!(
        f32::from_bits(
            *diff
                .new_or_updated_edges()
                .get(&from)
                .unwrap()
                .get(&to)
                .unwrap()
        ),
        weight2
    );

    diff.delete_node(from);
    assert!(diff.new_or_updated_edges().is_empty());
}

#[test]
fn test_add_assign_nodes() {
    let mut diff1 = GraphDiff::new();
    let node = NodeUpdate {
        label: Some("test".to_string()),
        ..NodeUpdate::default()
    };
    let node_other = NodeUpdate {
        size: Some(10.0f32.to_bits()),
        ..NodeUpdate::default()
    };
    diff1.add_node(&1);
    diff1.add_or_update_node(&1, node.clone());
    diff1.add_node(&2);
    diff1.delete_node(3);

    let mut diff2 = GraphDiff::new();
    diff2.add_node(&1);
    diff2.add_or_update_node(&1, node_other.clone());
    diff2.delete_node(2);

    diff1 += diff2;

    let d1 = diff1.new_or_updated_nodes().get(&1).unwrap();
    assert_eq!(d1.label.as_ref().unwrap(), "test");
    assert_eq!(f32::from_bits(d1.size.unwrap()), 10.0);
    assert!(!diff1.new_or_updated_nodes().contains_key(&2));
    assert!(diff1.deleted_nodes().contains(&2));
    assert!(diff1.deleted_nodes().contains(&3));
}

fn weight(diff: &GraphDiff, from: u128, to: u128) -> f32 {
    f32::from_bits(
        *diff
            .new_or_updated_edges()
            .get(&from)
            .unwrap()
            .get(&to)
            .unwrap(),
    )
}

#[test]
fn test_add_assign_edges() {
    let mut diff1 = GraphDiff::new();
    diff1.add_edge(&1, &2, 1.0f32.to_bits()).unwrap();
    diff1.add_edge(&1, &3, 2.0f32.to_bits()).unwrap();
    diff1.add_edge(&1, &4, 2.0f32.to_bits()).unwrap();
    diff1.add_edge(&2, &3, 3.0f32.to_bits()).unwrap();
    diff1.add_edge(&3, &1, 4.0f32.to_bits()).unwrap();

    let mut diff2 = GraphDiff::new();
    diff2.add_edge(&1, &2, 5.0f32.to_bits()).unwrap();
    diff2.add_edge(&2, &3, 6.0f32.to_bits()).unwrap();
    diff2.add_edge(&3, &1, 7.0f32.to_bits()).unwrap();
    diff2.delete_edge(&1, &3);

    diff1 += diff2;

    assert_eq!(weight(&diff1, 1, 2), 5.0);
    assert_eq!(weight(&diff1, 2, 3), 6.0);
    assert_eq!(weight(&diff1, 3, 1), 7.0);
    assert_eq!(weight(&diff1, 1, 4), 2.0);
    assert!(diff1.deleted_edges().get(&1).unwrap().contains(&3));
}

#[test]
fn test_add_edges() {
    let mut diff = GraphDiff::new();
    for i in 0..50 {
        diff.add_node(&i);
    }

    for i in 10..20 {
        diff.delete_node(i);
    }

    let mut edges = EdgeTable::new();
    for i in 0..50u128 {
        let inner = edges.entry_or_default(i);
        for j in 0..i {
            inner.insert(j, 1f32.to_bits());
        }
    }

    // check can't add if nodes are deleted
    let mut diff2 = diff.clone();
    for i in 10..20 {
        diff2.delete_node(i);
    }
    assert!(diff2.add_edges(&edges).is_err());

    for i in 30..40 {
        diff.delete_node(i);
    }

    assert!(diff.is_internally_consistent());
}
