use drisk_api::{EdgeSetTable, EdgeTable, IdSet, NodeTable, NodeUpdate, TextTable, WeightTable};

fn sorted(mut ids: Vec<u128>) -> Vec<u128> {
    ids.sort();
    ids
}

#[test]
fn id_set_follows_its_operations() {
    let mut set = IdSet::new();
    assert!(set.is_empty());
    assert_eq!(set.len(), 0);
    assert!(set.insert(3));
    assert!(!set.insert(3));
    assert!(set.insert(5));
    assert!(set.contains(&3));
    assert!(!set.contains(&4));
    assert_eq!(set.len(), 2);
    assert!(!set.is_empty());
    assert_eq!(sorted(set.ids()), vec![3, 5]);
    assert!(set.remove(&3));
    assert!(!set.remove(&3));
    assert!(!set.contains(&3));
    assert_eq!(sorted(set.ids()), vec![5]);
    let copy = set.clone();
    assert_eq!(copy, set);
    set.clear();
    assert!(set.is_empty());
    assert!(copy.contains(&5));
    assert!(IdSet::default().is_empty());
}

#[test]
fn weight_table_follows_its_operations() {
    let mut table = WeightTable::new();
    assert!(table.is_empty());
    assert_eq!(table.insert(1, 10), None);
    assert_eq!(table.insert(1, 11), Some(10));
    assert_eq!(table.insert(2, 20), None);
    assert!(!table.is_empty());
    assert!(table.contains_key(&1));
    assert!(!table.contains_key(&3));
    assert_eq!(table.get(&1), Some(&11));
    assert_eq!(table.get(&3), None);
    assert_eq!(sorted(table.keys()), vec![1, 2]);

    let mut other = WeightTable::new();
    other.insert(2, 200);
    other.insert(3, 300);
    table.extend(other);
    assert_eq!(table.get(&1), Some(&11));
    assert_eq!(table.get(&2), Some(&200));
    assert_eq!(table.get(&3), Some(&300));

    assert_eq!(table.remove(&2), Some(200));
    assert_eq!(table.remove(&2), None);
    assert_eq!(sorted(table.keys()), vec![1, 3]);
    let copy = table.clone();
    assert_eq!(copy, table);
    assert!(WeightTable::default().is_empty());
}

#[test]
fn edge_table_follows_its_operations() {
    let mut table = EdgeTable::new();
    assert!(table.is_empty());
    assert_eq!(table.len(), 0);
    assert!(table.get(&1).is_none());
    assert!(table.get_mut(&1).is_none());
    assert!(table.is_empty());

    table.entry_or_default(1).insert(2, 12);
    table.entry_or_default(1).insert(3, 13);
    table.entry_or_default(4).insert(5, 45);
    assert_eq!(table.len(), 2);
    assert_eq!(sorted(table.keys()), vec![1, 4]);
    assert_eq!(sorted(table.get(&1).unwrap().keys()), vec![2, 3]);
    assert_eq!(table.get(&1).unwrap().get(&3), Some(&13));

    table.get_mut(&1).unwrap().remove(&2);
    assert_eq!(sorted(table.get(&1).unwrap().keys()), vec![3]);
    assert_eq!(table.get(&4).unwrap().get(&5), Some(&45));

    let copy = table.clone();
    assert_eq!(copy, table);

    let row = table.remove(&1).unwrap();
    assert_eq!(row.get(&3), Some(&13));
    assert!(table.remove(&1).is_none());
    assert!(table.get(&1).is_none());
    assert_eq!(table.len(), 1);
    assert_eq!(copy.len(), 2);

    table.clear();
    assert!(table.is_empty());
}

#[test]
fn edge_set_table_follows_its_operations() {
    let mut table = EdgeSetTable::new();
    assert!(table.is_empty());
    assert!(table.get(&1).is_none());
    assert!(table.get_mut(&1).is_none());

    table.entry_or_default(1).insert(2);
    table.entry_or_default(1).insert(3);
    table.entry_or_default(4).insert(5);
    assert_eq!(table.len(), 2);
    assert!(!table.is_empty());
    assert_eq!(sorted(table.keys()), vec![1, 4]);
    assert_eq!(sorted(table.get(&1).unwrap().ids()), vec![2, 3]);

    table.get_mut(&1).unwrap().remove(&2);
    assert_eq!(sorted(table.get(&1).unwrap().ids()), vec![3]);

    let copy = table.clone();
    assert_eq!(copy, table);

    let set = table.remove(&4).unwrap();
    assert!(set.contains(&5));
    assert!(table.remove(&4).is_none());
    assert_eq!(sorted(table.keys()), vec![1]);

    table.clear();
    assert!(table.is_empty());
    assert_eq!(copy.len(), 2);
}

#[test]
fn node_table_follows_its_operations() {
    let one = NodeUpdate::default().with_red(1);
    let two = NodeUpdate::default().with_red(2);

    let mut table = NodeTable::new();
    assert!(table.is_empty());
    assert_eq!(table.len(), 0);
    assert_eq!(table.insert(7, one.clone()), None);
    assert_eq!(table.insert(7, two.clone()), Some(one.clone()));
    assert_eq!(table.get(&7), Some(&two));
    assert!(table.contains_key(&7));
    assert!(!table.contains_key(&8));

    table.try_insert(7, one.clone());
    assert_eq!(table.get(&7), Some(&two));
    table.try_insert(8, one.clone());
    assert_eq!(table.get(&8), Some(&one));
    assert_eq!(table.len(), 2);
    assert_eq!(sorted(table.keys()), vec![7, 8]);

    table.get_mut(&8).unwrap().green = Some(9);
    assert_eq!(table.get(&8), Some(&one.clone().with_green(9)));
    assert!(table.get_mut(&9).is_none());

    let copy = table.clone();
    assert_eq!(copy, table);

    assert_eq!(table.remove(&7), Some(two));
    assert_eq!(table.remove(&7), None);
    assert_eq!(sorted(table.keys()), vec![8]);
    table.clear();
    assert!(table.is_empty());
    assert_eq!(copy.len(), 2);
}

#[test]
fn text_table_follows_its_operations() {
    let mut table = TextTable::new();
    assert!(table.keys().is_empty());
    assert_eq!(table.insert(1, "a".to_string()), None);
    assert_eq!(table.insert(1, "b".to_string()), Some("a".to_string()));
    assert_eq!(table.insert(2, "c".to_string()), None);
    assert_eq!(table.get(&1).map(String::as_str), Some("b"));
    assert_eq!(table.get(&3), None);
    assert_eq!(sorted(table.keys()), vec![1, 2]);
    assert_eq!(table.remove(&1), Some("b".to_string()));
    assert_eq!(table.remove(&1), None);
    assert_eq!(sorted(table.keys()), vec![2]);
}
