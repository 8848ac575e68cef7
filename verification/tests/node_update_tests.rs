use drisk_api::NodeUpdate;

fn full() -> NodeUpdate {
    NodeUpdate {
        label: Some("label".to_string()),
        size: Some(1.5f32.to_bits()),
        url: Some("url".to_string()),
        red: Some(1),
        green: Some(2),
        blue: Some(3),
        show_label: Some(true),
    }
}

#[test]
fn default_has_no_field() {
    let update = NodeUpdate::default();
    assert_eq!(update.label, None);
    assert_eq!(update.size, None);
    assert_eq!(update.url, None);
    assert_eq!(update.red, None);
    assert_eq!(update.green, None);
    assert_eq!(update.blue, None);
    assert_eq!(update.show_label, None);
}

#[test]
fn default_is_a_left_identity() {
    let mut update = NodeUpdate::default();
    update += full();
    assert_eq!(update, full());
}

#[test]
fn default_is_a_right_identity() {
    let mut update = full();
    update += NodeUpdate::default();
    assert_eq!(update, full());

    let mut partial = NodeUpdate::default().with_green(9);
    partial += NodeUpdate::default();
    assert_eq!(partial, NodeUpdate::default().with_green(9));
}

#[test]
fn disjoint_fields_are_both_kept() {
    let mut update = NodeUpdate {
        label: Some("test".to_string()),
        red: Some(200),
        ..NodeUpdate::default()
    };
    update += NodeUpdate {
        size: Some(10.0f32.to_bits()),
        show_label: Some(false),
        ..NodeUpdate::default()
    };
    assert_eq!(
        update,
        NodeUpdate {
            label: Some("test".to_string()),
            size: Some(10.0f32.to_bits()),
            url: None,
            red: Some(200),
            green: None,
            blue: None,
            show_label: Some(false),
        }
    );
}

#[test]
fn the_second_value_of_a_field_wins() {
    let mut update = full();
    update += NodeUpdate {
        label: Some("newer".to_string()),
        size: Some(2.5f32.to_bits()),
        url: Some("other".to_string()),
        red: Some(11),
        green: Some(12),
        blue: Some(13),
        show_label: Some(false),
    };
    assert_eq!(update.label.as_deref(), Some("newer"));
    assert_eq!(update.size.map(f32::from_bits), Some(2.5));
    assert_eq!(update.url.as_deref(), Some("other"));
    assert_eq!(update.red, Some(11));
    assert_eq!(update.green, Some(12));
    assert_eq!(update.blue, Some(13));
    assert_eq!(update.show_label, Some(false));
}

#[test]
fn only_the_fields_that_are_set_overwrite() {
    let mut update = full();
    update += NodeUpdate::default().with_blue(77);
    let expected = NodeUpdate {
        blue: Some(77),
        ..full()
    };
    assert_eq!(update, expected);
}

#[test]
fn merging_is_associative_on_an_example() {
    let a = NodeUpdate::default().with_label("a".to_string()).with_red(1);
    let b = NodeUpdate::default().with_label("b".to_string()).with_green(2);
    let c = NodeUpdate::default().with_blue(3).with_red(4);

    let mut left = a.clone();
    left += b.clone();
    left += c.clone();

    let mut right_tail = b;
    right_tail += c;
    let mut right = a;
    right += right_tail;

    assert_eq!(left, right);
    assert_eq!(left.label.as_deref(), Some("b"));
    assert_eq!(left.red, Some(4));
}

#[test]
fn builders_set_one_field_each() {
    let update = NodeUpdate::default()
        .with_label("l".to_string())
        .with_size(3.0f32.to_bits())
        .with_url("u".to_string())
        .with_red(1)
        .with_green(2)
        .with_blue(3)
        .with_show_label(true);
    assert_eq!(
        update,
        NodeUpdate {
            label: Some("l".to_string()),
            size: Some(3.0f32.to_bits()),
            url: Some("u".to_string()),
            red: Some(1),
            green: Some(2),
            blue: Some(3),
            show_label: Some(true),
        }
    );
    assert_eq!(NodeUpdate::default().with_red(5).green, None);
}

#[test]
fn a_clone_is_equal_to_what_it_copies() {
    let update = full();
    let copy = update.clone();
    assert_eq!(copy, update);
}
