use vrp_pragmatic::state::{StateBag, StateValue};
use vrp_pragmatic::tags::{DimenValue, Dimensions, TagMap};

#[test]
fn tag_map_set_replaces_value() {
    let mut map: TagMap<usize> = TagMap::new();
    map.set("a".to_string(), 1);
    map.set("b".to_string(), 2);
    map.set("a".to_string(), 3);

    assert_eq!(map.len(), 2);
    assert_eq!(map.get("a"), Some(&3));
    assert_eq!(map.get("b"), Some(&2));
    assert_eq!(map.get("c"), None);
}

#[test]
fn dimens_text_read_checks_type() {
    let mut dimens: Dimensions = TagMap::new();
    dimens.set("group".to_string(), DimenValue::Text("g1".to_string()));
    dimens.set("size".to_string(), DimenValue::Number(3));

    match dimens.get_text("group") {
        Ok(Some(text)) => assert_eq!(text, "g1"),
        _ => panic!("expected a text"),
    }
    assert!(matches!(dimens.get_text("missing"), Ok(None)));
    match dimens.get_text("size") {
        Err(e) => {
            assert_eq!(e.key, "size");
            assert_eq!(e.expected, "text");
        }
        _ => panic!("expected a type error"),
    }
}

#[test]
fn state_bag_keeps_values_by_key() {
    let mut bag = StateBag::new();
    bag.set(1, StateValue::Number(10));
    bag.set(2, StateValue::Number(20));
    bag.set(1, StateValue::Number(11));

    assert!(matches!(bag.get(1), Some(StateValue::Number(11))));
    assert!(matches!(bag.get(2), Some(StateValue::Number(20))));
    assert!(bag.get(3).is_none());

    assert!(matches!(bag.remove(1), Some(StateValue::Number(11))));
    assert!(bag.get(1).is_none());
    assert!(bag.remove(1).is_none());
    assert!(matches!(bag.get(2), Some(StateValue::Number(20))));
}

#[test]
fn state_bag_typed_read_checks_type() {
    let mut bag = StateBag::new();
    let mut groups = TagMap::new();
    groups.set("g1".to_string(), 4);
    bag.set(1, StateValue::ActorGroups(groups));
    bag.set(2, StateValue::Number(7));

    match bag.get_actor_groups(1) {
        Ok(Some(m)) => assert_eq!(m.get("g1"), Some(&4)),
        _ => panic!("expected actor groups"),
    }
    assert!(matches!(bag.get_actor_groups(3), Ok(None)));
    match bag.get_actor_groups(2) {
        Err(e) => {
            assert_eq!(e.key, 2);
            assert_eq!(e.expected, "actor groups");
        }
        _ => panic!("expected a type error"),
    }
}
