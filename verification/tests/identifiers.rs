use std::collections::BTreeMap;
use synckit_core::crdt::text_fugue::NodeId;

#[test]
fn test_ordering_by_clock() {
    let id1 = NodeId::new("client1".to_string(), 1, 0);
    let id2 = NodeId::new("client1".to_string(), 2, 0);

    assert!(id1 < id2, "Lower clock should come first");
    assert!(id2 > id1, "Higher clock should come after");
}

#[test]
fn test_ordering_by_client_id() {
    let id1 = NodeId::new("client1".to_string(), 1, 0);
    let id2 = NodeId::new("client2".to_string(), 1, 0);

    assert!(
        id1 < id2,
        "Lexicographically earlier client_id should come first"
    );
}

#[test]
fn test_ordering_by_offset() {
    let id1 = NodeId::new("client1".to_string(), 1, 0);
    let id2 = NodeId::new("client1".to_string(), 1, 1);

    assert!(id1 < id2, "Lower offset should come first");
}

#[test]
fn test_equality() {
    let id1 = NodeId::new("client1".to_string(), 1, 0);
    let id2 = NodeId::new("client1".to_string(), 1, 0);

    assert_eq!(id1, id2, "Identical NodeIds should be equal");
}

#[test]
fn test_btreemap_ordering() {
    let mut map = BTreeMap::new();

    map.insert(NodeId::new("client1".to_string(), 3, 0), "third");
    map.insert(NodeId::new("client1".to_string(), 1, 0), "first");
    map.insert(NodeId::new("client1".to_string(), 2, 0), "second");

    let values: Vec<_> = map.values().copied().collect();
    assert_eq!(values, vec!["first", "second", "third"]);
}

#[test]
fn test_display() {
    let id = NodeId::new("client1".to_string(), 42, 5);
    assert_eq!(id.to_string(), "client1@42:5");
}

#[test]
fn precedes_orders_by_clock_then_client_then_offset() {
    let a = NodeId::new("b".to_string(), 1, 9);
    let b = NodeId::new("a".to_string(), 2, 0);
    let c = NodeId::new("ab".to_string(), 2, 0);
    let d = NodeId::new("ab".to_string(), 2, 1);
    let all = [a, b, c, d];
    for i in 0..4 {
        for j in 0..4 {
            assert_eq!(all[i].precedes(&all[j]), i < j);
            assert_eq!(all[i].precedes(&all[j]), all[i] < all[j]);
            assert_eq!(all[i].same(&all[j]), i == j);
        }
    }
}

#[test]
fn precedes_agrees_with_derived_order_on_non_ascii_names() {
    let names = ["", "a", "z", "\u{E9}", "\u{4E16}", "\u{1F30D}", "a\u{E9}", "zz"];
    for x in names {
        for y in names {
            let a = NodeId::new(x.to_string(), 7, 0);
            let b = NodeId::new(y.to_string(), 7, 0);
            assert_eq!(a.precedes(&b), a < b);
        }
    }
}

#[test]
fn clone_keeps_the_identifier() {
    let id = NodeId::new("client1".to_string(), 42, 5);
    let copy = id.clone();
    assert_eq!(copy, id);
    assert_eq!(copy.to_string(), "client1@42:5");
}

#[test]
fn to_string_writes_zero_and_large_numbers() {
    assert_eq!(NodeId::new("r".to_string(), 0, 0).to_string(), "r@0:0");
    assert_eq!(
        NodeId::new("r".to_string(), u64::MAX, 10).to_string(),
        "r@18446744073709551615:10"
    );
}
