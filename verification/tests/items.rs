use synckit_core::awareness::IncreasingClock;
use synckit_core::crdt::text::{Item, ItemId};
use synckit_core::ClientID;

#[test]
fn test_clock_increment() {
    let mut clock = IncreasingClock::new();
    assert_eq!(clock.get(), 0);
    assert_eq!(clock.increment(), 1);
    assert_eq!(clock.increment(), 2);
    assert_eq!(clock.get(), 2);
}

#[test]
fn test_clock_update_to_max() {
    let mut clock = IncreasingClock::new();
    clock.set(5);
    clock.update_to_max(3);
    assert_eq!(clock.get(), 5);
    clock.update_to_max(10);
    assert_eq!(clock.get(), 10);
}

#[test]
fn test_item_id_ordering() {
    let id1 = ItemId::new(1, 10);
    let id2 = ItemId::new(1, 20);
    let id3 = ItemId::new(2, 15);

    assert!(id1 < id2);

    assert!(id1 < id3);
    assert!(id3 < id2);
}

#[test]
fn test_item_id_equality() {
    let id1 = ItemId::new(1, 10);
    let id2 = ItemId::new(1, 10);
    let id3 = ItemId::new(2, 10);

    assert_eq!(id1, id2);
    assert_ne!(id1, id3);
}

#[test]
fn test_item_id_deterministic_tiebreaking() {
    let id1 = ItemId::new(1, 10);
    let id2 = ItemId::new(2, 10);

    assert!(id1 < id2);
}

#[test]
fn test_root_item() {
    let root = ItemId::new(0, 0);
    let normal = ItemId::new(1, 5);

    assert!(root.is_root());
    assert!(!normal.is_root());
}

#[test]
fn test_item_creation() {
    let id = ItemId::new(1, 10);
    let item = Item::new_char(id, 'a', None, None);

    assert_eq!(item.id, id);
    assert_eq!(item.content, "a");
    assert_eq!(item.left, None);
    assert_eq!(item.right, None);
    assert!(!item.deleted);
}

#[test]
fn test_item_deletion() {
    let id = ItemId::new(1, 10);
    let mut item = Item::new_char(id, 'a', None, None);

    assert!(!item.deleted);
    item.delete();
    assert!(item.deleted);
}

#[test]
fn test_item_merge_conditions() {
    let id1 = ItemId::new(1, 10);
    let id2 = ItemId::new(1, 11);
    let id3 = ItemId::new(2, 11);

    let item1 = Item::new_char(id1, 'a', None, Some(id2));
    let item2 = Item::new_char(id2, 'b', Some(id1), None);
    let item3 = Item::new_char(id3, 'c', None, None);

    assert!(item1.can_merge_with(&item2));

    assert!(!item2.can_merge_with(&item3));
}

#[test]
fn test_item_merge() {
    let id1 = ItemId::new(1, 10);
    let id2 = ItemId::new(1, 11);
    let id3 = ItemId::new(1, 12);

    let mut item1 = Item::new_char(id1, 'a', None, Some(id2));
    let item2 = Item::new_char(id2, 'b', Some(id1), Some(id3));

    item1.merge(&item2);

    assert_eq!(item1.content, "ab");
    assert_eq!(item1.right, Some(id3));
}

#[test]
fn item_id_precedes_agrees_with_derived_order() {
    let ids = [ItemId::new(5, 1), ItemId::new(1, 2), ItemId::new(2, 2), ItemId::new(0, 3)];
    for i in 0..4 {
        for j in 0..4 {
            assert_eq!(ids[i].precedes(&ids[j]), i < j);
            assert_eq!(ids[i].precedes(&ids[j]), ids[i] < ids[j]);
        }
    }
    assert_eq!(ItemId::new(3, 17).to_string(), "3:17");
}

#[test]
fn item_len_counts_bytes_and_new_char_holds_one_character() {
    let item = Item::new_char(ItemId::new(1, 1), '\u{E9}', None, None);
    assert_eq!(item.content, "\u{E9}");
    assert_eq!(item.len(), 2);
    assert!(!item.is_empty());
    assert_eq!(item.client, 1);
    let empty = Item::new(ItemId::new(1, 2), String::new(), None, None);
    assert!(empty.is_empty());
    assert_eq!(empty.len(), 0);
}

#[test]
fn item_cannot_merge_when_clock_is_not_next_or_flags_differ() {
    let id1 = ItemId::new(1, 10);
    let id2 = ItemId::new(1, 12);
    let a = Item::new_char(id1, 'a', None, Some(id2));
    let b = Item::new_char(id2, 'b', None, None);
    assert!(!a.can_merge_with(&b));
    let id3 = ItemId::new(1, 11);
    let c = Item::new_char(id1, 'a', None, Some(id3));
    let mut d = Item::new_char(id3, 'b', None, None);
    assert!(c.can_merge_with(&d));
    d.delete();
    assert!(!c.can_merge_with(&d));
    let top = Item::new_char(ItemId::new(1, u64::MAX), 'x', None, Some(ItemId::new(1, 0)));
    let zero = Item::new_char(ItemId::new(1, 0), 'y', None, None);
    assert!(!top.can_merge_with(&zero));
}

#[test]
fn increasing_clock_default_and_clone() {
    let mut clock = IncreasingClock::default();
    assert_eq!(clock.get(), 0);
    clock.set(9);
    let copy = clock.clone();
    assert_eq!(copy.get(), 9);
}

#[test]
fn test_basic_import() {
    let _client_id: ClientID = "test-client".to_string();
}
