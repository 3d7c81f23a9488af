use synckit_core::crdt::text_fugue::{FugueBlock, NodeId};

#[test]
fn test_new_block() {
    let id = NodeId::new("client1".to_string(), 1, 0);
    let block = FugueBlock::new(id.clone(), "Hello".to_string(), None, None);

    assert_eq!(block.id, id);
    assert_eq!(block.text, "Hello");
    assert_eq!(block.left_origin, None);
    assert_eq!(block.right_origin, None);
    assert!(!block.is_deleted());
}

#[test]
fn test_mark_deleted() {
    let id = NodeId::new("client1".to_string(), 1, 0);
    let mut block = FugueBlock::new(id, "test".to_string(), None, None);

    assert!(!block.is_deleted());

    block.mark_deleted();

    assert!(block.is_deleted());
}

#[test]
fn test_len_graphemes() {
    let id = NodeId::new("client1".to_string(), 1, 0);

    let block = FugueBlock::new(id.clone(), "Hello".to_string(), None, None);
    assert_eq!(block.len(), 5);

    let block = FugueBlock::new(id.clone(), "\u{1F44B}".to_string(), None, None);
    assert_eq!(block.len(), 1);

    let block = FugueBlock::new(
        id.clone(),
        "\u{1F468}\u{200D}\u{1F469}\u{200D}\u{1F467}\u{200D}\u{1F466}".to_string(),
        None,
        None,
    );
    assert_eq!(block.len(), 1);

    let block = FugueBlock::new(id, "Hello \u{1F44B} World".to_string(), None, None);
    assert_eq!(block.len(), 13);
}

#[test]
fn test_byte_len() {
    let id = NodeId::new("client1".to_string(), 1, 0);

    let block = FugueBlock::new(id.clone(), "Hello".to_string(), None, None);
    assert_eq!(block.byte_len(), 5);

    let block = FugueBlock::new(id, "\u{1F44B}".to_string(), None, None);
    assert_eq!(block.byte_len(), 4);
}

#[test]
fn block_test_is_empty() {
    let id = NodeId::new("client1".to_string(), 1, 0);

    let block = FugueBlock::new(id.clone(), "".to_string(), None, None);
    assert!(block.is_empty());

    let block = FugueBlock::new(id, "test".to_string(), None, None);
    assert!(!block.is_empty());
}

#[test]
fn test_rope_position_cache() {
    let id = NodeId::new("client1".to_string(), 1, 0);
    let mut block = FugueBlock::new(id, "test".to_string(), None, None);

    assert_eq!(block.rope_position(), None);

    block.set_rope_position(42);
    assert_eq!(block.rope_position(), Some(42));

    block.invalidate_rope_position();
    assert_eq!(block.rope_position(), None);
}

#[test]
fn cached_position_slot_is_set_and_emptied() {
    let id = NodeId::new("client1".to_string(), 1, 0);
    let mut block = FugueBlock::new(id, "test".to_string(), None, None);
    assert_eq!(block.cached_position(), None);
    block.set_cached_position(7);
    assert_eq!(block.cached_position(), Some(7));
    assert_eq!(block.rope_position(), None);
    block.invalidate_cached_position();
    assert_eq!(block.cached_position(), None);
    block.set_cached_position(usize::MAX);
    assert_eq!(block.cached_position(), None);
}

#[test]
fn default_block_is_empty_and_live() {
    let block = FugueBlock::default();
    assert_eq!(block.id, NodeId::new(String::new(), 0, 0));
    assert!(block.is_empty());
    assert!(!block.is_deleted());
    assert_eq!(block.len(), 0);
    assert_eq!(block.rope_position(), None);
    assert_eq!(block.cached_position(), None);
}

#[test]
fn clone_keeps_every_field() {
    let id = NodeId::new("client1".to_string(), 9, 0);
    let left = Some(NodeId::new("client1".to_string(), 3, 0));
    let mut block = FugueBlock::new(id, "abc".to_string(), left, None);
    block.mark_deleted();
    block.set_rope_position(4);
    let copy = block.clone();
    assert_eq!(copy, block);
}
