use synckit_core::crdt::text_fugue::{FugueText, LamportClock, TextError};

#[test]
fn test_new() {
    let text = FugueText::new("client1".to_string());
    assert_eq!(text.len(), 0);
    assert_eq!(text.to_string(), "");
    assert_eq!(text.client_id(), "client1");
    assert_eq!(text.clock(), 0);
}

#[test]
fn test_insert_single() {
    let mut text = FugueText::new("client1".to_string());
    text.insert(0, "Hello").unwrap();

    assert_eq!(text.len(), 5);
    assert_eq!(text.to_string(), "Hello");
    assert_eq!(text.clock(), 5);
}

#[test]
fn test_insert_multiple() {
    let mut text = FugueText::new("client1".to_string());
    text.insert(0, "Hello").unwrap();
    text.insert(5, " ").unwrap();
    text.insert(6, "World").unwrap();

    assert_eq!(text.to_string(), "Hello World");
    assert_eq!(text.clock(), 11);
}

#[test]
fn test_insert_out_of_bounds() {
    let mut text = FugueText::new("client1".to_string());
    let result = text.insert(10, "test");

    assert!(result.is_err());
    match result {
        Err(TextError::PositionOutOfBounds { position, length }) => {
            assert_eq!(position, 10);
            assert_eq!(length, 0);
        }
        _ => panic!("Expected PositionOutOfBounds error"),
    }
}

#[test]
fn test_delete_single() {
    let mut text = FugueText::new("client1".to_string());
    text.insert(0, "Hello World").unwrap();
    text.delete(5, 6).unwrap();

    assert_eq!(text.to_string(), "Hello");
    assert_eq!(text.len(), 5);
}

#[test]
fn test_delete_out_of_bounds() {
    let mut text = FugueText::new("client1".to_string());
    text.insert(0, "Hello").unwrap();

    let result = text.delete(0, 10);
    assert!(result.is_err());
}

#[test]
fn test_concurrent_insert() {
    let mut text1 = FugueText::new("client1".to_string());
    let mut text2 = FugueText::new("client2".to_string());

    text1.insert(0, "A").unwrap();
    text2.insert(0, "B").unwrap();

    text1.merge(&text2).unwrap();
    text2.merge(&text1).unwrap();

    assert_eq!(text1.to_string(), text2.to_string());
}

#[test]
fn test_convergence() {
    let mut text1 = FugueText::new("client1".to_string());
    let mut text2 = FugueText::new("client2".to_string());

    text1.insert(0, "Hello").unwrap();
    text2.insert(0, "World").unwrap();

    text1.insert(5, " there").unwrap();
    text2.insert(5, "!").unwrap();

    text1.merge(&text2).unwrap();
    text2.merge(&text1).unwrap();

    assert_eq!(text1.to_string(), text2.to_string());
}

#[test]
fn test_unicode_emoji() {
    let mut text = FugueText::new("client1".to_string());
    text.insert(0, "Hello \u{1F44B}").unwrap();

    assert_eq!(text.len(), 7);
    assert_eq!(text.to_string(), "Hello \u{1F44B}");
}

#[test]
fn test_lamport_clock() {
    let mut clock = LamportClock::new();
    assert_eq!(clock.value(), 0);

    let ts1 = clock.tick();
    assert_eq!(ts1, 1);

    let ts2 = clock.tick();
    assert_eq!(ts2, 2);

    clock.update(5);
    assert_eq!(clock.value(), 5);

    let ts3 = clock.tick();
    assert_eq!(ts3, 6);
}

#[test]
fn test_empty_string_insert() {
    let mut text = FugueText::new("client1".to_string());
    text.insert(0, "").unwrap();
    assert_eq!(text.len(), 0);
    assert_eq!(text.to_string(), "");
}

#[test]
fn test_large_text_insert() {
    let mut text = FugueText::new("client1".to_string());
    let large_text = "a".repeat(10000);
    text.insert(0, &large_text).unwrap();
    assert_eq!(text.len(), 10000);
    assert_eq!(text.to_string(), large_text);
}

#[test]
fn test_delete_entire_text() {
    let mut text = FugueText::new("client1".to_string());
    text.insert(0, "Hello World").unwrap();
    text.delete(0, 11).unwrap();
    assert_eq!(text.len(), 0);
    assert_eq!(text.to_string(), "");
}

#[test]
fn test_delete_then_insert_same_position() {
    let mut text = FugueText::new("client1".to_string());
    text.insert(0, "Hello World").unwrap();
    text.delete(6, 5).unwrap();
    text.insert(6, "Rust").unwrap();
    assert_eq!(text.to_string(), "Hello Rust");
}

#[test]
fn test_three_way_concurrent_insert() {
    let mut text1 = FugueText::new("client1".to_string());
    let mut text2 = FugueText::new("client2".to_string());
    let mut text3 = FugueText::new("client3".to_string());

    text1.insert(0, "A").unwrap();
    text2.insert(0, "B").unwrap();
    text3.insert(0, "C").unwrap();

    text1.merge(&text2).unwrap();
    text1.merge(&text3).unwrap();
    text2.merge(&text1).unwrap();
    text3.merge(&text1).unwrap();

    let result = text1.to_string();
    assert_eq!(text2.to_string(), result);
    assert_eq!(text3.to_string(), result);
    assert!(result.contains('A') && result.contains('B') && result.contains('C'));
}

#[test]
fn test_interleaved_operations() {
    let mut text1 = FugueText::new("client1".to_string());
    let mut text2 = FugueText::new("client2".to_string());

    text1.insert(0, "Hello").unwrap();
    text2.merge(&text1).unwrap();

    text1.insert(5, " World").unwrap();
    text2.insert(5, " Rust").unwrap();

    text1.merge(&text2).unwrap();
    text2.merge(&text1).unwrap();

    assert_eq!(text1.to_string(), text2.to_string());
}

#[test]
fn test_multiple_sequential_merges() {
    let mut text1 = FugueText::new("client1".to_string());
    let mut text2 = FugueText::new("client2".to_string());

    text1.insert(0, "A").unwrap();
    text2.merge(&text1).unwrap();

    text2.insert(1, "B").unwrap();
    text1.merge(&text2).unwrap();

    text1.insert(2, "C").unwrap();
    text2.merge(&text1).unwrap();

    assert_eq!(text1.to_string(), "ABC");
    assert_eq!(text2.to_string(), "ABC");
}

#[test]
fn test_concurrent_delete_and_insert() {
    let mut text1 = FugueText::new("client1".to_string());
    let mut text2 = FugueText::new("client2".to_string());

    text1.insert(0, "Hello World").unwrap();
    text2.merge(&text1).unwrap();

    text1.delete(6, 5).unwrap();
    text2.insert(11, "!").unwrap();

    text1.merge(&text2).unwrap();
    text2.merge(&text1).unwrap();

    assert_eq!(text1.to_string(), text2.to_string());
}

#[test]
fn test_network_partition_simulation() {
    let mut text1 = FugueText::new("client1".to_string());
    let mut text2 = FugueText::new("client2".to_string());
    let mut text3 = FugueText::new("client3".to_string());

    text1.insert(0, "Start").unwrap();
    text2.merge(&text1).unwrap();
    text3.merge(&text1).unwrap();

    text1.insert(5, " A").unwrap();
    text2.insert(5, " B").unwrap();
    text3.insert(5, " C").unwrap();

    text1.merge(&text2).unwrap();
    text2.merge(&text1).unwrap();

    text1.merge(&text3).unwrap();
    text2.merge(&text3).unwrap();
    text3.merge(&text1).unwrap();

    let result = text1.to_string();
    assert_eq!(text2.to_string(), result);
    assert_eq!(text3.to_string(), result);
}

#[test]
fn test_rle_optimization() {
    let mut text = FugueText::new("client1".to_string());
    text.insert(0, "Hello").unwrap();

    assert_eq!(text.block_count(), 1);

    text.insert(0, "Hi ").unwrap();
    assert_eq!(text.block_count(), 2);
}

#[test]
fn test_rtl_text() {
    let mut text = FugueText::new("client1".to_string());
    text.insert(0, "\u{645}\u{631}\u{62D}\u{628}\u{627}").unwrap();
    assert_eq!(text.to_string(), "\u{645}\u{631}\u{62D}\u{628}\u{627}");
    assert!(!text.is_empty());
}

#[test]
fn test_combining_characters() {
    let mut text = FugueText::new("client1".to_string());
    text.insert(0, "\u{E9}").unwrap();
    assert_eq!(text.len(), 1);
}

#[test]
fn test_mixed_scripts() {
    let mut text = FugueText::new("client1".to_string());
    text.insert(0, "Hello\u{4E16}\u{754C}\u{1F30D}").unwrap();
    assert_eq!(text.to_string(), "Hello\u{4E16}\u{754C}\u{1F30D}");
}

#[test]
fn test_sequential_single_char_inserts() {
    let mut text = FugueText::new("client1".to_string());
    text.insert(0, "H").unwrap();
    text.insert(1, "e").unwrap();
    text.insert(2, "l").unwrap();
    text.insert(3, "l").unwrap();
    text.insert(4, "o").unwrap();
    assert_eq!(text.to_string(), "Hello");
}

#[test]
fn text_test_is_empty() {
    let mut text = FugueText::new("client1".to_string());
    assert!(text.is_empty());

    text.insert(0, "Hello").unwrap();
    assert!(!text.is_empty());

    text.delete(0, 5).unwrap();
    assert!(text.is_empty());
}

#[test]
fn test_delete_middle() {
    let mut text = FugueText::new("client1".to_string());
    text.insert(0, "Hello World").unwrap();
    text.delete(5, 1).unwrap();
    assert_eq!(text.to_string(), "HelloWorld");
}

#[test]
fn test_delete_beginning() {
    let mut text = FugueText::new("client1".to_string());
    text.insert(0, "Hello World").unwrap();
    text.delete(0, 6).unwrap();
    assert_eq!(text.to_string(), "World");
}

#[test]
fn test_idempotent_merge() {
    let mut text1 = FugueText::new("client1".to_string());
    text1.insert(0, "Hello").unwrap();

    let state = text1.to_string();

    text1.merge(&text1.clone()).unwrap();
    assert_eq!(text1.to_string(), state);
}

#[test]
fn test_commutative_merge() {
    let mut text1 = FugueText::new("client1".to_string());
    let mut text2 = FugueText::new("client2".to_string());

    text1.insert(0, "A").unwrap();
    text2.insert(0, "B").unwrap();

    let mut text_ab = text1.clone();
    text_ab.merge(&text2).unwrap();

    let mut text_ba = text2.clone();
    text_ba.merge(&text1).unwrap();

    assert_eq!(text_ab.to_string(), text_ba.to_string());
}

#[test]
fn test_associative_merge() {
    let mut text1 = FugueText::new("client1".to_string());
    let mut text2 = FugueText::new("client2".to_string());
    let mut text3 = FugueText::new("client3".to_string());

    text1.insert(0, "A").unwrap();
    text2.insert(0, "B").unwrap();
    text3.insert(0, "C").unwrap();

    let mut result1 = text1.clone();
    result1.merge(&text2).unwrap();
    result1.merge(&text3).unwrap();

    let mut result2 = text1.clone();
    let mut text23 = text2.clone();
    text23.merge(&text3).unwrap();
    result2.merge(&text23).unwrap();

    assert_eq!(result1.to_string(), result2.to_string());
}

#[test]
fn test_get_node_id_at_position() {
    let mut text = FugueText::new("client1".to_string());
    text.insert(0, "Hello").unwrap();

    let node_id_0 = text.get_node_id_at_position(0).unwrap();
    assert_eq!(node_id_0.client_id, "client1");
    assert_eq!(node_id_0.clock, 1);
    assert_eq!(node_id_0.offset, 0);

    let node_id_2 = text.get_node_id_at_position(2).unwrap();
    assert_eq!(node_id_2.client_id, "client1");
    assert_eq!(node_id_2.clock, 3);
    assert_eq!(node_id_2.offset, 0);

    let node_id_4 = text.get_node_id_at_position(4).unwrap();
    assert_eq!(node_id_4.client_id, "client1");
    assert_eq!(node_id_4.clock, 5);
    assert_eq!(node_id_4.offset, 0);
}

#[test]
fn test_get_node_id_at_position_out_of_bounds() {
    let mut text = FugueText::new("client1".to_string());
    text.insert(0, "Hello").unwrap();

    let result = text.get_node_id_at_position(5);
    assert!(result.is_err());
    match result {
        Err(TextError::PositionOutOfBounds { position, length }) => {
            assert_eq!(position, 5);
            assert_eq!(length, 5);
        }
        _ => panic!("Expected PositionOutOfBounds error"),
    }

    let result = text.get_node_id_at_position(10);
    assert!(result.is_err());
}

#[test]
fn test_get_node_id_multiple_blocks() {
    let mut text = FugueText::new("client1".to_string());

    text.insert(0, "Hello").unwrap();
    text.insert(5, " World").unwrap();

    let node_id_2 = text.get_node_id_at_position(2).unwrap();
    assert_eq!(node_id_2.client_id, "client1");
    assert_eq!(node_id_2.clock, 3);
    assert_eq!(node_id_2.offset, 0);

    let node_id_6 = text.get_node_id_at_position(6).unwrap();
    assert_eq!(node_id_6.client_id, "client1");
    assert_eq!(node_id_6.clock, 7);
    assert_eq!(node_id_6.offset, 0);
}

#[test]
fn test_get_node_id_after_delete() {
    let mut text = FugueText::new("client1".to_string());

    text.insert(0, "Hello").unwrap();
    text.insert(5, " World").unwrap();

    assert_eq!(text.to_string(), "Hello World");
    assert_eq!(text.len(), 11);

    text.delete(5, 6).unwrap();

    assert_eq!(text.to_string(), "Hello");
    assert_eq!(text.len(), 5);

    let node_id = text.get_node_id_at_position(2).unwrap();
    assert_eq!(node_id.client_id, "client1");
    assert_eq!(node_id.clock, 3);
    assert_eq!(node_id.offset, 0);

    let result = text.get_node_id_at_position(5);
    assert!(result.is_err());
}

#[test]
fn test_simple_sequential() {
    let mut text = FugueText::new("test".to_string());
    text.insert(0, "A").unwrap();
    text.insert(1, "B").unwrap();
    text.insert(2, "C").unwrap();
    assert_eq!(text.to_string(), "ABC");
}

#[test]
fn test_insert_middle() {
    let mut text = FugueText::new("test".to_string());
    text.insert(0, "A").unwrap();
    text.insert(1, "C").unwrap();
    text.insert(1, "B").unwrap();
    let result = text.to_string();
    println!("Result: '{}'", result);
    assert_eq!(result, "ABC", "Expected ABC, got {}", result);
}

#[test]
fn test_insert_into_middle_of_block() {
    let mut text = FugueText::new("test".to_string());

    text.insert(0, "The quick brown fox").unwrap();
    println!("After first insert: '{}'", text.to_string());
    assert_eq!(text.to_string(), "The quick brown fox");

    text.insert(4, "very ").unwrap();
    println!("After second insert: '{}'", text.to_string());

    let result = text.to_string();
    assert_eq!(
        result, "The very quick brown fox",
        "Expected 'The very quick brown fox', got '{}'",
        result
    );
}

#[test]
fn test_delete_and_get_node_id() {
    let mut text = FugueText::new("test".to_string());

    text.insert(0, "Hello Beautiful World").unwrap();
    println!("After insert: '{}'", text.to_string());
    assert_eq!(text.to_string(), "Hello Beautiful World");
    assert_eq!(text.len(), 21);

    text.delete(6, 10).unwrap();
    println!("After delete: '{}'", text.to_string());
    assert_eq!(text.to_string(), "Hello World");
    assert_eq!(text.len(), 11);

    for i in 0..text.len() {
        let node_id = text.get_node_id_at_position(i).unwrap();
        println!("NodeId at position {}: {}", i, node_id.to_string());
        assert_eq!(node_id.client_id, "test");
        assert_eq!(node_id.offset, 0);
    }

    let node_0 = text.get_node_id_at_position(0).unwrap();
    assert_eq!(node_0.clock, 1);

    let node_5 = text.get_node_id_at_position(5).unwrap();
    assert_eq!(node_5.clock, 6);

    let node_6 = text.get_node_id_at_position(6).unwrap();
    assert_eq!(node_6.clock, 17);
}
