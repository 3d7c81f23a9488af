use synckit_core::crdt::text_fugue::split::split_block_for_deletion;
use unicode_segmentation::UnicodeSegmentation;
use synckit_core::crdt::text_fugue::store::{absorb, find_slot, remove_block, tombstone_block};
use synckit_core::crdt::text_fugue::tree::{find_block_for_nodeid, get_document_order};
use synckit_core::crdt::text_fugue::{FugueBlock, FugueText, LamportClock, NodeId, TextError};

fn id(client: &str, clock: u64) -> NodeId {
    NodeId::new(client.to_string(), clock, 0)
}

fn texts(engine: &FugueText) -> Vec<(String, u64, String, bool)> {
    engine
        .blocks()
        .iter()
        .map(|b| (b.id.client_id.clone(), b.id.clock, b.text.clone(), b.deleted))
        .collect()
}

#[test]
fn scenario_two_inserts_in_a_row() {
    let mut r1 = FugueText::new("r1".to_string());
    let id1 = r1.insert(0, "Hello").unwrap();
    let id2 = r1.insert(5, " World").unwrap();
    assert_eq!(r1.to_string(), "Hello World");
    assert_eq!(r1.len(), 11);
    assert_eq!(r1.clock(), 11);
    assert_eq!(id1, id("r1", 5));
    assert_eq!(id2, id("r1", 11));
}

#[test]
fn scenario_two_replicas_insert_at_the_start() {
    let mut r1 = FugueText::new("r1".to_string());
    let mut r2 = FugueText::new("r2".to_string());
    r1.insert(0, "A").unwrap();
    r2.insert(0, "B").unwrap();
    r1.merge(&r2).unwrap();
    r2.merge(&r1).unwrap();
    assert_eq!(r1.to_string(), r2.to_string());
    assert_eq!(r1.to_string(), "AB");
    assert!(r1.to_string().contains("A") && r1.to_string().contains("B"));
}

#[test]
fn scenario_anchor_follows_its_character() {
    let mut r1 = FugueText::new("r1".to_string());
    r1.insert(0, "Hello").unwrap();
    let x = r1.get_node_id_at_position(2).unwrap();
    r1.insert(0, "!!").unwrap();
    assert_eq!(r1.to_string(), "!!Hello");
    assert_eq!(r1.get_position_of_node_id(&x), Some(4));
}

#[test]
fn scenario_delete_splits_in_three() {
    let mut r1 = FugueText::new("test".to_string());
    r1.insert(0, "Hello Beautiful World").unwrap();
    let ids = r1.delete(6, 10).unwrap();
    assert_eq!(ids, vec![id("test", 16)]);
    assert_eq!(
        texts(&r1),
        vec![
            ("test".to_string(), 6, "Hello ".to_string(), false),
            ("test".to_string(), 16, "Beautiful ".to_string(), true),
            ("test".to_string(), 21, "World".to_string(), false),
        ]
    );
    assert_eq!(r1.clock(), 21);
    for p in 0..11 {
        assert_eq!(r1.get_node_id_at_position(p).unwrap().offset, 0);
    }
}

#[test]
fn insert_anchors_the_block_to_its_neighbours() {
    let mut r1 = FugueText::new("r1".to_string());
    r1.insert(0, "abc").unwrap();
    r1.insert(3, "xyz").unwrap();
    r1.insert(3, "-").unwrap();
    r1.insert(1, "!").unwrap();
    let blocks = r1.blocks();
    assert_eq!(blocks.len(), 4);
    assert_eq!(blocks[0].left_origin, None);
    assert_eq!(blocks[0].right_origin, None);
    assert_eq!(blocks[1].left_origin, Some(id("r1", 3)));
    assert_eq!(blocks[1].right_origin, None);
    assert_eq!(blocks[2].id, id("r1", 7));
    assert_eq!(blocks[2].left_origin, Some(id("r1", 3)));
    assert_eq!(blocks[2].right_origin, Some(id("r1", 4)));
    assert_eq!(blocks[3].id, id("r1", 8));
    assert_eq!(blocks[3].left_origin, Some(id("r1", 1)));
    assert_eq!(blocks[3].right_origin, Some(id("r1", 2)));
    assert_eq!(r1.to_string(), "a!bc-xyz");
}

#[test]
fn insert_at_the_start_has_only_a_right_origin() {
    let mut r1 = FugueText::new("r1".to_string());
    r1.insert(0, "abc").unwrap();
    r1.insert(0, "Z").unwrap();
    let blocks = r1.blocks();
    assert_eq!(blocks[1].left_origin, None);
    assert_eq!(blocks[1].right_origin, Some(id("r1", 1)));
}

#[test]
fn refused_insert_changes_nothing() {
    let mut r1 = FugueText::new("r1".to_string());
    r1.insert(0, "abc").unwrap();
    let before = texts(&r1);
    let r = r1.insert(4, "x");
    assert_eq!(r, Err(TextError::PositionOutOfBounds { position: 4, length: 3 }));
    assert_eq!(texts(&r1), before);
    assert_eq!(r1.to_string(), "abc");
    assert_eq!(r1.clock(), 3);
}

#[test]
fn refused_delete_names_the_range_and_changes_nothing() {
    let mut r1 = FugueText::new("r1".to_string());
    r1.insert(0, "Hello").unwrap();
    let r = r1.delete(3, 4);
    assert_eq!(r, Err(TextError::RangeOutOfBounds { start: 3, end: 7, length: 5 }));
    assert_eq!(r1.to_string(), "Hello");
    assert_eq!(r1.block_count(), 1);
}

#[test]
fn delete_of_nothing_records_nothing() {
    let mut r1 = FugueText::new("r1".to_string());
    r1.insert(0, "Hello").unwrap();
    assert_eq!(r1.delete(2, 0), Ok(vec![]));
    assert_eq!(r1.delete(5, 0), Ok(vec![]));
    assert_eq!(r1.to_string(), "Hello");
    assert_eq!(r1.block_count(), 1);
}

#[test]
fn delete_across_blocks_records_one_tombstone_per_block() {
    let mut r1 = FugueText::new("r1".to_string());
    r1.insert(0, "abc").unwrap();
    r1.insert(3, "def").unwrap();
    r1.insert(6, "ghi").unwrap();
    let ids = r1.delete(2, 5).unwrap();
    assert_eq!(ids, vec![id("r1", 3), id("r1", 6), id("r1", 7)]);
    assert_eq!(r1.to_string(), "abhi");
    assert_eq!(r1.len(), 4);
    assert_eq!(
        texts(&r1),
        vec![
            ("r1".to_string(), 2, "ab".to_string(), false),
            ("r1".to_string(), 3, "c".to_string(), true),
            ("r1".to_string(), 6, "def".to_string(), true),
            ("r1".to_string(), 7, "g".to_string(), true),
            ("r1".to_string(), 9, "hi".to_string(), false),
        ]
    );
    assert_eq!(r1.get_node_id_at_position(2).unwrap(), id("r1", 8));
    assert_eq!(r1.get_position_of_node_id(&id("r1", 9)), Some(3));
    assert_eq!(r1.get_position_of_node_id(&id("r1", 5)), None);
}

#[test]
fn deleted_or_unknown_characters_have_no_position() {
    let mut r1 = FugueText::new("r1".to_string());
    r1.insert(0, "Hello").unwrap();
    let x = r1.get_node_id_at_position(1).unwrap();
    r1.delete(1, 1).unwrap();
    assert_eq!(r1.get_position_of_node_id(&x), None);
    assert_eq!(r1.get_position_of_node_id(&id("r1", 99)), None);
    assert_eq!(r1.get_position_of_node_id(&id("other", 1)), None);
    assert_eq!(r1.get_position_of_node_id(&id("r1", 3)), Some(1));
}

#[test]
fn positions_count_grapheme_clusters() {
    let mut r1 = FugueText::new("r1".to_string());
    r1.insert(0, "e\u{301}a").unwrap();
    assert_eq!(r1.len(), 2);
    assert_eq!(r1.clock(), 2);
    assert_eq!(r1.get_node_id_at_position(1).unwrap(), id("r1", 2));
    r1.insert(2, "Z").unwrap();
    r1.insert(0, "\u{1F468}\u{200D}\u{1F469}").unwrap();
    assert_eq!(r1.to_string(), "\u{1F468}\u{200D}\u{1F469}e\u{301}aZ");
    assert_eq!(r1.len(), 4);
    assert_eq!(r1.clock(), 4);
    let ids = r1.delete(1, 1).unwrap();
    assert_eq!(ids, vec![id("r1", 1)]);
    assert_eq!(r1.to_string(), "\u{1F468}\u{200D}\u{1F469}aZ");
    assert_eq!(r1.len(), 3);
    assert_eq!(r1.blocks()[0].text, "e\u{301}");
    assert!(r1.blocks()[0].deleted);
    assert_eq!(r1.blocks()[1].text, "a");
    assert_eq!(r1.get_node_id_at_position(1).unwrap(), id("r1", 2));
    assert_eq!(r1.get_position_of_node_id(&id("r1", 3)), Some(2));
}

#[test]
fn insert_inside_a_block_hangs_left_of_it() {
    let mut r1 = FugueText::new("r1".to_string());
    r1.insert(0, "abcd").unwrap();
    r1.insert(2, "X").unwrap();
    assert_eq!(r1.to_string(), "abXcd");
    let blocks = r1.blocks();
    assert_eq!(blocks[1].left_origin, Some(id("r1", 2)));
    assert_eq!(blocks[1].right_origin, Some(id("r1", 3)));
    assert_eq!(get_document_order(&blocks), vec![1, 0]);
    assert_eq!(r1.get_node_id_at_position(0).unwrap(), id("r1", 5));
    let copy = r1.clone();
    r1.merge(&copy).unwrap();
    assert_eq!(r1.to_string(), "Xabcd");
}

#[test]
fn char_to_byte_gives_the_utf8_offset() {
    let mut r1 = FugueText::new("r1".to_string());
    r1.insert(0, "\u{E9}\u{1F44B}a").unwrap();
    assert_eq!(r1.char_to_byte(0), Ok(0));
    assert_eq!(r1.char_to_byte(1), Ok(2));
    assert_eq!(r1.char_to_byte(2), Ok(6));
    assert_eq!(r1.char_to_byte(3), Ok(7));
    assert_eq!(
        r1.char_to_byte(4),
        Err(TextError::PositionOutOfBounds { position: 4, length: 3 })
    );
}

#[test]
fn empty_insert_never_overwrites_a_block() {
    let mut r1 = FugueText::new("r1".to_string());
    r1.insert(0, "Hello").unwrap();
    r1.delete(0, 5).unwrap();
    let got = r1.insert(0, "").unwrap();
    assert_eq!(got, id("r1", 5));
    assert_eq!(texts(&r1), vec![("r1".to_string(), 5, "Hello".to_string(), true)]);
    assert_eq!(r1.clock(), 5);
}

#[test]
fn try_insert_refuses_a_clock_that_cannot_advance() {
    let block = FugueBlock::new(id("r1", u64::MAX), "ab".to_string(), None, None);
    let mut r1 = FugueText::from_parts(vec![block], u64::MAX, "r1".to_string()).unwrap();
    assert_eq!(r1.to_string(), "ab");
    assert_eq!(r1.try_insert(0, "x"), None);
    assert_eq!(r1.to_string(), "ab");
    assert_eq!(r1.clock(), u64::MAX);
    assert_eq!(r1.try_insert(0, ""), Some(Ok(id("r1", u64::MAX))));
    let mut r2 = FugueText::new("r2".to_string());
    assert_eq!(r2.try_insert(0, "hi"), Some(Ok(id("r2", 2))));
    assert_eq!(
        r2.try_insert(9, "hi"),
        Some(Err(TextError::PositionOutOfBounds { position: 9, length: 2 }))
    );
}

#[test]
fn from_parts_rebuilds_the_engine_and_refuses_a_clock_no_block_reached() {
    let mut r1 = FugueText::new("r1".to_string());
    r1.insert(0, "Hello").unwrap();
    r1.insert(5, " World").unwrap();
    r1.delete(0, 6).unwrap();
    let mut parts = r1.blocks();
    parts.reverse();
    let mut back = FugueText::from_parts(parts, r1.clock(), "r1".to_string()).unwrap();
    assert_eq!(back.to_string(), r1.to_string());
    assert_eq!(back.len(), r1.len());
    assert_eq!(back.clock(), 11);
    assert_eq!(back.client_id(), "r1");
    assert_eq!(texts(&back), texts(&r1));
    assert_eq!(back.get_node_id_at_position(0).unwrap(), id("r1", 7));
    assert!(FugueText::from_parts(r1.blocks(), 12, "r1".to_string()).is_none());
    assert!(FugueText::from_parts(vec![], 1, "r1".to_string()).is_none());
    let empty = FugueText::from_parts(vec![], 0, "r1".to_string()).unwrap();
    assert_eq!(empty.to_string(), "");
}

#[test]
fn merge_is_commutative_associative_and_idempotent_on_stores() {
    let mut a = FugueText::new("a".to_string());
    let mut b = FugueText::new("b".to_string());
    let mut c = FugueText::new("c".to_string());
    a.insert(0, "one").unwrap();
    b.insert(0, "two").unwrap();
    c.insert(0, "three").unwrap();
    b.delete(1, 1).unwrap();

    let mut ab = a.clone();
    ab.merge(&b).unwrap();
    let mut ba = b.clone();
    ba.merge(&a).unwrap();
    assert_eq!(texts(&ab), texts(&ba));
    assert_eq!(ab.to_string(), ba.to_string());

    let mut ab_c = ab.clone();
    ab_c.merge(&c).unwrap();
    let mut bc = b.clone();
    bc.merge(&c).unwrap();
    let mut a_bc = a.clone();
    a_bc.merge(&bc).unwrap();
    assert_eq!(texts(&ab_c), texts(&a_bc));
    assert_eq!(ab_c.to_string(), a_bc.to_string());

    let before = texts(&ab);
    let text = ab.to_string();
    let copy = ab.clone();
    ab.merge(&copy).unwrap();
    assert_eq!(texts(&ab), before);
    assert_eq!(ab.to_string(), text);
}

#[test]
fn merge_from_an_older_remote_keeps_tombstones() {
    let mut a = FugueText::new("a".to_string());
    a.insert(0, "Hello").unwrap();
    let older = a.clone();
    a.delete(0, 5).unwrap();
    a.merge(&older).unwrap();
    assert_eq!(a.to_string(), "");
    assert!(a.blocks()[0].deleted);
    let mut b = older.clone();
    b.merge(&a).unwrap();
    assert_eq!(b.to_string(), "");
    assert!(b.blocks()[0].deleted);
}

#[test]
fn merge_raises_the_clock_and_never_lowers_it() {
    let mut a = FugueText::new("a".to_string());
    let mut b = FugueText::new("b".to_string());
    a.insert(0, "ab").unwrap();
    b.insert(0, "hello").unwrap();
    a.merge(&b).unwrap();
    assert_eq!(a.clock(), 5);
    b.merge(&a).unwrap();
    assert_eq!(b.clock(), 5);
    let fresh = FugueText::new("c".to_string());
    a.merge(&fresh).unwrap();
    assert_eq!(a.clock(), 5);
    let next = a.insert(0, "x").unwrap();
    assert_eq!(next, id("a", 6));
}

#[test]
fn clone_is_independent_of_its_source() {
    let mut a = FugueText::new("a".to_string());
    a.insert(0, "abc").unwrap();
    let copy = a.clone();
    a.insert(3, "def").unwrap();
    assert_eq!(copy.to_string(), "abc");
    assert_eq!(copy.clock(), 3);
    assert_eq!(copy.client_id(), "a");
    assert_eq!(a.to_string(), "abcdef");
}

#[test]
fn split_refuses_offsets_that_are_no_range_in_the_block() {
    let block = FugueBlock::new(id("r1", 5), "Hello".to_string(), None, None);
    let mut blocks = vec![block.clone()];
    let mut ids = Vec::new();
    for (a, b) in [(5usize, 6usize), (2, 6), (3, 3), (4, 2)] {
        let r = split_block_for_deletion(&mut blocks, &block, a, b, &mut ids);
        assert_eq!(
            r,
            Err(TextError::InvalidBlockSplit {
                block_id: id("r1", 5),
                offset_start: a,
                offset_end: b,
                block_len: 5
            })
        );
        assert_eq!(blocks, vec![block.clone()]);
        assert!(ids.is_empty());
    }
}

#[test]
fn split_keeps_origins_and_clocks() {
    let left = Some(id("x", 3));
    let right = Some(id("y", 4));
    let block = FugueBlock::new(id("r1", 15), "abcdefghij".to_string(), left.clone(), right.clone());
    let mut blocks = vec![block.clone()];
    let mut ids = Vec::new();
    split_block_for_deletion(&mut blocks, &block, 2, 5, &mut ids).unwrap();
    assert_eq!(ids, vec![id("r1", 10)]);
    assert_eq!(blocks.len(), 3);
    assert_eq!((blocks[0].id.clone(), blocks[0].text.as_str(), blocks[0].deleted), (id("r1", 7), "ab", false));
    assert_eq!((blocks[1].id.clone(), blocks[1].text.as_str(), blocks[1].deleted), (id("r1", 10), "cde", true));
    assert_eq!((blocks[2].id.clone(), blocks[2].text.as_str(), blocks[2].deleted), (id("r1", 15), "fghij", false));
    for b in &blocks {
        assert_eq!(b.left_origin, left);
        assert_eq!(b.right_origin, right);
    }
    let mut again = Vec::new();
    split_block_for_deletion(&mut blocks, &block, 2, 5, &mut again).unwrap();
    assert_eq!(blocks.len(), 3);
    assert_eq!(again.len(), 1);
    let gone = FugueBlock::new(id("r1", 99), "abc".to_string(), None, None);
    let mut none = Vec::new();
    split_block_for_deletion(&mut blocks, &gone, 0, 1, &mut none).unwrap();
    assert_eq!(blocks.len(), 3);
    assert!(none.is_empty());
}

#[test]
fn store_keeps_identifier_order_and_never_replaces() {
    let mut blocks: Vec<FugueBlock> = Vec::new();
    absorb(&mut blocks, FugueBlock::new(id("b", 2), "two".to_string(), None, None));
    absorb(&mut blocks, FugueBlock::new(id("a", 2), "one".to_string(), None, None));
    absorb(&mut blocks, FugueBlock::new(id("z", 1), "zero".to_string(), None, None));
    absorb(&mut blocks, FugueBlock::new(id("a", 2), "other".to_string(), None, None));
    let order: Vec<&str> = blocks.iter().map(|b| b.text.as_str()).collect();
    assert_eq!(order, vec!["zero", "one", "two"]);
    assert_eq!(find_slot(&blocks, &id("a", 2)), 1);
    assert_eq!(find_slot(&blocks, &id("a", 3)), 3);
    assert_eq!(find_slot(&blocks, &id("a", 0)), 0);
    let mut dead = FugueBlock::new(id("b", 2), "ignored".to_string(), None, None);
    dead.mark_deleted();
    absorb(&mut blocks, dead);
    assert!(blocks[2].deleted);
    assert_eq!(blocks[2].text, "two");
    tombstone_block(&mut blocks, &id("z", 1));
    assert!(blocks[0].deleted);
    tombstone_block(&mut blocks, &id("q", 1));
    remove_block(&mut blocks, &id("a", 2));
    remove_block(&mut blocks, &id("a", 2));
    assert_eq!(blocks.len(), 2);
}

#[test]
fn characters_resolve_to_the_block_that_owns_their_clock() {
    let blocks = vec![
        FugueBlock::new(id("a", 3), "abc".to_string(), None, None),
        FugueBlock::new(id("b", 3), "xyz".to_string(), None, None),
        FugueBlock::new(id("a", 5), "de".to_string(), None, None),
        FugueBlock::new(id("a", 6), "".to_string(), None, None),
    ];
    assert_eq!(find_block_for_nodeid(&blocks, &id("a", 1)), Some(0));
    assert_eq!(find_block_for_nodeid(&blocks, &id("a", 3)), Some(0));
    assert_eq!(find_block_for_nodeid(&blocks, &id("a", 4)), Some(2));
    assert_eq!(find_block_for_nodeid(&blocks, &id("b", 2)), Some(1));
    assert_eq!(find_block_for_nodeid(&blocks, &id("a", 6)), None);
    assert_eq!(find_block_for_nodeid(&blocks, &id("a", 0)), None);
    assert_eq!(find_block_for_nodeid(&blocks, &id("c", 1)), None);
}

#[test]
fn document_order_follows_the_fugue_rule() {
    let mut blocks: Vec<FugueBlock> = Vec::new();
    absorb(&mut blocks, FugueBlock::new(id("a", 1), "A".to_string(), None, None));
    absorb(&mut blocks, FugueBlock::new(id("a", 2), "C".to_string(), Some(id("a", 1)), None));
    absorb(
        &mut blocks,
        FugueBlock::new(id("a", 3), "B".to_string(), Some(id("a", 1)), Some(id("a", 2))),
    );
    absorb(&mut blocks, FugueBlock::new(id("b", 1), "Z".to_string(), None, None));
    assert_eq!(get_document_order(&blocks), vec![0, 3, 2, 1]);
    tombstone_block(&mut blocks, &id("a", 2));
    assert_eq!(get_document_order(&blocks), vec![0, 3, 1]);
}

#[test]
fn lamport_clock_tick_by_allocates_a_range() {
    let mut clock = LamportClock::new();
    assert_eq!(clock.tick_by(5), 5);
    assert_eq!(clock.value(), 5);
    assert_eq!(clock.tick_by(0), 5);
    clock.update(3);
    assert_eq!(clock.value(), 5);
    assert_eq!(LamportClock::default().value(), 0);
}

#[test]
fn errors_are_written_out() {
    assert_eq!(
        TextError::PositionOutOfBounds { position: 10, length: 0 }.to_string(),
        "Position 10 out of bounds (length: 0)"
    );
    assert_eq!(
        TextError::RangeOutOfBounds { start: 3, end: 7, length: 5 }.to_string(),
        "Range 3..7 out of bounds (length: 5)"
    );
    assert_eq!(TextError::BlockNotFound(id("c", 4)).to_string(), "Block not found: c@4:0");
    assert_eq!(
        TextError::BlockSplitRequired.to_string(),
        "Block splitting not implemented in Phase 1"
    );
    assert_eq!(
        TextError::InvalidBlockSplit {
            block_id: id("c", 15),
            offset_start: 6,
            offset_end: 20,
            block_len: 15
        }
        .to_string(),
        "Invalid block split: block c@15:0 (length 15) cannot be split at 6..20"
    );
    assert_eq!(TextError::RopeError("bad".to_string()).to_string(), "Rope error: bad");
    let e = TextError::BlockNotFound(id("c", 4));
    assert_eq!(e.clone(), e);
}

#[test]
fn length_is_the_grapheme_count_of_the_text() {
    let mut r1 = FugueText::new("r1".to_string());
    let pieces = ["e\u{301}", "\u{1F1F7}\u{1F1FA}", "abc", "\u{1F468}\u{200D}\u{1F469}", "\r\n"];
    for piece in pieces {
        let at = r1.len();
        r1.insert(at, piece).unwrap();
        assert_eq!(r1.len(), r1.to_string().graphemes(true).count());
    }
    assert_eq!(r1.len(), 7);
    assert_eq!(r1.clock(), 7);
    r1.delete(1, 2).unwrap();
    assert_eq!(r1.len(), r1.to_string().graphemes(true).count());
    assert_eq!(r1.to_string(), "e\u{301}bc\u{1F468}\u{200D}\u{1F469}\r\n");
}

#[test]
fn three_replicas_converge_whatever_the_merge_order() {
    let mut a = FugueText::new("a".to_string());
    let mut b = FugueText::new("b".to_string());
    let mut c = FugueText::new("c".to_string());
    a.insert(0, "x").unwrap();
    b.insert(0, "y").unwrap();
    c.insert(0, "z").unwrap();
    let mut abc = a.clone();
    abc.merge(&b).unwrap();
    abc.merge(&c).unwrap();
    let mut cba = c.clone();
    cba.merge(&b).unwrap();
    cba.merge(&a).unwrap();
    let mut bca = b.clone();
    bca.merge(&c).unwrap();
    bca.merge(&a).unwrap();
    assert_eq!(abc.to_string(), "xyz");
    assert_eq!(cba.to_string(), "xyz");
    assert_eq!(bca.to_string(), "xyz");
    assert_eq!(texts(&abc), texts(&cba));
    assert_eq!(texts(&abc), texts(&bca));
}
