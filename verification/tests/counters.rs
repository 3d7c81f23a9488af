use synckit_core::crdt::pn_counter::CounterEntry;
use synckit_core::crdt::PNCounter;

#[test]
fn test_counter_creation() {
    let counter = PNCounter::new("replica1".to_string());
    assert_eq!(counter.value(), 0);
    assert_eq!(counter.replica_id(), "replica1");
}

#[test]
fn test_increment() {
    let mut counter = PNCounter::new("replica1".to_string());
    counter.increment(5);
    assert_eq!(counter.value(), 5);

    counter.increment(3);
    assert_eq!(counter.value(), 8);
}

#[test]
fn test_decrement() {
    let mut counter = PNCounter::new("replica1".to_string());
    counter.increment(10);
    counter.decrement(3);
    assert_eq!(counter.value(), 7);
}

#[test]
fn test_negative_value() {
    let mut counter = PNCounter::new("replica1".to_string());
    counter.decrement(5);
    assert_eq!(counter.value(), -5);
}

#[test]
fn test_merge_same_replica() {
    let mut counter1 = PNCounter::new("replica1".to_string());
    let mut counter2 = PNCounter::new("replica1".to_string());

    counter1.increment(5);
    counter2.increment(3);

    counter1.merge(&counter2);

    assert_eq!(counter1.value(), 5);
}

#[test]
fn test_merge_different_replicas() {
    let mut counter1 = PNCounter::new("replica1".to_string());
    let mut counter2 = PNCounter::new("replica2".to_string());

    counter1.increment(5);
    counter2.increment(3);

    counter1.merge(&counter2);

    assert_eq!(counter1.value(), 8);
}

#[test]
fn test_merge_with_decrements() {
    let mut counter1 = PNCounter::new("replica1".to_string());
    let mut counter2 = PNCounter::new("replica2".to_string());

    counter1.increment(10);
    counter1.decrement(2);

    counter2.increment(5);
    counter2.decrement(3);

    counter1.merge(&counter2);

    assert_eq!(counter1.value(), 10);
}

#[test]
fn test_merge_idempotence() {
    let mut counter1 = PNCounter::new("replica1".to_string());
    let counter2 = PNCounter::new("replica2".to_string());

    counter1.increment(5);

    counter1.merge(&counter2);
    let value1 = counter1.value();

    counter1.merge(&counter2);
    let value2 = counter1.value();

    assert_eq!(value1, value2);
}

#[test]
fn test_merge_commutativity() {
    let mut counter1a = PNCounter::new("replica1".to_string());
    let mut counter1b = counter1a.clone();
    let counter2 = {
        let mut c = PNCounter::new("replica2".to_string());
        c.increment(5);
        c
    };
    let counter3 = {
        let mut c = PNCounter::new("replica3".to_string());
        c.increment(3);
        c
    };

    counter1a.merge(&counter2);
    counter1a.merge(&counter3);

    counter1b.merge(&counter3);
    counter1b.merge(&counter2);

    assert_eq!(counter1a.value(), counter1b.value());
}

#[test]
fn test_reset() {
    let mut counter = PNCounter::new("replica1".to_string());
    counter.increment(10);
    counter.decrement(3);

    assert_eq!(counter.value(), 7);

    counter.reset();
    assert_eq!(counter.value(), 0);
}

#[test]
fn merge_takes_the_larger_count_per_replica_both_ways() {
    let mut a = PNCounter::new("a".to_string());
    let mut b = PNCounter::new("b".to_string());
    a.increment(4);
    a.decrement(1);
    b.increment(7);
    b.decrement(9);
    let mut ab = a.clone();
    ab.merge(&b);
    let mut ba = b.clone();
    ba.merge(&a);
    assert_eq!(ab.value(), 1);
    assert_eq!(ba.value(), 1);
    ab.merge(&ba);
    assert_eq!(ab.value(), 1);
    assert_eq!(ab.replica_id(), "a");
    assert_eq!(ba.replica_id(), "b");
}

#[test]
fn reset_after_merge_forgets_the_other_replicas() {
    let mut a = PNCounter::new("a".to_string());
    let mut b = PNCounter::new("b".to_string());
    b.increment(3);
    a.merge(&b);
    assert_eq!(a.value(), 3);
    a.reset();
    assert_eq!(a.value(), 0);
    a.increment(2);
    assert_eq!(a.value(), 2);
}

#[test]
fn parts_round_trip_and_negative_counts_are_refused() {
    let mut a = PNCounter::new("a".to_string());
    a.increment(4);
    a.decrement(1);
    let positive: Vec<CounterEntry> = a
        .positive_counts()
        .iter()
        .map(|e| CounterEntry { replica: e.replica.clone(), count: e.count })
        .collect();
    let negative: Vec<CounterEntry> = a
        .negative_counts()
        .iter()
        .map(|e| CounterEntry { replica: e.replica.clone(), count: e.count })
        .collect();
    assert_eq!(positive.len(), 1);
    assert_eq!(positive[0].count, 4);
    let back = PNCounter::from_parts("a".to_string(), positive, negative).unwrap();
    assert_eq!(back.value(), 3);
    let bad = vec![CounterEntry { replica: "a".to_string(), count: -1 }];
    assert!(PNCounter::from_parts("a".to_string(), bad, vec![]).is_none());
}
