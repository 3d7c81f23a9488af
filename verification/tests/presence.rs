use serde_json::Value;
use synckit_core::awareness::{Awareness, AwarenessUpdate, DEFAULT_TIMEOUT, HEARTBEAT_INTERVAL};

fn object(pairs: &[(&str, &str)]) -> Value {
    let mut map = serde_json::Map::new();
    for (k, v) in pairs {
        map.insert(k.to_string(), Value::String(v.to_string()));
    }
    Value::Object(map)
}

#[test]
fn test_awareness_creation() {
    let awareness = Awareness::new("client-1".to_string());
    assert_eq!(awareness.client_id(), "client-1");
    assert!(awareness.get_states().is_empty());
}

#[test]
fn test_set_local_state() {
    let mut awareness = Awareness::new("client-1".to_string());

    let state = object(&[("name", "Alice"), ("color", "#FF0000")]);

    let update = awareness.set_local_state(state.clone(), 0);

    assert_eq!(update.client_id, "client-1");
    assert_eq!(update.state, Some(state));
    assert_eq!(update.clock, 1);
    assert_eq!(awareness.client_count(), 1);
}

#[test]
fn test_apply_remote_update() {
    let mut awareness = Awareness::new("client-1".to_string());

    let update = AwarenessUpdate {
        client_id: "client-2".to_string(),
        state: Some(object(&[("name", "Bob")])),
        clock: 5,
    };

    awareness.apply_update(update, 0);

    assert_eq!(awareness.client_count(), 1);
    assert!(awareness.get_state("client-2").is_some());
}

#[test]
fn test_clock_monotonicity() {
    let mut awareness = Awareness::new("client-1".to_string());

    let update = AwarenessUpdate {
        client_id: "client-2".to_string(),
        state: Some(object(&[])),
        clock: 100,
    };
    awareness.apply_update(update, 0);

    let local_update = awareness.set_local_state(object(&[]), 0);
    assert!(local_update.clock > 100);
}

#[test]
fn test_client_leaving() {
    let mut awareness = Awareness::new("client-1".to_string());

    awareness.apply_update(
        AwarenessUpdate {
            client_id: "client-2".to_string(),
            state: Some(object(&[("name", "Bob")])),
            clock: 1,
        },
        0,
    );
    assert_eq!(awareness.client_count(), 1);

    awareness.apply_update(
        AwarenessUpdate { client_id: "client-2".to_string(), state: None, clock: 2 },
        0,
    );
    assert_eq!(awareness.client_count(), 0);
}

#[test]
fn test_other_client_count() {
    let mut awareness = Awareness::new("client-1".to_string());

    awareness.set_local_state(object(&[]), 0);
    assert_eq!(awareness.other_client_count(), 0);

    awareness.apply_update(
        AwarenessUpdate {
            client_id: "client-2".to_string(),
            state: Some(object(&[])),
            clock: 1,
        },
        0,
    );
    assert_eq!(awareness.other_client_count(), 1);
}

#[test]
fn an_older_update_does_not_replace_a_newer_state() {
    let mut awareness = Awareness::new("me".to_string());
    awareness.apply_update(
        AwarenessUpdate {
            client_id: "bob".to_string(),
            state: Some(object(&[("v", "new")])),
            clock: 5,
        },
        10,
    );
    awareness.apply_update(
        AwarenessUpdate {
            client_id: "bob".to_string(),
            state: Some(object(&[("v", "old")])),
            clock: 5,
        },
        20,
    );
    let bob = awareness.get_state("bob").unwrap();
    assert_eq!(bob.state, object(&[("v", "new")]));
    assert_eq!(bob.clock, 5);
    assert_eq!(bob.last_updated, Some(10));
    awareness.apply_update(
        AwarenessUpdate {
            client_id: "bob".to_string(),
            state: Some(object(&[("v", "newer")])),
            clock: 6,
        },
        30,
    );
    let bob = awareness.get_state("bob").unwrap();
    assert_eq!(bob.state, object(&[("v", "newer")]));
    assert_eq!(bob.last_updated, Some(30));
    assert_eq!(awareness.client_count(), 1);
    assert!(awareness.get_state("carol").is_none());
    assert!(awareness.get_local_state().is_none());
}

#[test]
fn stale_clients_are_removed_and_named() {
    let mut awareness = Awareness::new("me".to_string());
    awareness.set_local_state(object(&[]), 1000);
    for (name, at) in [("a", 0u64), ("b", 500), ("c", 1000)] {
        awareness.apply_update(
            AwarenessUpdate { client_id: name.to_string(), state: Some(object(&[])), clock: 1 },
            at,
        );
    }
    assert_eq!(awareness.other_client_count(), 3);
    let removed = awareness.remove_stale_clients(1000, 499);
    assert_eq!(removed, vec!["a".to_string(), "b".to_string()]);
    assert_eq!(awareness.client_count(), 2);
    assert!(awareness.get_local_state().is_some());
    assert!(awareness.get_state("c").is_some());
    let removed = awareness.remove_stale_clients(1500, 500);
    assert!(removed.is_empty());
    let removed = awareness.remove_stale_clients(0, 0);
    assert!(removed.is_empty());
    assert_eq!(DEFAULT_TIMEOUT, 30000);
    assert_eq!(HEARTBEAT_INTERVAL, 10000);
}

#[test]
fn leave_update_carries_the_next_clock_and_no_state() {
    let mut awareness = Awareness::new("me".to_string());
    let first = awareness.set_local_state(object(&[("a", "b")]), 0);
    let leave = awareness.create_leave_update();
    assert_eq!(first.clock, 1);
    assert_eq!(leave.clock, 2);
    assert_eq!(leave.client_id, "me");
    assert_eq!(leave.state, None);
    assert_eq!(awareness.client_count(), 1);
    let local = awareness.get_local_state().unwrap();
    assert_eq!(local.state, object(&[("a", "b")]));
    assert_eq!(local.clock, 1);
}
