use turbovpb::identity::Identity;
use turbovpb::registry::{ConnectError, InjectError, Registry};

fn id(s: &str) -> String {
    s.to_string()
}

#[test]
fn connection_count_follows_sessions() {
    let mut r = Registry::new();
    let x = id("x");
    assert_eq!(r.connection_count(&x), None);
    let a = r.connect(&x, Identity::Extension, 100).unwrap().membership;
    assert_eq!(r.connection_count(&x), Some(1));
    let b = r.connect(&x, Identity::Browser, 110).unwrap().membership;
    assert_eq!(r.connection_count(&x), Some(2));
    assert_eq!(r.disconnect(b, 120), None);
    assert_eq!(r.connection_count(&x), Some(1));
    assert!(r.contains(&x));
    assert_eq!(r.disconnect(a, 150), Some(50));
    assert_eq!(r.connection_count(&x), None);
    assert!(!r.contains(&x));
}

#[test]
fn tickets_are_unique() {
    let mut r = Registry::new();
    let a = r.connect(&id("x"), Identity::Extension, 0).unwrap().membership;
    let b = r.connect(&id("y"), Identity::Extension, 0).unwrap().membership;
    assert_ne!(a.ticket, b.ticket);
    assert_eq!(a.channel_id, "x");
    assert_eq!(b.channel_id, "y");
}

#[test]
fn channel_ids_are_case_sensitive() {
    let mut r = Registry::new();
    r.connect(&id("Room"), Identity::Extension, 0).unwrap();
    assert!(r.contains(&id("Room")));
    assert!(!r.contains(&id("room")));
}

#[test]
fn message_reaches_counterpart_unchanged() {
    let mut r = Registry::new();
    let x = id("x");
    let a = r.connect(&x, Identity::Extension, 0).unwrap().membership;
    let b = r.connect(&x, Identity::Browser, 0).unwrap().membership;
    assert_eq!(r.poll(&b), None);
    let payload = vec![0u8, 255, 7, 42];
    assert!(r.send(&a, payload.clone()));
    assert_eq!(r.poll(&b), Some(payload));
    assert_eq!(r.poll(&b), None);
}

#[test]
fn browser_messages_reach_extension() {
    let mut r = Registry::new();
    let x = id("x");
    let a = r.connect(&x, Identity::Extension, 0).unwrap().membership;
    let b = r.connect(&x, Identity::Browser, 0).unwrap().membership;
    assert!(r.send(&b, b"from browser".to_vec()));
    assert_eq!(r.poll(&a), Some(b"from browser".to_vec()));
    // A browser's message is not cached.
    assert_eq!(r.cached_message(&x), None);
}

#[test]
fn sender_does_not_see_its_own_message() {
    let mut r = Registry::new();
    let x = id("x");
    let a = r.connect(&x, Identity::Extension, 0).unwrap().membership;
    let _b = r.connect(&x, Identity::Browser, 0).unwrap().membership;
    r.send(&a, vec![1]);
    assert_eq!(r.poll(&a), None);
}

#[test]
fn newest_message_supersedes_unread_one() {
    let mut r = Registry::new();
    let x = id("x");
    let a = r.connect(&x, Identity::Extension, 0).unwrap().membership;
    let b = r.connect(&x, Identity::Browser, 0).unwrap().membership;
    r.send(&a, b"m1".to_vec());
    r.send(&a, b"m2".to_vec());
    assert_eq!(r.poll(&b), Some(b"m2".to_vec()));
    assert_eq!(r.poll(&b), None);
    r.send(&a, b"m3".to_vec());
    assert_eq!(r.poll(&b), Some(b"m3".to_vec()));
}

#[test]
fn late_consumer_replays_only_latest() {
    let mut r = Registry::new();
    let x = id("x");
    let a = r.connect(&x, Identity::Extension, 0).unwrap().membership;
    assert!(!r.send(&a, b"m1".to_vec()));
    assert!(!r.send(&a, b"m2".to_vec()));
    assert_eq!(r.cached_message(&x), Some(b"m2".to_vec()));
    let joined = r.connect(&x, Identity::Browser, 5).unwrap();
    assert_eq!(joined.replay, Some(b"m2".to_vec()));
    let b = joined.membership;
    assert_eq!(r.poll(&b), None);
}

#[test]
fn producer_gets_no_replay() {
    let mut r = Registry::new();
    let x = id("x");
    let a = r.connect(&x, Identity::Extension, 0).unwrap().membership;
    r.send(&a, b"m".to_vec());
    let second = r.connect(&x, Identity::Extension, 0).unwrap();
    assert_eq!(second.replay, None);
}

#[test]
fn consumer_gets_no_replay_without_cache() {
    let mut r = Registry::new();
    let joined = r.connect(&id("x"), Identity::Browser, 0).unwrap();
    assert_eq!(joined.replay, None);
}

#[test]
fn delete_of_missing_channel_succeeds() {
    let mut r = Registry::new();
    assert!(!r.delete(&id("nothing")));
    r.connect(&id("x"), Identity::Extension, 0).unwrap();
    assert!(r.delete(&id("x")));
    assert!(!r.delete(&id("x")));
    assert!(!r.contains(&id("x")));
}

#[test]
fn cleanup_after_delete_is_harmless() {
    let mut r = Registry::new();
    let x = id("x");
    let a = r.connect(&x, Identity::Extension, 0).unwrap().membership;
    assert!(r.delete(&x));
    assert_eq!(r.disconnect(a, 10), Some(10));
    assert!(!r.contains(&x));
}

#[test]
fn stale_session_leaves_new_channel_alone() {
    let mut r = Registry::new();
    let x = id("x");
    let old = r.connect(&x, Identity::Extension, 0).unwrap().membership;
    assert!(r.delete(&x));
    let fresh = r.connect(&x, Identity::Browser, 20).unwrap().membership;
    assert_ne!(old.generation, fresh.generation);
    assert_eq!(r.disconnect(old, 30), Some(30));
    assert_eq!(r.connection_count(&x), Some(1));
    assert_eq!(r.disconnect(fresh, 50), Some(30));
}

#[test]
fn deleted_channel_does_not_reach_new_one() {
    let mut r = Registry::new();
    let x = id("x");
    let old = r.connect(&x, Identity::Extension, 0).unwrap().membership;
    r.delete(&x);
    let b = r.connect(&x, Identity::Browser, 0).unwrap().membership;
    assert!(!r.send(&old, b"late".to_vec()));
    assert_eq!(r.poll(&b), None);
    assert_eq!(r.cached_message(&x), None);
}

#[test]
fn inject_into_unknown_channel_is_not_found() {
    let mut r = Registry::new();
    assert_eq!(r.inject(&id("x"), Identity::Extension, b"hi".to_vec()), Err(InjectError::NotFound));
    assert!(!r.contains(&id("x")));
}

#[test]
fn inject_without_subscriber_is_dropped() {
    let mut r = Registry::new();
    let x = id("x");
    let _a = r.connect(&x, Identity::Extension, 0).unwrap().membership;
    assert_eq!(r.inject(&x, Identity::Extension, b"lost".to_vec()), Ok(()));
    assert_eq!(r.connection_count(&x), Some(1));
    let joined = r.connect(&x, Identity::Browser, 0).unwrap();
    assert_eq!(joined.replay, None);
    let b = joined.membership;
    assert_eq!(r.poll(&b), None);
}

#[test]
fn inject_reaches_counterpart_without_joining() {
    let mut r = Registry::new();
    let x = id("x");
    let b = r.connect(&x, Identity::Browser, 0).unwrap().membership;
    assert_eq!(r.inject(&x, Identity::Extension, b"posted".to_vec()), Ok(()));
    assert_eq!(r.connection_count(&x), Some(1));
    assert_eq!(r.poll(&b), Some(b"posted".to_vec()));
    // Injection never fills the cache.
    assert_eq!(r.cached_message(&x), None);
}

#[test]
fn end_to_end_relay() {
    let mut r = Registry::new();
    let x = id("x");
    let a = r.connect(&x, Identity::Extension, 0).unwrap().membership;
    let b = r.connect(&x, Identity::Browser, 0).unwrap().membership;
    assert!(r.send(&a, b"hello".to_vec()));
    assert_eq!(r.poll(&b), Some(b"hello".to_vec()));
    assert_eq!(r.disconnect(b, 10), None);
    assert_eq!(r.connection_count(&x), Some(1));
    assert!(!r.send(&a, b"again".to_vec()));
    assert_eq!(r.disconnect(a, 20), Some(20));
    assert!(!r.contains(&x));
    let joined = r.connect(&x, Identity::Browser, 30).unwrap();
    assert_eq!(joined.replay, None);
    assert_eq!(r.cached_message(&x), None);
    assert_eq!(r.connection_count(&x), Some(1));
}

#[test]
fn connect_error_is_exhaustion_only() {
    let e = ConnectError::Exhausted;
    assert_eq!(e, ConnectError::Exhausted);
}

#[test]
fn interleaved_sends_arrive_in_order() {
    let mut r = Registry::new();
    let x = id("x");
    let a = r.connect(&x, Identity::Extension, 0).unwrap().membership;
    let b = r.connect(&x, Identity::Browser, 0).unwrap().membership;
    let mut got = Vec::new();
    for i in 0u8..10 {
        r.send(&a, vec![i]);
        if i % 3 == 0 {
            r.send(&a, vec![i, i]);
        }
        if let Some(m) = r.poll(&b) {
            got.push(m);
        }
    }
    r.send(&a, vec![99]);
    while let Some(m) = r.poll(&b) {
        got.push(m);
    }
    let expected: Vec<Vec<u8>> = (0u8..10)
        .map(|i| if i % 3 == 0 { vec![i, i] } else { vec![i] })
        .chain(std::iter::once(vec![99]))
        .collect();
    assert_eq!(got, expected);
}

#[test]
fn delete_keeps_sessions_talking() {
    let mut r = Registry::new();
    let x = id("x");
    let a = r.connect(&x, Identity::Extension, 0).unwrap().membership;
    let b = r.connect(&x, Identity::Browser, 0).unwrap().membership;
    assert!(r.delete(&x));
    assert!(!r.contains(&x));
    assert_eq!(r.connection_count(&x), None);
    assert_eq!(r.inject(&x, Identity::Extension, b"posted".to_vec()), Err(InjectError::NotFound));
    assert!(r.send(&a, b"hello".to_vec()));
    assert_eq!(r.poll(&b), Some(b"hello".to_vec()));
    assert!(r.send(&b, b"back".to_vec()));
    assert_eq!(r.poll(&a), Some(b"back".to_vec()));
    assert_eq!(r.disconnect(b, 5), None);
    assert_eq!(r.disconnect(a, 9), Some(9));
    assert!(!r.contains(&x));
}

#[test]
fn delete_then_reconnect_opens_fresh_channel() {
    let mut r = Registry::new();
    let x = id("x");
    let a = r.connect(&x, Identity::Extension, 0).unwrap().membership;
    r.send(&a, b"old state".to_vec());
    r.delete(&x);
    let joined = r.connect(&x, Identity::Browser, 1).unwrap();
    assert_eq!(joined.replay, None);
    assert_eq!(r.connection_count(&x), Some(1));
    // The old channel's last session leaving does not take the id away.
    assert_eq!(r.disconnect(a, 2), Some(2));
    assert!(r.contains(&x));
    assert_eq!(r.connection_count(&x), Some(1));
}
