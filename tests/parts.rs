use turbovpb::channel::ChannelState;
use turbovpb::identity::Identity;
use turbovpb::stats::{CallEvent, CallRecord, EventRecord, StatsBatch};
use turbovpb::topic::Topic;

#[test]
fn identity_names() {
    assert_eq!(Identity::Extension.as_str(), "extension");
    assert_eq!(Identity::Browser.as_str(), "browser");
    assert_eq!(Identity::Extension.counterpart(), Identity::Browser);
    assert_eq!(Identity::Browser.counterpart(), Identity::Extension);
    assert!(Identity::Extension.is_producer());
    assert!(Identity::Browser.is_cache_consumer());
    assert!(!Identity::Browser.is_producer());
}

#[test]
fn topic_without_subscriber_drops() {
    let mut t = Topic::new();
    assert!(!t.publish(vec![1]));
    t.subscribe(1);
    assert_eq!(t.poll(1), None);
}

#[test]
fn topic_sees_only_later_values() {
    let mut t = Topic::new();
    t.subscribe(1);
    assert!(t.publish(vec![1]));
    t.subscribe(2);
    assert_eq!(t.poll(2), None);
    assert_eq!(t.poll(1), Some(vec![1]));
    assert!(t.publish(vec![2]));
    assert!(t.publish(vec![3]));
    assert_eq!(t.poll(1), Some(vec![3]));
    assert_eq!(t.poll(2), Some(vec![3]));
    assert_eq!(t.poll(1), None);
    assert_eq!(t.poll(2), None);
}

#[test]
fn topic_unsubscribe() {
    let mut t = Topic::new();
    t.subscribe(4);
    t.subscribe(5);
    assert_eq!(t.subscriber_count(), 2);
    assert!(t.publish(vec![8]));
    assert!(t.unsubscribe(4));
    assert!(!t.unsubscribe(4));
    assert!(!t.is_subscribed(4));
    assert!(t.is_subscribed(5));
    assert_eq!(t.subscriber_count(), 1);
    assert_eq!(t.poll(4), None);
    assert_eq!(t.poll(5), Some(vec![8]));
    assert!(t.unsubscribe(5));
    assert!(!t.publish(vec![1]));
}

#[test]
fn unknown_ticket_gets_nothing() {
    let mut t = Topic::new();
    t.subscribe(1);
    t.publish(vec![7]);
    assert_eq!(t.poll(9), None);
    assert_eq!(t.poll(1), Some(vec![7]));
}

#[test]
fn channel_state_copy() {
    let mut c = ChannelState::new("room".to_string(), 42);
    c.join(Identity::Browser, 3);
    assert!(c.send_from(Identity::Extension, vec![5, 6]));
    let d = c.duplicate();
    assert_eq!(d.created_at(), 42);
    assert_eq!(d.name(), "room");
    assert_eq!(d.cached(), Some(vec![5, 6]));
    assert_eq!(d.connections(), 1);
    assert!(d.has_session(Identity::Browser, 3));
    assert!(!d.has_session(Identity::Extension, 3));
}

#[test]
fn stats_batch_takes_everything() {
    let mut b = StatsBatch::new();
    assert!(b.is_empty());
    b.record_call(CallEvent {
        call: CallRecord { duration: 30, result: Some("answered".to_string()) },
        record: EventRecord { session_id: "s1".to_string(), timestamp_nanos: 1 },
    });
    b.record_text(EventRecord { session_id: "s1".to_string(), timestamp_nanos: 2 });
    b.record_text(EventRecord { session_id: "s2".to_string(), timestamp_nanos: 3 });
    assert!(!b.is_empty());
    let taken = b.take();
    assert!(b.is_empty());
    assert_eq!(taken.calls.len(), 1);
    assert_eq!(taken.texts.len(), 2);
    assert_eq!(taken.calls[0].call.duration, 30);
    assert_eq!(taken.texts[1].session_id, "s2");
}
