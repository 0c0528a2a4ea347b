use turbovpb::identity::Identity;
use turbovpb::session::{Action, Event, Frame, Phase, Session, INACTIVITY_TIMEOUT_MS, KEEPALIVE_INTERVAL_MS};

fn active(role: Identity, now: u64) -> Session {
    let mut s = Session::new(role);
    assert_eq!(s.activate(None, now), Action::Wait);
    s
}

#[test]
fn replay_is_sent_first() {
    let mut s = Session::new(Identity::Browser);
    assert_eq!(s.phase, Phase::Connecting);
    assert_eq!(s.activate(Some(b"cached".to_vec()), 7), Action::Send(Frame::Binary(b"cached".to_vec())));
    assert_eq!(s.phase, Phase::Active);
    assert_eq!(s.last_activity, 7);
    assert_eq!(s.last_outbound, 7);
}

#[test]
fn activation_happens_once() {
    let mut s = active(Identity::Browser, 0);
    assert_eq!(s.activate(Some(vec![1]), 5), Action::Wait);
    assert_eq!(s.last_activity, 0);
}

#[test]
fn ping_is_answered_with_one_pong() {
    let mut s = active(Identity::Extension, 0);
    let a = s.step(Event::Inbound(Frame::Ping(b"p".to_vec())), 100);
    assert_eq!(a, Action::Send(Frame::Pong(Vec::new())));
    assert_eq!(s.phase, Phase::Active);
    assert_eq!(s.last_activity, 100);
}

#[test]
fn binary_is_published() {
    let mut s = active(Identity::Extension, 0);
    assert_eq!(s.step(Event::Inbound(Frame::Binary(vec![9, 8])), 3), Action::Publish(vec![9, 8]));
    assert_eq!(s.last_activity, 3);
    assert_eq!(s.last_outbound, 3);
}

#[test]
fn text_is_published_as_bytes() {
    let mut s = active(Identity::Browser, 0);
    assert_eq!(s.step(Event::Inbound(Frame::Text("héllo".to_string())), 3), Action::Publish("héllo".as_bytes().to_vec()));
}

#[test]
fn subscription_message_is_forwarded() {
    let mut s = active(Identity::Browser, 0);
    assert_eq!(s.step(Event::Outbound(b"hello".to_vec()), 9), Action::Send(Frame::Binary(b"hello".to_vec())));
    assert_eq!(s.last_activity, 9);
}

#[test]
fn close_frame_ends_the_session() {
    let mut s = active(Identity::Browser, 0);
    assert_eq!(s.step(Event::Inbound(Frame::Close), 1), Action::Close);
    assert_eq!(s.phase, Phase::Closed);
}

#[test]
fn pong_is_neither_forwarded_nor_traffic() {
    let mut s = active(Identity::Browser, 0);
    assert_eq!(s.step(Event::Inbound(Frame::Pong(b"p".to_vec())), 500), Action::Wait);
    assert_eq!(s.phase, Phase::Active);
    assert_eq!(s.last_activity, 0);
    assert_eq!(s.step(Event::Tick, INACTIVITY_TIMEOUT_MS + 1), Action::Close);
}

#[test]
fn failures_end_the_session() {
    let mut s = active(Identity::Browser, 0);
    assert_eq!(s.step(Event::SendFailed, 1), Action::Close);
    let mut t = active(Identity::Browser, 0);
    assert_eq!(t.step(Event::InboundFailed, 1), Action::Close);
}

#[test]
fn closed_session_ignores_events() {
    let mut s = active(Identity::Browser, 0);
    s.step(Event::InboundFailed, 1);
    assert_eq!(s.step(Event::Outbound(vec![1]), 2), Action::Wait);
    assert_eq!(s.phase, Phase::Closed);
}

#[test]
fn idle_session_times_out() {
    let mut s = active(Identity::Browser, 1_000);
    assert_eq!(s.step(Event::Tick, 1_000 + INACTIVITY_TIMEOUT_MS + 1), Action::Close);
    assert_eq!(s.phase, Phase::Closed);
}

#[test]
fn session_at_window_edge_is_not_timed_out() {
    let mut s = active(Identity::Browser, 1_000);
    assert_eq!(s.step(Event::Tick, 1_000 + INACTIVITY_TIMEOUT_MS), Action::Send(Frame::Ping(Vec::new())));
    assert_eq!(s.phase, Phase::Active);
}

#[test]
fn ping_only_when_quiet() {
    let mut s = active(Identity::Browser, 0);
    assert_eq!(s.step(Event::Tick, KEEPALIVE_INTERVAL_MS - 1), Action::Wait);
    assert_eq!(s.step(Event::Tick, KEEPALIVE_INTERVAL_MS), Action::Send(Frame::Ping(Vec::new())));
    assert_eq!(s.last_outbound, KEEPALIVE_INTERVAL_MS);
    // The ping does not count as traffic for the inactivity window.
    assert_eq!(s.last_activity, 0);
}

#[test]
fn busy_session_never_times_out() {
    let mut s = active(Identity::Extension, 0);
    let mut now: u64 = 0;
    for _ in 0..200 {
        now += KEEPALIVE_INTERVAL_MS - 1;
        assert_eq!(s.step(Event::Tick, now), Action::Wait);
        assert_eq!(s.step(Event::Inbound(Frame::Binary(vec![1])), now), Action::Publish(vec![1]));
    }
    assert!(now > INACTIVITY_TIMEOUT_MS);
    assert_eq!(s.phase, Phase::Active);
}

#[test]
fn deadlines() {
    let s = active(Identity::Browser, 10);
    assert_eq!(s.keepalive_deadline(), 10 + KEEPALIVE_INTERVAL_MS);
    assert_eq!(s.inactivity_deadline(), 10 + INACTIVITY_TIMEOUT_MS + 1);
    let late = active(Identity::Browser, u64::MAX - 5);
    assert_eq!(late.keepalive_deadline(), u64::MAX);
    assert_eq!(late.inactivity_deadline(), u64::MAX);
}
