//! The per-connection state machine: it decides, for each event on a
//! connection, what the connection does next. The caller owns the transport,
//! the subscription wake-ups and the clock, and reports events with the time
//! they happened.

use vstd::prelude::*;
use vstd::string::StrSliceExecFns;
use vstd::utf8::encode_utf8;
use crate::identity::Identity;

verus! {

/// A ping is sent after this many milliseconds without outbound traffic.
pub const KEEPALIVE_INTERVAL_MS: u64 = 20_000;

/// A session ends after more than this many milliseconds without traffic.
pub const INACTIVITY_TIMEOUT_MS: u64 = 1_800_000;

/// Where a session is in its life. `Closed` is final.
#[derive(Debug, Clone, Copy, PartialEq, Eq, Structural)]
pub enum Phase {
    Connecting,
    Active,
    Closed,
}

/// A frame of the push connection.
#[derive(Debug, PartialEq, Eq)]
pub enum Frame {
    Binary(Vec<u8>),
    /// Accepted from older clients as an alias of a binary frame.
    Text(String),
    Ping(Vec<u8>),
    Pong(Vec<u8>),
    Close,
}

/// Something that happened to a session.
#[derive(Debug)]
pub enum Event {
    /// A message arrived on the session's subscription.
    Outbound(Vec<u8>),
    /// A frame arrived on the connection.
    Inbound(Frame),
    /// Reading from the connection failed, or the connection ended.
    InboundFailed,
    /// Writing a frame to the connection failed.
    SendFailed,
    /// A timer fired: the keepalive or the inactivity deadline was reached.
    Tick,
}

/// What the caller does next for a session.
#[derive(Debug, PartialEq, Eq)]
pub enum Action {
    /// Nothing; wait for the next event.
    Wait,
    /// Write this frame to the connection.
    Send(Frame),
    /// Publish this payload to the counterpart (see `Registry::send`).
    Publish(Vec<u8>),
    /// End the session and release its place on the channel.
    Close,
}

/// The state of one session.
#[derive(Debug, Clone, Copy, PartialEq, Eq, Structural)]
pub struct Session {
    pub role: Identity,
    pub phase: Phase,
    /// Time of the last inbound or outbound traffic, in milliseconds.
    pub last_activity: u64,
    /// Time of the last frame written to the connection, in milliseconds.
    pub last_outbound: u64,
}

/// Milliseconds from `start` to `now`, or zero if the clock went back.
pub open spec fn since(start: u64, now: u64) -> int {
    if now >= start {
        now - start
    } else {
        0
    }
}

/// Whether a session whose last traffic was at `last` has been idle for
/// longer than the inactivity window at `now`.
pub open spec fn timed_out(last: u64, now: u64) -> bool {
    since(last, now) > INACTIVITY_TIMEOUT_MS
}

/// Whether a keepalive ping is due at `now` after the last outbound frame
/// at `last`.
pub open spec fn ping_due(last: u64, now: u64) -> bool {
    since(last, now) >= KEEPALIVE_INTERVAL_MS
}

/// The payload that an inbound data frame carries to the counterpart, if it
/// is a data frame.
pub open spec fn payload_of(f: Frame) -> Option<Seq<u8>> {
    match f {
        Frame::Binary(b) => Some(b@),
        Frame::Text(s) => Some(encode_utf8(s@)),
        _ => None,
    }
}

/// The session after traffic at `now`: both timers start again.
pub open spec fn touched(s: Session, now: u64) -> Session {
    Session { last_activity: now, last_outbound: now, ..s }
}

/// The session after a timer tick at `now`: closed once idle beyond the
/// inactivity window, else with a ping sent if one is due.
pub open spec fn after_tick(s: Session, now: u64) -> Session {
    if timed_out(s.last_activity, now) {
        closed_session(s)
    } else if ping_due(s.last_outbound, now) {
        Session { last_outbound: now, ..s }
    } else {
        s
    }
}

/// The session, closed.
pub open spec fn closed_session(s: Session) -> Session {
    Session { phase: Phase::Closed, ..s }
}

fn empty_bytes() -> (r: Vec<u8>)
    ensures
        r@.len() == 0,
{
    Vec::new()
}

impl Session {
    /// A session of `role` that has not joined its channel yet.
    pub fn new(role: Identity) -> (r: Session)
        ensures
            r.role == role,
            r.phase == Phase::Connecting,
    {
        Session { role, phase: Phase::Connecting, last_activity: 0, last_outbound: 0 }
    }

    /// The session joined its channel at `now`. If it was handed a cached
    /// message to replay, that message is sent before anything else.
    pub fn activate(&mut self, replay: Option<Vec<u8>>, now: u64) -> (r: Action)
        ensures
            old(self).phase == Phase::Connecting ==> {
                &&& *final(self) == (Session { phase: Phase::Active, ..touched(*old(self), now) })
                &&& match replay {
                    Some(m) => r == Action::Send(Frame::Binary(m)),
                    None => r == Action::Wait,
                }
            },
            old(self).phase != Phase::Connecting ==> *final(self) == *old(self) && r == Action::Wait,
    {
        if self.phase != Phase::Connecting {
            return Action::Wait;
        }
        self.phase = Phase::Active;
        self.last_activity = now;
        self.last_outbound = now;
        match replay {
            Some(m) => Action::Send(Frame::Binary(m)),
            None => Action::Wait,
        }
    }

    /// The deadline of the keepalive timer.
    pub fn keepalive_deadline(&self) -> (r: u64)
        ensures
            r == if self.last_outbound as int + KEEPALIVE_INTERVAL_MS > u64::MAX {
                u64::MAX as int
            } else {
                self.last_outbound + KEEPALIVE_INTERVAL_MS
            },
    {
        self.last_outbound.saturating_add(KEEPALIVE_INTERVAL_MS)
    }

    /// The deadline of the inactivity timer: the first time at which the
    /// session has been idle for longer than the window.
    pub fn inactivity_deadline(&self) -> (r: u64)
        ensures
            r == if self.last_activity as int + INACTIVITY_TIMEOUT_MS + 1 > u64::MAX {
                u64::MAX as int
            } else {
                self.last_activity + INACTIVITY_TIMEOUT_MS + 1
            },
    {
        self.last_activity.saturating_add(INACTIVITY_TIMEOUT_MS + 1)
    }

    /// Decides what an active session does on `event` at `now`.
    ///
    /// A subscription message is forwarded; inbound data is published to the
    /// counterpart, text turned into its bytes; a ping is answered with a
    /// pong and goes no further. A pong, the peer's answer to a keepalive
    /// ping, is neither forwarded nor counted as traffic, so it does not hold
    /// off the inactivity timeout. A close frame, a failed read or write, and
    /// inactivity beyond the window end the session. Traffic restarts both
    /// timers; a keepalive ping restarts only its own. A session that is not
    /// active ignores events.
    pub fn step(&mut self, event: Event, now: u64) -> (r: Action)
        ensures
            final(self).role == old(self).role,
            old(self).phase != Phase::Active ==> *final(self) == *old(self) && r == Action::Wait,
            old(self).phase == Phase::Active ==> match event {
                Event::Outbound(m) => {
                    &&& r == Action::Send(Frame::Binary(m))
                    &&& *final(self) == touched(*old(self), now)
                },
                Event::Inbound(f) => match f {
                    Frame::Binary(_) | Frame::Text(_) => {
                        &&& r matches Action::Publish(p) && Some(p@) == payload_of(f)
                        &&& *final(self) == touched(*old(self), now)
                    },
                    Frame::Ping(_) => {
                        &&& r matches Action::Send(Frame::Pong(p)) && p@.len() == 0
                        &&& *final(self) == touched(*old(self), now)
                    },
                    Frame::Pong(_) => {
                        &&& r == Action::Wait
                        &&& *final(self) == *old(self)
                    },
                    Frame::Close => {
                        &&& r == Action::Close
                        &&& *final(self) == closed_session(*old(self))
                    },
                },
                Event::InboundFailed | Event::SendFailed => {
                    &&& r == Action::Close
                    &&& *final(self) == closed_session(*old(self))
                },
                Event::Tick => if timed_out(old(self).last_activity, now) {
                    &&& r == Action::Close
                    &&& *final(self) == closed_session(*old(self))
                } else if ping_due(old(self).last_outbound, now) {
                    &&& r matches Action::Send(Frame::Ping(p)) && p@.len() == 0
                    &&& *final(self) == (Session { last_outbound: now, ..*old(self) })
                } else {
                    &&& r == Action::Wait
                    &&& *final(self) == *old(self)
                },
            },
            old(self).phase == Phase::Active && event is Tick ==> *final(self) == after_tick(*old(self), now),
    {
        if self.phase != Phase::Active {
            return Action::Wait;
        }
        match event {
            Event::Outbound(m) => {
                self.last_activity = now;
                self.last_outbound = now;
                Action::Send(Frame::Binary(m))
            },
            Event::Inbound(f) => match f {
                Frame::Binary(b) => {
                    self.last_activity = now;
                    self.last_outbound = now;
                    Action::Publish(b)
                },
                Frame::Text(s) => {
                    self.last_activity = now;
                    self.last_outbound = now;
                    Action::Publish(s.as_str().as_bytes_vec())
                },
                Frame::Ping(_) => {
                    self.last_activity = now;
                    self.last_outbound = now;
                    Action::Send(Frame::Pong(empty_bytes()))
                },
                Frame::Pong(_) => Action::Wait,
                Frame::Close => {
                    self.phase = Phase::Closed;
                    Action::Close
                },
            },
            Event::InboundFailed | Event::SendFailed => {
                self.phase = Phase::Closed;
                Action::Close
            },
            Event::Tick => {
                let idle = now.saturating_sub(self.last_activity);
                let quiet = now.saturating_sub(self.last_outbound);
                if idle > INACTIVITY_TIMEOUT_MS {
                    self.phase = Phase::Closed;
                    Action::Close
                } else if quiet >= KEEPALIVE_INTERVAL_MS {
                    self.last_outbound = now;
                    Action::Send(Frame::Ping(empty_bytes()))
                } else {
                    Action::Wait
                }
            },
        }
    }
}

/// A session that had traffic within the keepalive interval is neither
/// timed out nor due a ping, so pings come only while it is otherwise idle;
/// one with traffic within the inactivity window is not timed out.
pub proof fn lemma_timers(s: Session, traffic_at: u64, now: u64)
    ensures
        since(traffic_at, now) < KEEPALIVE_INTERVAL_MS ==> {
            &&& !timed_out(touched(s, traffic_at).last_activity, now)
            &&& !ping_due(touched(s, traffic_at).last_outbound, now)
        },
        since(traffic_at, now) <= INACTIVITY_TIMEOUT_MS ==> !timed_out(touched(s, traffic_at).last_activity, now),
{
}

/// Traffic on a session (a frame in, or a message out) or a timer tick, at
/// a time.
pub struct TimedEvent {
    pub traffic: bool,
    pub at: u64,
}

/// The session after `events`, as `Session::step` leaves it.
pub open spec fn run_timers(s: Session, events: Seq<TimedEvent>) -> Session
    decreases events.len(),
{
    if events.len() == 0 {
        s
    } else {
        let before = run_timers(s, events.drop_last());
        let e = events.last();
        if before.phase != Phase::Active {
            before
        } else if e.traffic {
            touched(before, e.at)
        } else {
            after_tick(before, e.at)
        }
    }
}

/// The time of the last traffic in `events`, or `start` if there was none.
pub open spec fn last_traffic(start: u64, events: Seq<TimedEvent>) -> u64
    decreases events.len(),
{
    if events.len() == 0 {
        start
    } else if events.last().traffic {
        events.last().at
    } else {
        last_traffic(start, events.drop_last())
    }
}

/// Every tick comes less than a keepalive interval after the last traffic.
pub open spec fn ticks_within_keepalive(start: u64, events: Seq<TimedEvent>) -> bool {
    forall|i: int|
        0 <= i < events.len() && !(#[trigger] events[i]).traffic ==> since(last_traffic(start, events.subrange(0, i)), events[i].at)
            < KEEPALIVE_INTERVAL_MS
}

/// A session with traffic at `start` whose every timer tick comes less than
/// a keepalive interval after the last traffic stays active through any
/// run of events, and no tick finds it timed out or due a ping: each tick
/// waits.
pub proof fn lemma_busy_session_stays_open(s: Session, start: u64, events: Seq<TimedEvent>)
    requires
        s.phase == Phase::Active,
        s.last_activity == start,
        s.last_outbound == start,
        ticks_within_keepalive(start, events),
    ensures
        run_timers(s, events).phase == Phase::Active,
        run_timers(s, events).last_activity == last_traffic(start, events),
        run_timers(s, events).last_outbound == last_traffic(start, events),
        forall|i: int|
            0 <= i < events.len() && !(#[trigger] events[i]).traffic ==> {
                let before = run_timers(s, events.subrange(0, i));
                &&& !timed_out(before.last_activity, events[i].at)
                &&& !ping_due(before.last_outbound, events[i].at)
            },
    decreases events.len(),
{
    if events.len() == 0 {
        return;
    }
    let prefix = events.drop_last();
    assert forall|i: int| 0 <= i < prefix.len() && !(#[trigger] prefix[i]).traffic implies since(
        last_traffic(start, prefix.subrange(0, i)),
        prefix[i].at,
    ) < KEEPALIVE_INTERVAL_MS by {
        assert(prefix.subrange(0, i) == events.subrange(0, i));
        assert(prefix[i] == events[i]);
    }
    lemma_busy_session_stays_open(s, start, prefix);
    let n = events.len() - 1;
    assert(events.subrange(0, n) == prefix);
    assert forall|i: int|
        0 <= i < events.len() && !(#[trigger] events[i]).traffic implies {
            let before = run_timers(s, events.subrange(0, i));
            &&& !timed_out(before.last_activity, events[i].at)
            &&& !ping_due(before.last_outbound, events[i].at)
        } by {
        if i < n {
            assert(prefix.subrange(0, i) == events.subrange(0, i));
            assert(prefix[i] == events[i]);
        }
    }
}

} // verus!
