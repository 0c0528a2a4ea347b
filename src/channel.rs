//! The state of one channel: a topic per role, the producer's cached message
//! and the time the channel was opened.

use vstd::prelude::*;
use crate::identity::{counterpart_of, is_producer, Identity};
use crate::topic::{lemma_push_contains, pending, published, Topic, TopicView};

verus! {

/// The abstract state of a channel.
#[verifier::ext_equal]
pub struct ChannelView {
    /// The id the channel was opened under.
    pub name: Seq<char>,
    /// Read by the extension, written by the browser.
    pub extension: TopicView,
    /// Read by the browser, written by the extension.
    pub browser: TopicView,
    /// The producer's latest message, replayed to a consumer that joins later.
    pub cached: Option<Seq<u8>>,
    /// When the channel was opened, in the caller's clock.
    pub created_at: u64,
}

impl ChannelView {
    /// The topic that sessions of `role` read from.
    pub open spec fn topic(self, role: Identity) -> TopicView {
        match role {
            Identity::Extension => self.extension,
            Identity::Browser => self.browser,
        }
    }

    /// The channel with the topic that `role` reads from replaced by `t`.
    pub open spec fn with_topic(self, role: Identity, t: TopicView) -> ChannelView {
        match role {
            Identity::Extension => ChannelView { extension: t, ..self },
            Identity::Browser => ChannelView { browser: t, ..self },
        }
    }

    /// The number of sessions on the channel.
    pub open spec fn connections(self) -> nat {
        self.extension.subscribers.len() + self.browser.subscribers.len()
    }

    /// Whether `ticket` is a session on the channel.
    pub open spec fn has_ticket(self, ticket: u64) -> bool {
        self.extension.subscribers.contains(ticket) || self.browser.subscribers.contains(ticket)
    }

    /// Both topics hold each ticket once, no ticket is in both, and the count
    /// of sessions fits in a `usize`.
    pub open spec fn wf(self) -> bool {
        &&& self.extension.wf()
        &&& self.browser.wf()
        &&& forall|t: u64| !(#[trigger] self.extension.subscribers.contains(t) && self.browser.subscribers.contains(t))
        &&& self.connections() < usize::MAX
    }

    /// The channel after a session of `role` with `ticket` joined.
    pub open spec fn joined(self, role: Identity, ticket: u64) -> ChannelView {
        self.with_topic(
            role,
            TopicView { subscribers: self.topic(role).subscribers.push(ticket), ..self.topic(role) },
        )
    }

    /// The channel after the session of `role` with `ticket` left.
    pub open spec fn left(self, role: Identity, ticket: u64) -> ChannelView {
        self.with_topic(role, self.topic(role).after_unsubscribe(ticket))
    }

    /// The channel after `role` sent `msg` over its session: the message goes
    /// to the counterpart's topic, and a producer's message becomes the cache.
    pub open spec fn sent(self, role: Identity, msg: Seq<u8>) -> ChannelView {
        let c = self.injected(role, msg);
        if is_producer(role) {
            ChannelView { cached: Some(msg), ..c }
        } else {
            c
        }
    }

    /// The channel after the session of `role` with `ticket` looked at the
    /// topic it reads from.
    pub open spec fn polled_by(self, role: Identity, ticket: u64) -> ChannelView {
        self.with_topic(role, self.topic(role).after_poll(ticket))
    }

    /// The channel after `msg` was injected on behalf of `role`: it goes to
    /// the counterpart's topic and the cache is left alone.
    pub open spec fn injected(self, role: Identity, msg: Seq<u8>) -> ChannelView {
        let other = counterpart_of(role);
        self.with_topic(other, published(self.topic(other), msg))
    }
}

/// A channel with no session and no cached message, opened as `name` at
/// `now`.
pub open spec fn fresh_channel(name: Seq<char>, now: u64) -> ChannelView {
    ChannelView {
        name,
        extension: TopicView { latest: Seq::empty(), subscribers: Seq::empty(), unread: Seq::empty() },
        browser: TopicView { latest: Seq::empty(), subscribers: Seq::empty(), unread: Seq::empty() },
        cached: None,
        created_at: now,
    }
}

/// The state of one channel.
pub struct ChannelState {
    name: String,
    extension: Topic,
    browser: Topic,
    cached: Option<Vec<u8>>,
    created_at: u64,
}

impl View for ChannelState {
    type V = ChannelView;

    closed spec fn view(&self) -> ChannelView {
        ChannelView {
            name: self.name@,
            extension: self.extension@,
            browser: self.browser@,
            cached: match self.cached {
                Some(v) => Some(v@),
                None => None,
            },
            created_at: self.created_at,
        }
    }
}

fn copy_bytes(v: &Option<Vec<u8>>) -> (r: Option<Vec<u8>>)
    ensures
        match (r, *v) {
            (Some(a), Some(b)) => a@ == b@,
            (None, None) => true,
            _ => false,
        },
{
    match v {
        Some(b) => Some(b.clone()),
        None => None,
    }
}

impl ChannelState {
    /// A channel with no session and no cached message, opened as `name`
    /// at `now`.
    pub fn new(name: String, now: u64) -> (r: ChannelState)
        ensures
            r@ == fresh_channel(name@, now),
    {
        let r = ChannelState { name, extension: Topic::new(), browser: Topic::new(), cached: None, created_at: now };
        assert(r@ =~~= fresh_channel(r.name@, now));
        r
    }

    /// A copy of the channel.
    pub fn duplicate(&self) -> (r: ChannelState)
        ensures
            r@ == self@,
    {
        ChannelState {
            name: self.name.clone(),
            extension: self.extension.duplicate(),
            browser: self.browser.duplicate(),
            cached: copy_bytes(&self.cached),
            created_at: self.created_at,
        }
    }

    /// The number of sessions on the channel.
    pub fn connections(&self) -> (r: usize)
        requires
            self@.wf(),
        ensures
            r == self@.connections(),
    {
        self.extension.subscriber_count() + self.browser.subscriber_count()
    }

    /// The producer's cached message.
    pub fn cached(&self) -> (r: Option<Vec<u8>>)
        ensures
            match (r, self@.cached) {
                (Some(a), Some(b)) => a@ == b,
                (None, None) => true,
                _ => false,
            },
    {
        copy_bytes(&self.cached)
    }

    /// The id the channel was opened under.
    pub fn name(&self) -> (r: &String)
        ensures
            r@ == self@.name,
    {
        &self.name
    }

    /// When the channel was opened.
    pub fn created_at(&self) -> (r: u64)
        ensures
            r == self@.created_at,
    {
        self.created_at
    }

    /// Whether a session of `role` with `ticket` is on the channel.
    pub fn has_session(&self, role: Identity, ticket: u64) -> (r: bool)
        ensures
            r == self@.topic(role).subscribers.contains(ticket),
    {
        match role {
            Identity::Extension => self.extension.is_subscribed(ticket),
            Identity::Browser => self.browser.is_subscribed(ticket),
        }
    }

    /// Adds a session of `role` with the new `ticket`; it subscribes to the
    /// topic that `role` reads from.
    pub fn join(&mut self, role: Identity, ticket: u64)
        requires
            old(self)@.wf(),
            !old(self)@.has_ticket(ticket),
            old(self)@.connections() + 1 < usize::MAX,
        ensures
            final(self)@ == old(self)@.joined(role, ticket),
            final(self)@.wf(),
            final(self)@.connections() == old(self)@.connections() + 1,
            pending(final(self)@.topic(role), ticket) is None,
    {
        match role {
            Identity::Extension => self.extension.subscribe(ticket),
            Identity::Browser => self.browser.subscribe(ticket),
        }
        proof {
            let o = old(self)@;
            let n = self@;
            assert forall|t: u64| !(#[trigger] n.extension.subscribers.contains(t) && n.browser.subscribers.contains(t)) by {
                lemma_push_contains(o.topic(role).subscribers, ticket, t);
                assert(!(o.extension.subscribers.contains(t) && o.browser.subscribers.contains(t)));
            }
        }
    }

    /// Removes the session of `role` with `ticket`. Returns whether it was
    /// there; if it was not, nothing changes.
    pub fn leave(&mut self, role: Identity, ticket: u64) -> (r: bool)
        requires
            old(self)@.wf(),
        ensures
            r == old(self)@.topic(role).subscribers.contains(ticket),
            final(self)@ == old(self)@.left(role, ticket),
            final(self)@.wf(),
            final(self)@.connections() == old(self)@.connections() - (if r { 1int } else { 0int }),
            !final(self)@.topic(role).subscribers.contains(ticket),
            forall|t: u64| #[trigger] final(self)@.has_ticket(t) ==> old(self)@.has_ticket(t),
    {
        match role {
            Identity::Extension => self.extension.unsubscribe(ticket),
            Identity::Browser => self.browser.unsubscribe(ticket),
        }
    }

    /// `role` sent `msg` over its session: it is published to the
    /// counterpart's topic, and a producer's message also becomes the cache.
    /// Returns whether a counterpart was subscribed.
    pub fn send_from(&mut self, role: Identity, msg: Vec<u8>) -> (r: bool)
        requires
            old(self)@.wf(),
        ensures
            final(self)@ == old(self)@.sent(role, msg@),
            final(self)@.wf(),
            r == (old(self)@.topic(counterpart_of(role)).subscribers.len() > 0),
    {
        if role.is_producer() {
            self.cached = Some(msg.clone());
        }
        self.inject_from(role, msg)
    }

    /// Publishes `msg` to the topic that the counterpart of `role` reads
    /// from, leaving the cache alone. Returns whether a counterpart was
    /// subscribed.
    pub fn inject_from(&mut self, role: Identity, msg: Vec<u8>) -> (r: bool)
        requires
            old(self)@.wf(),
        ensures
            final(self)@ == old(self)@.injected(role, msg@),
            final(self)@.wf(),
            r == (old(self)@.topic(counterpart_of(role)).subscribers.len() > 0),
    {
        match role {
            Identity::Extension => self.browser.publish(msg),
            Identity::Browser => self.extension.publish(msg),
        }
    }

    /// Hands the session of `role` with `ticket` the newest message on the
    /// topic it reads from, if it has not seen it, and marks it as seen.
    pub fn poll_for(&mut self, role: Identity, ticket: u64) -> (r: Option<Vec<u8>>)
        requires
            old(self)@.wf(),
        ensures
            match r {
                Some(v) => pending(old(self)@.topic(role), ticket) == Some(v@),
                None => pending(old(self)@.topic(role), ticket) is None,
            },
            final(self)@ == old(self)@.polled_by(role, ticket),
            final(self)@.wf(),
    {
        match role {
            Identity::Extension => self.extension.poll(ticket),
            Identity::Browser => self.browser.poll(ticket),
        }
    }
}

} // verus!
