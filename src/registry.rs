//! The channel registry: the channels, each kept under a generation number,
//! and an index from channel id to the generation of the channel that has
//! that id. A channel is opened by its first session and removed with its
//! last; deleting an id only takes it out of the index, so the sessions
//! still on that channel keep talking until they leave.

use vstd::prelude::*;
use vstd::hash_map::HashMapWithView;
use crate::channel::{fresh_channel, ChannelState, ChannelView};
use crate::identity::{counterpart_of, is_cache_consumer, Identity};
use crate::store::{generations_in, index_get, index_insert, index_new, index_remove, ChannelIndex};
use crate::topic::{lemma_push_contains, pending};

verus! {

/// A session's place on a channel, handed out by [`Registry::connect`] and
/// given back to [`Registry::disconnect`].
#[derive(Debug)]
pub struct Membership {
    pub channel_id: String,
    /// The generation of the channel the session joined.
    pub generation: u64,
    pub role: Identity,
    /// Unique among all sessions the registry has admitted.
    pub ticket: u64,
}

/// What a session gets when it joins a channel.
#[derive(Debug)]
pub struct Joined {
    pub membership: Membership,
    /// The producer's cached message, for a consumer that joins after it
    /// was sent; to be delivered before anything else.
    pub replay: Option<Vec<u8>>,
}

/// Why a session could not join.
#[derive(Debug, Clone, Copy, PartialEq, Eq, Structural)]
pub enum ConnectError {
    /// The session counters are used up.
    Exhausted,
}

/// Why a message could not be injected.
#[derive(Debug, Clone, Copy, PartialEq, Eq, Structural)]
pub enum InjectError {
    /// No channel has that id.
    NotFound,
}

/// Time elapsed from `start` to `now`, or zero if the clock went back.
pub open spec fn elapsed(start: u64, now: u64) -> u64 {
    if now >= start {
        (now - start) as u64
    } else {
        0
    }
}

/// The abstract state of a registry.
#[verifier::ext_equal]
pub struct RegistryView {
    /// Each channel id in use, with the generation of its channel.
    pub ids: Map<Seq<char>, u64>,
    /// Each open channel, by generation; it may have lost its id.
    pub channels: Map<u64, ChannelView>,
}

impl RegistryView {
    /// Whether a channel has the id `id`.
    pub open spec fn has_id(self, id: Seq<char>) -> bool {
        self.ids.contains_key(id)
    }

    /// The channel with the id `id`.
    pub open spec fn channel(self, id: Seq<char>) -> ChannelView {
        self.channels[self.ids[id]]
    }
}

/// The channel that a session on `id` joins: the one there, or a new one
/// opened at `now`.
pub open spec fn channel_to_join(v: RegistryView, id: Seq<char>, now: u64) -> ChannelView {
    if v.has_id(id) {
        v.channel(id)
    } else {
        fresh_channel(id, now)
    }
}

/// The generation of the channel that a session with `ticket` joins on `id`:
/// the one there, or the ticket itself for a new channel.
pub open spec fn generation_to_join(v: RegistryView, id: Seq<char>, ticket: u64) -> u64 {
    if v.has_id(id) {
        v.ids[id]
    } else {
        ticket
    }
}

/// Whether the session of `role` with `ticket` is on channel `generation`.
pub open spec fn session_on(v: RegistryView, generation: u64, role: Identity, ticket: u64) -> bool {
    v.channels.contains_key(generation) && v.channels[generation].topic(role).subscribers.contains(ticket)
}

/// The registry after a session of `role` with `ticket` joined `id` at `now`.
pub open spec fn after_connect(v: RegistryView, id: Seq<char>, role: Identity, ticket: u64, now: u64) -> RegistryView {
    let g = generation_to_join(v, id, ticket);
    RegistryView {
        ids: v.ids.insert(id, g),
        channels: v.channels.insert(g, channel_to_join(v, id, now).joined(role, ticket)),
    }
}

/// What a session of `role` joining `id` at `now` is handed to replay.
pub open spec fn replay_for(v: RegistryView, id: Seq<char>, role: Identity, now: u64) -> Option<Seq<u8>> {
    if is_cache_consumer(role) {
        channel_to_join(v, id, now).cached
    } else {
        None
    }
}

/// The registry after the session of `role` with `ticket` left channel
/// `generation`. The channel is removed with its last session, and its id
/// with it if the id still names it. A session that is not there changes
/// nothing.
pub open spec fn after_disconnect(v: RegistryView, generation: u64, role: Identity, ticket: u64) -> RegistryView {
    if session_on(v, generation, role, ticket) {
        let c = v.channels[generation];
        if c.connections() == 1 {
            RegistryView {
                ids: if v.ids.contains_key(c.name) && v.ids[c.name] == generation {
                    v.ids.remove(c.name)
                } else {
                    v.ids
                },
                channels: v.channels.remove(generation),
            }
        } else {
            RegistryView { channels: v.channels.insert(generation, c.left(role, ticket)), ..v }
        }
    } else {
        v
    }
}

/// The registry after `id` was deleted: the id names no channel any more.
/// The channel itself stays for the sessions still on it.
pub open spec fn after_delete(v: RegistryView, id: Seq<char>) -> RegistryView {
    RegistryView { ids: v.ids.remove(id), ..v }
}

/// The registry after the session of `role` with `ticket` on channel
/// `generation` sent `msg`. A session that is not there changes nothing.
pub open spec fn after_send(v: RegistryView, generation: u64, role: Identity, ticket: u64, msg: Seq<u8>) -> RegistryView {
    if session_on(v, generation, role, ticket) {
        RegistryView { channels: v.channels.insert(generation, v.channels[generation].sent(role, msg)), ..v }
    } else {
        v
    }
}

/// The registry after `msg` was injected into `id` on behalf of `role`.
pub open spec fn after_inject(v: RegistryView, id: Seq<char>, role: Identity, msg: Seq<u8>) -> RegistryView {
    if v.has_id(id) {
        RegistryView { channels: v.channels.insert(v.ids[id], v.channel(id).injected(role, msg)), ..v }
    } else {
        v
    }
}

/// What the session of `role` with `ticket` on channel `generation` is
/// handed when it polls.
pub open spec fn polled(v: RegistryView, generation: u64, role: Identity, ticket: u64) -> Option<Seq<u8>> {
    if session_on(v, generation, role, ticket) {
        pending(v.channels[generation].topic(role), ticket)
    } else {
        None
    }
}

/// The registry after the session of `role` with `ticket` on channel
/// `generation` polled: what it was handed counts as seen.
pub open spec fn after_poll(v: RegistryView, generation: u64, role: Identity, ticket: u64) -> RegistryView {
    if session_on(v, generation, role, ticket) {
        RegistryView { channels: v.channels.insert(generation, v.channels[generation].polled_by(role, ticket)), ..v }
    } else {
        v
    }
}

/// The channels, by generation, and the index from id to generation.
pub struct Registry {
    ids: ChannelIndex,
    channels: HashMapWithView<u64, ChannelState>,
    next_ticket: u64,
}

impl View for Registry {
    type V = RegistryView;

    closed spec fn view(&self) -> RegistryView {
        RegistryView {
            ids: generations_in(self.ids),
            channels: Map::new(|g: u64| self.channels@.contains_key(g), |g: u64| self.channels@[g]@),
        }
    }
}

/// The conditions that every registry keeps: each id names an open channel
/// opened under that id; each channel is well formed, has a session, and
/// has a generation and tickets handed out before `next`.
pub open spec fn registry_wf(v: RegistryView, next: u64) -> bool {
    &&& forall|id: Seq<char>| #[trigger] v.ids.contains_key(id) ==> v.channels.contains_key(v.ids[id]) && v.channels[v.ids[id]].name == id
    &&& forall|g: u64| #[trigger] v.channels.contains_key(g) ==> {
        &&& v.channels[g].wf()
        &&& v.channels[g].connections() > 0
        &&& g < next
        &&& forall|t: u64| #[trigger] v.channels[g].has_ticket(t) ==> t < next
    }
}

/// Replacing channel `g` by one with the same name and tickets, still well
/// formed and with a session, keeps the registry well formed.
proof fn lemma_replace_channel(v: RegistryView, next: u64, g: u64, c: ChannelView)
    requires
        registry_wf(v, next),
        v.channels.contains_key(g),
        c.name == v.channels[g].name,
        c.wf(),
        c.connections() > 0,
        forall|t: u64| #[trigger] c.has_ticket(t) ==> v.channels[g].has_ticket(t),
    ensures
        registry_wf(RegistryView { channels: v.channels.insert(g, c), ..v }, next),
{
    let n = RegistryView { channels: v.channels.insert(g, c), ..v };
    assert forall|h: u64| #[trigger] n.channels.contains_key(h) implies {
        &&& n.channels[h].wf()
        &&& n.channels[h].connections() > 0
        &&& h < next
        &&& forall|t: u64| #[trigger] n.channels[h].has_ticket(t) ==> t < next
    } by {
        if h == g {
            assert forall|t: u64| #[trigger] n.channels[h].has_ticket(t) implies t < next by {
                assert(v.channels[g].has_ticket(t));
            }
        }
    }
}

impl Registry {
    /// The ticket that the next session will get.
    pub closed spec fn next_ticket(&self) -> u64 {
        self.next_ticket
    }

    /// The registry is well formed.
    pub open spec fn wf(&self) -> bool {
        registry_wf(self@, self.next_ticket())
    }

    /// Whether `m` is a session on the channel it joined.
    pub open spec fn is_active(&self, m: Membership) -> bool {
        session_on(self@, m.generation, m.role, m.ticket)
    }

    /// An empty registry.
    pub fn new() -> (r: Registry)
        ensures
            r@.ids.is_empty(),
            r@.channels.is_empty(),
            r.next_ticket() == 0,
            r.wf(),
    {
        let r = Registry { ids: index_new(), channels: HashMapWithView::new(), next_ticket: 0 };
        assert(r@.channels =~= Map::empty());
        r
    }

    /// Whether a channel has this id.
    pub fn contains(&self, id: &String) -> (r: bool)
        ensures
            r == self@.has_id(id@),
    {
        index_get(&self.ids, id).is_some()
    }

    /// The generation of the channel with this id, if there is one.
    pub fn generation_of(&self, id: &String) -> (r: Option<u64>)
        ensures
            match r {
                Some(g) => self@.has_id(id@) && g == self@.ids[id@],
                None => !self@.has_id(id@),
            },
    {
        index_get(&self.ids, id)
    }

    /// The number of sessions on the channel with this id, if there is one.
    pub fn connection_count(&self, id: &String) -> (r: Option<usize>)
        requires
            self.wf(),
        ensures
            match r {
                Some(n) => self@.has_id(id@) && n == self@.channel(id@).connections(),
                None => !self@.has_id(id@),
            },
    {
        match index_get(&self.ids, id) {
            Some(g) => {
                assert(self@.ids.contains_key(id@));
                match self.channels.get(&g) {
                    Some(state) => {
                        assert(self@.channels.contains_key(g));
                        Some(state.connections())
                    },
                    None => None,
                }
            },
            None => None,
        }
    }

    /// The producer's cached message on the channel with this id, if there
    /// is one and it has a cached message.
    pub fn cached_message(&self, id: &String) -> (r: Option<Vec<u8>>)
        requires
            self.wf(),
        ensures
            match r {
                Some(v) => self@.has_id(id@) && self@.channel(id@).cached == Some(v@),
                None => !self@.has_id(id@) || self@.channel(id@).cached is None,
            },
    {
        match index_get(&self.ids, id) {
            Some(g) => {
                assert(self@.ids.contains_key(id@));
                match self.channels.get(&g) {
                    Some(state) => state.cached(),
                    None => None,
                }
            },
            None => None,
        }
    }

    /// Takes channel `g` out of the map to work on it.
    fn take_channel(&mut self, g: u64) -> (r: Option<ChannelState>)
        requires
            old(self).wf(),
        ensures
            final(self).ids == old(self).ids,
            final(self).next_ticket == old(self).next_ticket,
            final(self)@.ids == old(self)@.ids,
            final(self)@.channels == old(self)@.channels.remove(g),
            r is Some <==> old(self)@.channels.contains_key(g),
            r is Some ==> r->0@ == old(self)@.channels[g],
    {
        let r = self.channels.remove(&g);
        assert(self@.channels =~= old(self)@.channels.remove(g));
        r
    }

    /// Puts channel `g` back into the map.
    fn put_channel(&mut self, g: u64, state: ChannelState)
        ensures
            final(self).ids == old(self).ids,
            final(self).next_ticket == old(self).next_ticket,
            final(self)@.ids == old(self)@.ids,
            final(self)@.channels == old(self)@.channels.insert(g, state@),
    {
        let ghost s = state@;
        self.channels.insert(g, state);
        assert(self@.channels =~= old(self)@.channels.insert(g, s));
    }

    /// Admits a session of `role` on channel `id`, opening a channel at
    /// `now` if no channel has that id. The session subscribes to the topic
    /// its role reads from; a consumer is handed the cached message to
    /// replay.
    pub fn connect(&mut self, id: &String, role: Identity, now: u64) -> (r: Result<Joined, ConnectError>)
        requires
            old(self).wf(),
        ensures
            final(self).wf(),
            ({
                let ticket = old(self).next_ticket();
                match r {
                    Ok(j) => {
                        &&& j.membership.channel_id@ == id@
                        &&& j.membership.role == role
                        &&& j.membership.ticket == ticket
                        &&& j.membership.generation == generation_to_join(old(self)@, id@, ticket)
                        &&& final(self)@ == after_connect(old(self)@, id@, role, ticket, now)
                        &&& final(self).next_ticket() == ticket + 1
                        &&& final(self).is_active(j.membership)
                        &&& final(self)@.channel(id@).connections() == channel_to_join(old(self)@, id@, now).connections() + 1
                        &&& polled(final(self)@, j.membership.generation, role, ticket) is None
                        &&& match j.replay {
                            Some(v) => replay_for(old(self)@, id@, role, now) == Some(v@),
                            None => replay_for(old(self)@, id@, role, now) is None,
                        }
                    },
                    Err(e) => {
                        &&& e == ConnectError::Exhausted
                        &&& final(self)@ == old(self)@
                        &&& final(self).next_ticket() == ticket
                    },
                }
            }),
            (r is Err) <==> (old(self).next_ticket() == u64::MAX
                || channel_to_join(old(self)@, id@, now).connections() + 1 >= usize::MAX),
    {
        let ghost old_view = self@;
        let ticket = self.next_ticket;
        let g = match index_get(&self.ids, id) {
            Some(g) => g,
            None => ticket,
        };
        let taken = self.take_channel(g);
        let present = taken.is_some();
        let mut state = match taken {
            Some(s) => s,
            None => ChannelState::new(id.clone(), now),
        };
        proof {
            if old_view.ids.contains_key(id@) {
                assert(old_view.channels.contains_key(g));
            } else {
                assert(!old_view.channels.contains_key(g));
            }
        }
        if self.next_ticket == u64::MAX || state.connections() >= usize::MAX - 1 {
            if present {
                self.put_channel(g, state);
                assert(self@.channels =~= old_view.channels);
            }
            assert(self@ =~~= old_view);
            return Err(ConnectError::Exhausted);
        }
        self.next_ticket = ticket + 1;
        state.join(role, ticket);
        let replay = if role.is_cache_consumer() {
            state.cached()
        } else {
            None
        };
        self.put_channel(g, state);
        index_insert(&mut self.ids, id.clone(), g);
        proof {
            let n = self@;
            let b = channel_to_join(old_view, id@, now);
            assert(n.channels =~= old_view.channels.insert(g, b.joined(role, ticket)));
            assert(n =~~= after_connect(old_view, id@, role, ticket, now));
            assert forall|h: u64| #[trigger] n.channels.contains_key(h) implies {
                &&& n.channels[h].wf()
                &&& n.channels[h].connections() > 0
                &&& h < self.next_ticket
                &&& forall|t: u64| #[trigger] n.channels[h].has_ticket(t) ==> t < self.next_ticket
            } by {
                if h == g {
                    assert forall|t: u64| #[trigger] n.channels[h].has_ticket(t) implies t < self.next_ticket by {
                        lemma_push_contains(b.topic(role).subscribers, ticket, t);
                        if t != ticket {
                            assert(b.has_ticket(t));
                        }
                    }
                }
            }
            let s = b.topic(role).subscribers;
            assert(s.push(ticket)[s.len() as int] == ticket);
        }
        Ok(Joined { membership: Membership { channel_id: id.clone(), generation: g, role, ticket }, replay })
    }

    /// Ends the session `m`. Its channel loses one session and is removed
    /// when none is left, with its id if the id still names it; the time it
    /// was open is returned then. If the session is no longer on its
    /// channel, nothing changes.
    pub fn disconnect(&mut self, m: Membership, now: u64) -> (r: Option<u64>)
        requires
            old(self).wf(),
        ensures
            final(self).wf(),
            final(self).next_ticket() == old(self).next_ticket(),
            final(self)@ == after_disconnect(old(self)@, m.generation, m.role, m.ticket),
            r is Some <==> (old(self).is_active(m) && old(self)@.channels[m.generation].connections() == 1),
            r is Some ==> r == Some(elapsed(old(self)@.channels[m.generation].created_at, now)),
    {
        let ghost old_view = self@;
        let g = m.generation;
        match self.take_channel(g) {
            None => {
                assert(self@ =~~= old_view);
                None
            },
            Some(mut state) => {
                proof {
                    assert(old_view.channels.contains_key(g));
                }
                if state.has_session(m.role, m.ticket) {
                    state.leave(m.role, m.ticket);
                    if state.connections() == 0 {
                        let named = match index_get(&self.ids, state.name()) {
                            Some(h) => h == g,
                            None => false,
                        };
                        if named {
                            index_remove(&mut self.ids, state.name());
                        }
                        proof {
                            let n = self@;
                            assert(n =~~= after_disconnect(old_view, g, m.role, m.ticket));
                            assert forall|id: Seq<char>| #[trigger] n.ids.contains_key(id) implies
                                n.channels.contains_key(n.ids[id]) && n.channels[n.ids[id]].name == id by {
                                assert(old_view.ids.contains_key(id));
                                if old_view.ids[id] == g {
                                    assert(old_view.channels[g].name == id);
                                }
                            }
                        }
                        Some(now.saturating_sub(state.created_at()))
                    } else {
                        self.put_channel(g, state);
                        proof {
                            lemma_replace_channel(old_view, self.next_ticket, g, self@.channels[g]);
                            assert(self@ =~~= after_disconnect(old_view, g, m.role, m.ticket));
                        }
                        None
                    }
                } else {
                    self.put_channel(g, state);
                    assert(self@.channels =~= old_view.channels);
                    assert(self@ =~~= old_view);
                    None
                }
            },
        }
    }

    /// Takes the id `id` out of use, whatever the sessions on its channel.
    /// That channel stays open for them until they leave. Returns whether
    /// the id was in use.
    pub fn delete(&mut self, id: &String) -> (r: bool)
        requires
            old(self).wf(),
        ensures
            final(self).wf(),
            final(self).next_ticket() == old(self).next_ticket(),
            final(self)@ == after_delete(old(self)@, id@),
            r == old(self)@.has_id(id@),
    {
        let ghost old_view = self@;
        let r = index_remove(&mut self.ids, id).is_some();
        assert(self@ =~~= after_delete(old_view, id@));
        assert forall|k: Seq<char>| #[trigger] self@.ids.contains_key(k) implies
            self@.channels.contains_key(self@.ids[k]) && self@.channels[self@.ids[k]].name == k by {
            assert(old_view.ids.contains_key(k));
        }
        r
    }

    /// The session `m` sent `msg`: it is published to the counterpart's
    /// topic on its channel, and if `m` is the producer it becomes the
    /// cached message. Returns whether a counterpart was subscribed. A
    /// session that is no longer on its channel changes nothing.
    pub fn send(&mut self, m: &Membership, msg: Vec<u8>) -> (r: bool)
        requires
            old(self).wf(),
        ensures
            final(self).wf(),
            final(self).next_ticket() == old(self).next_ticket(),
            final(self)@ == after_send(old(self)@, m.generation, m.role, m.ticket, msg@),
            r == (old(self).is_active(*m)
                && old(self)@.channels[m.generation].topic(counterpart_of(m.role)).subscribers.len() > 0),
    {
        let ghost old_view = self@;
        let g = m.generation;
        match self.take_channel(g) {
            None => {
                assert(self@ =~~= old_view);
                false
            },
            Some(mut state) => {
                proof {
                    assert(old_view.channels.contains_key(g));
                }
                if state.has_session(m.role, m.ticket) {
                    let delivered = state.send_from(m.role, msg);
                    self.put_channel(g, state);
                    proof {
                        lemma_replace_channel(old_view, self.next_ticket, g, self@.channels[g]);
                        assert(self@ =~~= after_send(old_view, g, m.role, m.ticket, msg@));
                    }
                    delivered
                } else {
                    self.put_channel(g, state);
                    assert(self@.channels =~= old_view.channels);
                    assert(self@ =~~= old_view);
                    false
                }
            },
        }
    }

    /// Publishes `msg` on the channel with id `id` to the topic that the
    /// counterpart of `role` reads from, without joining the channel and
    /// without touching the cache. With no subscriber there the message is
    /// dropped, which is no error.
    pub fn inject(&mut self, id: &String, role: Identity, msg: Vec<u8>) -> (r: Result<(), InjectError>)
        requires
            old(self).wf(),
        ensures
            final(self).wf(),
            final(self).next_ticket() == old(self).next_ticket(),
            final(self)@ == after_inject(old(self)@, id@, role, msg@),
            r is Ok <==> old(self)@.has_id(id@),
            r is Err ==> r == Err::<(), InjectError>(InjectError::NotFound),
    {
        let ghost old_view = self@;
        match index_get(&self.ids, id) {
            None => Err(InjectError::NotFound),
            Some(g) => {
                proof {
                    assert(old_view.ids.contains_key(id@));
                    assert(old_view.channels.contains_key(g));
                }
                match self.take_channel(g) {
                    None => Err(InjectError::NotFound),
                    Some(mut state) => {
                        state.inject_from(role, msg);
                        self.put_channel(g, state);
                        proof {
                            lemma_replace_channel(old_view, self.next_ticket, g, self@.channels[g]);
                            assert(self@ =~~= after_inject(old_view, id@, role, msg@));
                        }
                        Ok(())
                    },
                }
            },
        }
    }

    /// Hands the session `m` the newest message on the topic it reads from
    /// if it has not seen it yet, and marks it as seen. A session that is no
    /// longer on its channel gets nothing.
    pub fn poll(&mut self, m: &Membership) -> (r: Option<Vec<u8>>)
        requires
            old(self).wf(),
        ensures
            final(self).wf(),
            final(self).next_ticket() == old(self).next_ticket(),
            final(self)@ == after_poll(old(self)@, m.generation, m.role, m.ticket),
            match r {
                Some(v) => polled(old(self)@, m.generation, m.role, m.ticket) == Some(v@),
                None => polled(old(self)@, m.generation, m.role, m.ticket) is None,
            },
    {
        let ghost old_view = self@;
        let g = m.generation;
        match self.take_channel(g) {
            None => {
                assert(self@ =~~= old_view);
                None
            },
            Some(mut state) => {
                proof {
                    assert(old_view.channels.contains_key(g));
                }
                if state.has_session(m.role, m.ticket) {
                    let r = state.poll_for(m.role, m.ticket);
                    self.put_channel(g, state);
                    proof {
                        lemma_replace_channel(old_view, self.next_ticket, g, self@.channels[g]);
                        assert(self@ =~~= after_poll(old_view, g, m.role, m.ticket));
                    }
                    r
                } else {
                    self.put_channel(g, state);
                    assert(self@.channels =~= old_view.channels);
                    assert(self@ =~~= old_view);
                    None
                }
            },
        }
    }
}

/// A message sent by a session reaches the counterpart sessions on its
/// channel byte for byte: the next poll of each hands it over.
pub proof fn lemma_sent_message_delivered(
    v: RegistryView,
    generation: u64,
    role: Identity,
    ticket: u64,
    peer: u64,
    msg: Seq<u8>,
)
    requires
        session_on(v, generation, role, ticket),
        session_on(v, generation, counterpart_of(role), peer),
    ensures
        polled(after_send(v, generation, role, ticket, msg), generation, counterpart_of(role), peer) == Some(msg),
{
    assert(v.channels[generation].topic(counterpart_of(role)).subscribers.len() > 0);
}

/// Deleting a channel's id ends no session: two counterpart sessions that
/// were on it still exchange messages byte for byte, while the id names no
/// channel, so injection into it finds nothing and a connect opens a new
/// channel.
pub proof fn lemma_delete_keeps_sessions(
    v: RegistryView,
    id: Seq<char>,
    role: Identity,
    ticket: u64,
    peer: u64,
    msg: Seq<u8>,
    other: Identity,
    body: Seq<u8>,
    now: u64,
)
    requires
        v.has_id(id),
        session_on(v, v.ids[id], role, ticket),
        session_on(v, v.ids[id], counterpart_of(role), peer),
    ensures
        ({
            let g = v.ids[id];
            let d = after_delete(v, id);
            &&& !d.has_id(id)
            &&& session_on(d, g, role, ticket)
            &&& session_on(d, g, counterpart_of(role), peer)
            &&& polled(after_send(d, g, role, ticket, msg), g, counterpart_of(role), peer) == Some(msg)
            &&& after_inject(d, id, other, body) == d
            &&& channel_to_join(d, id, now) == fresh_channel(id, now)
        }),
{
    let d = after_delete(v, id);
    lemma_sent_message_delivered(d, v.ids[id], role, ticket, peer, msg);
}

/// When the producer sends two messages while no consumer is on the
/// channel, a consumer that joins afterwards is handed the second to
/// replay, and nothing else is pending for it.
pub proof fn lemma_late_consumer_replays_latest(
    v: RegistryView,
    id: Seq<char>,
    producer: u64,
    first: Seq<u8>,
    second: Seq<u8>,
    consumer: u64,
    now: u64,
)
    requires
        v.has_id(id),
        session_on(v, v.ids[id], Identity::Extension, producer),
        v.channel(id).browser.subscribers.len() == 0,
        v.channel(id).browser.wf(),
    ensures
        ({
            let g = v.ids[id];
            let sent = after_send(after_send(v, g, Identity::Extension, producer, first), g, Identity::Extension, producer, second);
            let joined = after_connect(sent, id, Identity::Browser, consumer, now);
            &&& replay_for(sent, id, Identity::Browser, now) == Some(second)
            &&& polled(joined, g, Identity::Browser, consumer) is None
        }),
{
    let g = v.ids[id];
    let once = after_send(v, g, Identity::Extension, producer, first);
    assert(session_on(once, g, Identity::Extension, producer));
    let sent = after_send(once, g, Identity::Extension, producer, second);
    let joined = after_connect(sent, id, Identity::Browser, consumer, now);
    let b = sent.channels[g].browser;
    assert(b == v.channels[g].browser);
    lemma_push_contains(b.subscribers, consumer, consumer);
    if b.unread.contains(consumer) {
        assert(b.subscribers.contains(consumer));
    }
    assert(session_on(joined, g, Identity::Browser, consumer));
}

/// Deleting an id twice is deleting it once, and the cleanup of a session
/// on a deleted channel never fails: it changes the channel as it would
/// have without the delete, and leaves the id unused.
pub proof fn lemma_delete_idempotent(v: RegistryView, id: Seq<char>, generation: u64, role: Identity, ticket: u64)
    requires
        forall|k: Seq<char>| #[trigger] v.ids.contains_key(k) ==> v.channels.contains_key(v.ids[k]) && v.channels[v.ids[k]].name == k,
    ensures
        after_delete(after_delete(v, id), id) == after_delete(v, id),
        after_disconnect(after_delete(v, id), generation, role, ticket).channels
            == after_disconnect(v, generation, role, ticket).channels,
        !after_disconnect(after_delete(v, id), generation, role, ticket).has_id(id),
{
    assert(after_delete(after_delete(v, id), id) =~~= after_delete(v, id));
}

/// Injecting into an id that names no channel changes nothing; injecting
/// into one where nobody reads the target topic changes nothing either:
/// the message is dropped.
pub proof fn lemma_unheard_injection_dropped(v: RegistryView, id: Seq<char>, role: Identity, msg: Seq<u8>)
    requires
        v.has_id(id) ==> v.channels.contains_key(v.ids[id]),
        !v.has_id(id) || v.channel(id).topic(counterpart_of(role)).subscribers.len() == 0,
    ensures
        after_inject(v, id, role, msg) == v,
{
    if v.has_id(id) {
        let c = v.channel(id);
        assert(c.injected(role, msg) =~~= c);
        assert(v.channels.insert(v.ids[id], c) =~= v.channels);
        assert(after_inject(v, id, role, msg) =~~= v);
    }
}

} // verus!
