//! Connection accounting over any run of sessions joining and leaving one
//! channel: the channel's connection count is the number of sessions that
//! joined and have not left, and the channel exists exactly while that
//! number is above zero.

use vstd::prelude::*;
use crate::identity::Identity;
use crate::channel::fresh_channel;
use crate::registry::{after_connect, after_disconnect, session_on, RegistryView};
use crate::topic::{lemma_push_contains, lemma_push_no_duplicates, lemma_without_present};

verus! {

/// A session of `role` with `ticket` joins (`joins`) or leaves a channel.
#[derive(Debug, Clone, Copy, PartialEq, Eq, Structural)]
pub struct SessionChange {
    pub joins: bool,
    pub role: Identity,
    pub ticket: u64,
}

/// The channels after `changes`, in order, on channel `id`; joins happen at
/// `now`.
pub open spec fn run_changes(v: RegistryView, id: Seq<char>, changes: Seq<SessionChange>, now: u64) -> RegistryView
    decreases changes.len(),
{
    if changes.len() == 0 {
        v
    } else {
        let before = run_changes(v, id, changes.drop_last(), now);
        let c = changes.last();
        if c.joins {
            after_connect(before, id, c.role, c.ticket, now)
        } else {
            if before.has_id(id) {
                after_disconnect(before, before.ids[id], c.role, c.ticket)
            } else {
                before
            }
        }
    }
}

/// Whether the session of `role` with `ticket` joined during `changes` and
/// has not left since.
pub open spec fn is_live(changes: Seq<SessionChange>, role: Identity, ticket: u64) -> bool
    decreases changes.len(),
{
    if changes.len() == 0 {
        false
    } else if changes.last().role == role && changes.last().ticket == ticket {
        changes.last().joins
    } else {
        is_live(changes.drop_last(), role, ticket)
    }
}

/// How many sessions joined during `changes` and have not left since.
pub open spec fn live_count(changes: Seq<SessionChange>) -> nat
    decreases changes.len(),
{
    if changes.len() == 0 {
        0
    } else {
        let c = changes.last();
        let n = live_count(changes.drop_last());
        if c.joins {
            n + 1
        } else if is_live(changes.drop_last(), c.role, c.ticket) {
            (n - 1) as nat
        } else {
            n
        }
    }
}

/// Each joining session has a ticket that no earlier change names.
pub open spec fn fresh_tickets(changes: Seq<SessionChange>) -> bool {
    forall|i: int, j: int|
        0 <= j < i < changes.len() && (#[trigger] changes[i]).joins ==> (#[trigger] changes[j]).ticket != changes[i].ticket
}

/// Only a ticket that some change names can be live.
proof fn lemma_live_named(changes: Seq<SessionChange>, role: Identity, ticket: u64)
    requires
        is_live(changes, role, ticket),
    ensures
        exists|j: int| 0 <= j < changes.len() && (#[trigger] changes[j]).ticket == ticket,
    decreases changes.len(),
{
    if changes.last().role == role && changes.last().ticket == ticket {
        assert(changes[changes.len() - 1].ticket == ticket);
    } else {
        lemma_live_named(changes.drop_last(), role, ticket);
        let j = choose|j: int| 0 <= j < changes.drop_last().len() && (#[trigger] changes.drop_last()[j]).ticket == ticket;
        assert(changes[j].ticket == ticket);
    }
}

/// What holds of channel `id` after `changes`.
pub open spec fn accounted(v: RegistryView, id: Seq<char>, changes: Seq<SessionChange>) -> bool {
    &&& v.has_id(id) <==> live_count(changes) > 0
    &&& v.has_id(id) ==> {
        &&& v.channels.contains_key(v.ids[id])
        &&& v.channel(id).name == id
        &&& v.channel(id).connections() == live_count(changes)
        &&& v.channel(id).extension.subscribers.no_duplicates()
        &&& v.channel(id).browser.subscribers.no_duplicates()
        &&& forall|t: u64| !(#[trigger] v.channel(id).extension.subscribers.contains(t) && v.channel(id).browser.subscribers.contains(t))
        &&& forall|role: Identity, t: u64| #[trigger] v.channel(id).topic(role).subscribers.contains(t) <==> is_live(changes, role, t)
    }
    &&& !v.has_id(id) ==> forall|role: Identity, t: u64| !#[trigger] is_live(changes, role, t)
}

/// For any run of joins and leaves on a channel that did not exist, with a
/// fresh ticket for each joining session: the channel exists exactly while
/// some session that joined has not left, its connection count is the
/// number of those sessions, and its sessions are exactly those.
pub proof fn lemma_connection_count_matches_sessions(
    v: RegistryView,
    id: Seq<char>,
    changes: Seq<SessionChange>,
    now: u64,
)
    requires
        !v.has_id(id),
        fresh_tickets(changes),
    ensures
        accounted(run_changes(v, id, changes, now), id, changes),
    decreases changes.len(),
{
    if changes.len() == 0 {
        return;
    }
    let prefix = changes.drop_last();
    assert(fresh_tickets(prefix)) by {
        assert forall|i: int, j: int|
            0 <= j < i < prefix.len() && (#[trigger] prefix[i]).joins implies (#[trigger] prefix[j]).ticket != prefix[i].ticket by {
            assert(prefix[i] == changes[i]);
            assert(prefix[j] == changes[j]);
        }
    }
    lemma_connection_count_matches_sessions(v, id, prefix, now);
    let before = run_changes(v, id, prefix, now);
    let after = run_changes(v, id, changes, now);
    let c = changes.last();
    let n = live_count(prefix);
    if c.joins {
        assert forall|role: Identity| !#[trigger] is_live(prefix, role, c.ticket) by {
            if is_live(prefix, role, c.ticket) {
                lemma_live_named(prefix, role, c.ticket);
                let j = choose|j: int| 0 <= j < prefix.len() && (#[trigger] prefix[j]).ticket == c.ticket;
                assert(changes[j] == prefix[j]);
                assert(changes[changes.len() - 1] == c);
            }
        }
        let base = if before.has_id(id) { before.channel(id) } else { fresh_channel(id, now) };
        let e = after.channel(id);
        assert(e == base.joined(c.role, c.ticket));
        let s = base.topic(c.role).subscribers;
        assert(!s.contains(c.ticket)) by {
            if before.has_id(id) {
                assert(!is_live(prefix, c.role, c.ticket));
            }
        }
        assert forall|t: u64| #[trigger] s.push(c.ticket).contains(t) <==> (s.contains(t) || t == c.ticket) by {
            lemma_push_contains(s, c.ticket, t);
        }
        if before.has_id(id) {
            lemma_push_no_duplicates(s, c.ticket);
        }
        assert(!before.has_id(id) ==> n == 0);
        assert(base.connections() == n);
        assert(e.connections() == n + 1);
        assert(base.extension.subscribers.no_duplicates() && base.browser.subscribers.no_duplicates());
        assert forall|role: Identity, t: u64| #[trigger] e.topic(role).subscribers.contains(t) <==> is_live(changes, role, t) by {
            if role == c.role {
                assert(e.topic(role).subscribers == s.push(c.ticket));
                if before.has_id(id) {
                    assert(s.contains(t) == is_live(prefix, role, t));
                } else {
                    assert(!is_live(prefix, role, t));
                    assert(!s.contains(t));
                }
            } else {
                assert(e.topic(role) == base.topic(role));
                if !before.has_id(id) {
                    assert(!is_live(prefix, role, t));
                    assert(!base.topic(role).subscribers.contains(t));
                }
                if t == c.ticket {
                    assert(!is_live(prefix, role, t));
                    if before.has_id(id) {
                        assert(!before.channel(id).topic(role).subscribers.contains(t));
                    }
                }
            }
        }
        assert forall|t: u64| !(#[trigger] e.extension.subscribers.contains(t) && e.browser.subscribers.contains(t)) by {
            assert(e.topic(Identity::Extension).subscribers.contains(t) == is_live(changes, Identity::Extension, t));
            assert(e.topic(Identity::Browser).subscribers.contains(t) == is_live(changes, Identity::Browser, t));
            if t == c.ticket {
                assert(!is_live(prefix, crate::identity::counterpart_of(c.role), t));
            } else {
                assert(is_live(changes, Identity::Extension, t) == is_live(prefix, Identity::Extension, t));
                assert(is_live(changes, Identity::Browser, t) == is_live(prefix, Identity::Browser, t));
                if before.has_id(id) {
                    assert(before.channel(id).topic(Identity::Extension).subscribers.contains(t) == is_live(prefix, Identity::Extension, t));
                    assert(before.channel(id).topic(Identity::Browser).subscribers.contains(t) == is_live(prefix, Identity::Browser, t));
                }
            }
        }
        assert(live_count(changes) == n + 1);
        assert(after.has_id(id));
        assert(e.extension.subscribers.no_duplicates());
        assert(e.browser.subscribers.no_duplicates());
        assert(accounted(after, id, changes));
    } else {
        if before.has_id(id) && session_on(before, before.ids[id], c.role, c.ticket) {
            let e = before.channel(id);
            let s = e.topic(c.role).subscribers;
            assert(is_live(prefix, c.role, c.ticket));
            lemma_without_present(s, c.ticket);
            if e.connections() == 1 {
                assert(!after.has_id(id));
                assert(n == 1);
                assert(live_count(changes) == 0);
                assert forall|role: Identity, t: u64| !#[trigger] is_live(changes, role, t) by {
                    if !(role == c.role && t == c.ticket) {
                        if is_live(prefix, role, t) {
                            assert(e.topic(role).subscribers.contains(t));
                            let other = crate::identity::counterpart_of(c.role);
                            if role == c.role {
                                assert(s.len() == 1);
                                let j = choose|j: int| 0 <= j < s.len() && s[j] == t;
                                let k = choose|k: int| 0 <= k < s.len() && s[k] == c.ticket;
                            } else {
                                assert(e.topic(other).subscribers.len() == 0);
                                let j = choose|j: int| 0 <= j < e.topic(role).subscribers.len() && e.topic(role).subscribers[j] == t;
                            }
                        }
                    }
                }
            } else {
                let e2 = e.left(c.role, c.ticket);
                assert(after.channel(id) == e2);
                assert forall|role: Identity, t: u64| #[trigger] e2.topic(role).subscribers.contains(t) <==> is_live(changes, role, t) by {
                    if role == c.role {
                        assert(e2.topic(role).subscribers == crate::topic::without(s, c.ticket));
                    } else {
                        assert(e2.topic(role) == e.topic(role));
                    }
                }
                assert forall|t: u64| !(#[trigger] e2.extension.subscribers.contains(t) && e2.browser.subscribers.contains(t)) by {
                    assert(e2.extension.subscribers.contains(t) ==> e.extension.subscribers.contains(t));
                    assert(e2.browser.subscribers.contains(t) ==> e.browser.subscribers.contains(t));
                }
                assert(accounted(after, id, changes));
            }
        } else {
            assert(after == before);
            assert(!is_live(prefix, c.role, c.ticket));
            assert forall|role: Identity, t: u64| is_live(changes, role, t) == #[trigger] is_live(prefix, role, t) by {}
            assert(live_count(changes) == n);
            if after.has_id(id) {
                assert forall|role: Identity, t: u64| #[trigger] after.channel(id).topic(role).subscribers.contains(t) <==> is_live(changes, role, t) by {
                    assert(is_live(changes, role, t) == is_live(prefix, role, t));
                }
            } else {
                assert forall|role: Identity, t: u64| !#[trigger] is_live(changes, role, t) by {
                    assert(is_live(changes, role, t) == is_live(prefix, role, t));
                }
            }
            assert(accounted(after, id, changes));
        }
    }
}

} // verus!
