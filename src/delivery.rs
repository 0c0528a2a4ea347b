//! Delivery from one session to its counterpart over any run of sends and
//! polls: the receiver is handed a subsequence of what was sent, in the
//! order it was sent, and is always handed the last message sent once it
//! polls after it.

use vstd::prelude::*;
use crate::identity::{counterpart_of, Identity};
use crate::registry::{after_poll, after_send, polled, session_on, RegistryView};
use crate::topic::{lemma_without_absent, lemma_without_present, pending, published, without, TopicView};

verus! {

/// The sender sends `msg` (`sends`), or the receiver polls.
pub struct ExchangeStep {
    pub sends: bool,
    pub msg: Seq<u8>,
}

/// The channels after `steps`, between the session of `role` with `ticket`
/// and the counterpart session `peer` on channel `generation`.
pub open spec fn run_exchange(
    v: RegistryView,
    generation: u64,
    role: Identity,
    ticket: u64,
    peer: u64,
    steps: Seq<ExchangeStep>,
) -> RegistryView
    decreases steps.len(),
{
    if steps.len() == 0 {
        v
    } else {
        let before = run_exchange(v, generation, role, ticket, peer, steps.drop_last());
        if steps.last().sends {
            after_send(before, generation, role, ticket, steps.last().msg)
        } else {
            after_poll(before, generation, counterpart_of(role), peer)
        }
    }
}

/// The messages sent during `steps`, in order.
pub open spec fn sent_messages(steps: Seq<ExchangeStep>) -> Seq<Seq<u8>>
    decreases steps.len(),
{
    if steps.len() == 0 {
        Seq::empty()
    } else if steps.last().sends {
        sent_messages(steps.drop_last()).push(steps.last().msg)
    } else {
        sent_messages(steps.drop_last())
    }
}

/// For each message the receiver was handed during `steps`, its position
/// among the messages sent.
pub open spec fn received_positions(
    v: RegistryView,
    generation: u64,
    role: Identity,
    ticket: u64,
    peer: u64,
    steps: Seq<ExchangeStep>,
) -> Seq<int>
    decreases steps.len(),
{
    if steps.len() == 0 {
        Seq::empty()
    } else {
        let prefix = steps.drop_last();
        let before = received_positions(v, generation, role, ticket, peer, prefix);
        if !steps.last().sends && polled(run_exchange(v, generation, role, ticket, peer, prefix), generation, counterpart_of(role), peer) is Some {
            before.push(sent_messages(prefix).len() - 1)
        } else {
            before
        }
    }
}

/// The messages the receiver was handed during `steps`, in order.
pub open spec fn received_messages(
    v: RegistryView,
    generation: u64,
    role: Identity,
    ticket: u64,
    peer: u64,
    steps: Seq<ExchangeStep>,
) -> Seq<Seq<u8>>
    decreases steps.len(),
{
    if steps.len() == 0 {
        Seq::empty()
    } else {
        let prefix = steps.drop_last();
        let before = received_messages(v, generation, role, ticket, peer, prefix);
        let handed = polled(run_exchange(v, generation, role, ticket, peer, prefix), generation, counterpart_of(role), peer);
        if !steps.last().sends && handed is Some {
            before.push(handed->0)
        } else {
            before
        }
    }
}

/// Whether the last step sent a message.
pub open spec fn ends_with_send(steps: Seq<ExchangeStep>) -> bool {
    steps.len() > 0 && steps.last().sends
}

proof fn lemma_topic_wf_after_poll(t: TopicView, ticket: u64)
    requires
        t.wf(),
    ensures
        t.after_poll(ticket).wf(),
        !t.after_poll(ticket).unread.contains(ticket),
{
    if t.unread.contains(ticket) {
        lemma_without_present(t.unread, ticket);
    } else {
        lemma_without_absent(t.unread, ticket);
    }
    let u = without(t.unread, ticket);
    assert forall|x: u64| #[trigger] u.contains(x) implies t.subscribers.contains(x) by {
        assert(t.unread.contains(x));
    }
}

/// What stays true along the run.
spec fn exchange_ok(
    v: RegistryView,
    generation: u64,
    role: Identity,
    ticket: u64,
    peer: u64,
    steps: Seq<ExchangeStep>,
) -> bool {
    let now = run_exchange(v, generation, role, ticket, peer, steps);
    let sent = sent_messages(steps);
    let pos = received_positions(v, generation, role, ticket, peer, steps);
    let got = received_messages(v, generation, role, ticket, peer, steps);
    let t = now.channels[generation].topic(counterpart_of(role));
    &&& session_on(now, generation, role, ticket)
    &&& session_on(now, generation, counterpart_of(role), peer)
    &&& t.wf()
    &&& (pending(t, peer) is Some) == ends_with_send(steps)
    &&& ends_with_send(steps) ==> t.latest == sent.last()
    &&& pos.len() == got.len()
    &&& forall|k: int| 0 <= k < pos.len() ==> 0 <= #[trigger] pos[k] < sent.len() && got[k] == sent[pos[k]]
    &&& forall|k: int, l: int| 0 <= k < l < pos.len() ==> #[trigger] pos[k] < #[trigger] pos[l]
    &&& ends_with_send(steps) ==> (pos.len() > 0 ==> pos.last() < sent.len() - 1)
    &&& !ends_with_send(steps) ==> (sent.len() > 0 ==> pos.len() > 0 && pos.last() == sent.len() - 1)
}

proof fn lemma_exchange_ok(
    v: RegistryView,
    generation: u64,
    role: Identity,
    ticket: u64,
    peer: u64,
    steps: Seq<ExchangeStep>,
)
    requires
        session_on(v, generation, role, ticket),
        session_on(v, generation, counterpart_of(role), peer),
        v.channels[generation].topic(counterpart_of(role)).wf(),
        polled(v, generation, counterpart_of(role), peer) is None,
    ensures
        exchange_ok(v, generation, role, ticket, peer, steps),
    decreases steps.len(),
{
    let cp = counterpart_of(role);
    if steps.len() == 0 {
        return;
    }
    let prefix = steps.drop_last();
    lemma_exchange_ok(v, generation, role, ticket, peer, prefix);
    let before = run_exchange(v, generation, role, ticket, peer, prefix);
    let now = run_exchange(v, generation, role, ticket, peer, steps);
    let t = before.channels[generation].topic(cp);
    let sent0 = sent_messages(prefix);
    let sent = sent_messages(steps);
    let pos0 = received_positions(v, generation, role, ticket, peer, prefix);
    let pos = received_positions(v, generation, role, ticket, peer, steps);
    let got0 = received_messages(v, generation, role, ticket, peer, prefix);
    let got = received_messages(v, generation, role, ticket, peer, steps);
    let c = steps.last();
    if c.sends {
        assert(now.channels == before.channels.insert(generation, before.channels[generation].sent(role, c.msg)));
        assert(t.subscribers.len() > 0);
        let t2 = now.channels[generation].topic(cp);
        assert(t2 == published(t, c.msg));
        assert(t2.unread == t.subscribers);
        assert(now.channels[generation].topic(role) == before.channels[generation].topic(role));
        assert(sent == sent0.push(c.msg));
        assert(pos == pos0);
        assert(got == got0);
        assert forall|k: int| 0 <= k < pos.len() implies 0 <= #[trigger] pos[k] < sent.len() && got[k] == sent[pos[k]] by {
            assert(sent[pos0[k]] == sent0[pos0[k]]);
        }
    } else {
        assert(now.channels == before.channels.insert(generation, before.channels[generation].polled_by(cp, peer)));
        lemma_topic_wf_after_poll(t, peer);
        assert(now.channels[generation].topic(cp) == t.after_poll(peer));
        assert(now.channels[generation].topic(role) == before.channels[generation].topic(role));
        assert(sent == sent0);
        if pending(t, peer) is Some {
            assert(pos == pos0.push(sent0.len() - 1));
            assert(got == got0.push(t.latest));
            assert forall|k: int| 0 <= k < pos.len() implies 0 <= #[trigger] pos[k] < sent.len() && got[k] == sent[pos[k]] by {
                if k < pos0.len() {
                    assert(pos[k] == pos0[k]);
                    assert(got[k] == got0[k]);
                }
            }
            assert forall|k: int, l: int| 0 <= k < l < pos.len() implies #[trigger] pos[k] < #[trigger] pos[l] by {
                assert(pos[k] == pos0[k]);
                if l < pos0.len() {
                    assert(pos[l] == pos0[l]);
                } else if pos0.len() > 0 {
                    assert(pos0[k] <= pos0.last());
                }
            }
        } else {
            assert(pos == pos0);
            assert(got == got0);
        }
    }
}

/// Over any run of sends by one session and polls by a counterpart
/// session on the same channel, starting with nothing pending for the
/// receiver: what the receiver is handed is a subsequence of the messages
/// sent, byte for byte and in the order they were sent; when the run ends
/// with a poll, the last message handed over is the last one sent, and when
/// it ends with a send, that message is pending.
pub proof fn lemma_delivery_in_order(
    v: RegistryView,
    generation: u64,
    role: Identity,
    ticket: u64,
    peer: u64,
    steps: Seq<ExchangeStep>,
)
    requires
        session_on(v, generation, role, ticket),
        session_on(v, generation, counterpart_of(role), peer),
        v.channels[generation].topic(counterpart_of(role)).wf(),
        polled(v, generation, counterpart_of(role), peer) is None,
    ensures
        ({
            let sent = sent_messages(steps);
            let pos = received_positions(v, generation, role, ticket, peer, steps);
            let got = received_messages(v, generation, role, ticket, peer, steps);
            &&& pos.len() == got.len()
            &&& forall|k: int| 0 <= k < pos.len() ==> 0 <= #[trigger] pos[k] < sent.len() && got[k] == sent[pos[k]]
            &&& forall|k: int, l: int| 0 <= k < l < pos.len() ==> #[trigger] pos[k] < #[trigger] pos[l]
            &&& !ends_with_send(steps) && sent.len() > 0 ==> got.len() > 0 && got.last() == sent.last()
            &&& ends_with_send(steps) ==> polled(run_exchange(v, generation, role, ticket, peer, steps), generation, counterpart_of(role), peer)
                == Some(sent.last())
        }),
{
    lemma_exchange_ok(v, generation, role, ticket, peer, steps);
    let sent = sent_messages(steps);
    let pos = received_positions(v, generation, role, ticket, peer, steps);
    let got = received_messages(v, generation, role, ticket, peer, steps);
    if !ends_with_send(steps) && sent.len() > 0 {
        assert(got[pos.len() - 1] == sent[pos[pos.len() - 1]]);
    }
}

} // verus!
