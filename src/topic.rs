//! A lossy single-slot broadcast: each subscriber is handed the newest value
//! published since it last looked, and nothing older.

use vstd::prelude::*;

verus! {

/// The abstract state of a topic.
#[verifier::ext_equal]
pub struct TopicView {
    /// The newest value published while someone was subscribed.
    pub latest: Seq<u8>,
    /// The tickets of the open subscriptions, in the order they were opened.
    pub subscribers: Seq<u64>,
    /// The subscriptions that have not been handed `latest` yet.
    pub unread: Seq<u64>,
}

/// A "latest value" cell with a mark per subscriber.
///
/// A publish with no subscriber is discarded. A publish with subscribers
/// replaces the held value and marks every subscriber as not having seen
/// it, so a subscriber that has not looked since sees only the newest one.
pub struct Topic {
    latest: Vec<u8>,
    subscribers: Vec<u64>,
    unread: Vec<u64>,
}

/// What a publish of `msg` does to a topic.
pub open spec fn published(t: TopicView, msg: Seq<u8>) -> TopicView {
    if t.subscribers.len() == 0 {
        t
    } else {
        TopicView { latest: msg, unread: t.subscribers, ..t }
    }
}

/// What the subscription `ticket` is handed when it looks at `t`.
pub open spec fn pending(t: TopicView, ticket: u64) -> Option<Seq<u8>> {
    if t.unread.contains(ticket) {
        Some(t.latest)
    } else {
        None
    }
}

/// `s` with every occurrence of `x` taken out.
pub open spec fn without(s: Seq<u64>, x: u64) -> Seq<u64> {
    s.filter(|y: u64| y != x)
}

impl TopicView {
    /// No ticket is subscribed twice, and only subscriptions are unread.
    pub open spec fn wf(self) -> bool {
        &&& self.subscribers.no_duplicates()
        &&& self.unread.no_duplicates()
        &&& forall|t: u64| #[trigger] self.unread.contains(t) ==> self.subscribers.contains(t)
    }

    /// The topic after the subscription `ticket` was closed.
    pub open spec fn after_unsubscribe(self, ticket: u64) -> TopicView {
        TopicView { subscribers: without(self.subscribers, ticket), unread: without(self.unread, ticket), ..self }
    }

    /// The topic after the subscription `ticket` looked at it.
    pub open spec fn after_poll(self, ticket: u64) -> TopicView {
        TopicView { unread: without(self.unread, ticket), ..self }
    }
}

impl View for Topic {
    type V = TopicView;

    closed spec fn view(&self) -> TopicView {
        TopicView { latest: self.latest@, subscribers: self.subscribers@, unread: self.unread@ }
    }
}

/// Taking out a value that is not there changes nothing.
pub proof fn lemma_without_absent(s: Seq<u64>, x: u64)
    requires
        !s.contains(x),
    ensures
        without(s, x) == s,
    decreases s.len(),
{
    reveal(Seq::filter);
    if s.len() > 0 {
        lemma_without_absent(s.drop_last(), x);
        assert(s.drop_last().push(s.last()) =~= s);
    }
}

/// Taking out the value at `i`, where it occurs only there.
proof fn lemma_without_at(s: Seq<u64>, i: int)
    requires
        s.no_duplicates(),
        0 <= i < s.len(),
    ensures
        without(s, s[i]) == s.remove(i),
    decreases s.len(),
{
    reveal(Seq::filter);
    let x = s[i];
    if i == s.len() - 1 {
        assert(!s.drop_last().contains(x)) by {
            if s.drop_last().contains(x) {
                let j = choose|j: int| 0 <= j < s.drop_last().len() && s.drop_last()[j] == x;
                assert(s[j] == s[i]);
            }
        }
        lemma_without_absent(s.drop_last(), x);
        assert(s.remove(i) =~= s.drop_last());
    } else {
        assert(s.drop_last().no_duplicates());
        lemma_without_at(s.drop_last(), i);
        assert(s.last() != x);
        assert(s.drop_last().remove(i).push(s.last()) =~= s.remove(i));
    }
}

/// Taking a value out of a sequence without duplicates: the length drops by
/// one, no duplicate appears, and every other value stays.
pub proof fn lemma_without_present(s: Seq<u64>, x: u64)
    requires
        s.no_duplicates(),
        s.contains(x),
    ensures
        without(s, x).len() == s.len() - 1,
        without(s, x).no_duplicates(),
        !without(s, x).contains(x),
        forall|y: u64| y != x ==> (#[trigger] without(s, x).contains(y) <==> s.contains(y)),
{
    let i = choose|i: int| 0 <= i < s.len() && s[i] == x;
    lemma_without_at(s, i);
    let r = s.remove(i);
    assert forall|a: int, b: int| 0 <= a < b < r.len() implies r[a] != r[b] by {
        let a2 = if a < i { a } else { a + 1 };
        let b2 = if b < i { b } else { b + 1 };
        assert(r[a] == s[a2]);
        assert(r[b] == s[b2]);
    }
    assert forall|y: u64| y != x implies (#[trigger] r.contains(y) <==> s.contains(y)) by {
        if s.contains(y) {
            let j = choose|j: int| 0 <= j < s.len() && s[j] == y;
            let k = if j < i { j } else { j - 1 };
            assert(r[k] == y);
        }
        if r.contains(y) {
            let j = choose|j: int| 0 <= j < r.len() && r[j] == y;
            let k = if j < i { j } else { j + 1 };
            assert(s[k] == y);
        }
    }
    if r.contains(x) {
        let j = choose|j: int| 0 <= j < r.len() && r[j] == x;
        let k = if j < i { j } else { j + 1 };
        assert(s[k] == s[i]);
    }
}

/// A value is in `s` with `x` pushed exactly when it is `x` or was in `s`.
pub proof fn lemma_push_contains(s: Seq<u64>, x: u64, t: u64)
    ensures
        s.push(x).contains(t) <==> (s.contains(t) || t == x),
{
    if s.push(x).contains(t) && t != x {
        let j = choose|j: int| 0 <= j < s.push(x).len() && s.push(x)[j] == t;
        assert(s[j] == t);
    }
    if s.contains(t) {
        let j = choose|j: int| 0 <= j < s.len() && s[j] == t;
        assert(s.push(x)[j] == t);
    }
    if t == x {
        assert(s.push(x)[s.len() as int] == t);
    }
}

/// Pushing a value that is not there keeps a sequence free of duplicates.
pub proof fn lemma_push_no_duplicates(s: Seq<u64>, x: u64)
    requires
        s.no_duplicates(),
        !s.contains(x),
    ensures
        s.push(x).no_duplicates(),
{
    assert forall|a: int, b: int| 0 <= a < b < s.push(x).len() implies s.push(x)[a] != s.push(x)[b] by {
        if b == s.len() {
            assert(s.contains(s[a]));
        } else {
            assert(s[a] == s.push(x)[a]);
            assert(s[b] == s.push(x)[b]);
        }
    }
}

/// Takes `x` out of `v`. Returns whether it was there.
fn remove_ticket(v: &mut Vec<u64>, x: u64) -> (r: bool)
    requires
        old(v)@.no_duplicates(),
    ensures
        r == old(v)@.contains(x),
        final(v)@ == without(old(v)@, x),
        final(v)@.no_duplicates(),
        !final(v)@.contains(x),
        final(v)@.len() == old(v)@.len() - (if r { 1int } else { 0int }),
        forall|y: u64| y != x ==> (#[trigger] final(v)@.contains(y) <==> old(v)@.contains(y)),
{
    let ghost s = v@;
    let mut i: usize = 0;
    while i < v.len()
        invariant
            v@ == s,
            s == old(v)@,
            s.no_duplicates(),
            i <= s.len(),
            forall|j: int| 0 <= j < i ==> s[j] != x,
        decreases s.len() - i,
    {
        if v[i] == x {
            v.remove(i);
            proof {
                lemma_without_at(s, i as int);
                lemma_without_present(s, x);
            }
            return true;
        }
        i = i + 1;
    }
    proof {
        assert(!s.contains(x));
        lemma_without_absent(s, x);
    }
    false
}

impl Topic {
    /// A topic with no subscriber and nothing published.
    pub fn new() -> (r: Topic)
        ensures
            r@.subscribers.len() == 0,
            r@.unread.len() == 0,
            r@.latest.len() == 0,
    {
        Topic { latest: Vec::new(), subscribers: Vec::new(), unread: Vec::new() }
    }

    /// A copy of the topic.
    pub fn duplicate(&self) -> (r: Topic)
        ensures
            r@ == self@,
    {
        Topic { latest: self.latest.clone(), subscribers: self.subscribers.clone(), unread: self.unread.clone() }
    }

    /// How many subscriptions are open.
    pub fn subscriber_count(&self) -> (r: usize)
        ensures
            r == self@.subscribers.len(),
    {
        self.subscribers.len()
    }

    /// Whether the subscription `ticket` is open.
    pub fn is_subscribed(&self, ticket: u64) -> (r: bool)
        ensures
            r == self@.subscribers.contains(ticket),
    {
        let mut i: usize = 0;
        while i < self.subscribers.len()
            invariant
                i <= self.subscribers@.len(),
                forall|j: int| 0 <= j < i ==> self.subscribers@[j] != ticket,
            decreases self.subscribers@.len() - i,
        {
            if self.subscribers[i] == ticket {
                return true;
            }
            i = i + 1;
        }
        false
    }

    /// Opens the subscription `ticket`, which sees only values published
    /// after this call.
    pub fn subscribe(&mut self, ticket: u64)
        requires
            old(self)@.wf(),
            !old(self)@.subscribers.contains(ticket),
        ensures
            final(self)@ == (TopicView { subscribers: old(self)@.subscribers.push(ticket), ..old(self)@ }),
            final(self)@.wf(),
            pending(final(self)@, ticket) is None,
    {
        self.subscribers.push(ticket);
        proof {
            lemma_push_no_duplicates(old(self)@.subscribers, ticket);
            assert forall|t: u64| #[trigger] self@.unread.contains(t) implies self@.subscribers.contains(t) by {
                lemma_push_contains(old(self)@.subscribers, ticket, t);
            }
        }
    }

    /// Closes the subscription `ticket`. Returns whether it was open; if it
    /// was not, nothing changes.
    pub fn unsubscribe(&mut self, ticket: u64) -> (r: bool)
        requires
            old(self)@.wf(),
        ensures
            r == old(self)@.subscribers.contains(ticket),
            final(self)@ == old(self)@.after_unsubscribe(ticket),
            final(self)@.wf(),
            final(self)@.subscribers.len() == old(self)@.subscribers.len() - (if r { 1int } else { 0int }),
            !final(self)@.subscribers.contains(ticket),
            forall|t: u64| t != ticket ==> (final(self)@.subscribers.contains(t) <==> old(self)@.subscribers.contains(t)),
    {
        let r = remove_ticket(&mut self.subscribers, ticket);
        remove_ticket(&mut self.unread, ticket);
        r
    }

    /// Publishes `msg`. Returns whether it was kept, that is whether anyone
    /// was subscribed; without a subscriber it is dropped.
    pub fn publish(&mut self, msg: Vec<u8>) -> (r: bool)
        requires
            old(self)@.wf(),
        ensures
            final(self)@ == published(old(self)@, msg@),
            final(self)@.wf(),
            r == (old(self)@.subscribers.len() > 0),
    {
        if self.subscribers.len() == 0 {
            false
        } else {
            self.latest = msg;
            self.unread = self.subscribers.clone();
            true
        }
    }

    /// Hands the subscription `ticket` the newest value if it has not seen
    /// it, and marks it as seen.
    pub fn poll(&mut self, ticket: u64) -> (r: Option<Vec<u8>>)
        requires
            old(self)@.wf(),
        ensures
            match r {
                Some(v) => pending(old(self)@, ticket) == Some(v@),
                None => pending(old(self)@, ticket) is None,
            },
            final(self)@ == old(self)@.after_poll(ticket),
            final(self)@.wf(),
    {
        if remove_ticket(&mut self.unread, ticket) {
            Some(self.latest.clone())
        } else {
            None
        }
    }
}

} // verus!
