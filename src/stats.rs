//! Usage records collected between two submissions to the analytics sink.
//! Records are appended as they come in; a flush takes the whole batch at
//! once and leaves an empty one, so that recording never waits on a
//! submission.

use vstd::prelude::*;

verus! {

/// What a client reports about one call.
#[derive(Debug, PartialEq, Eq)]
pub struct CallRecord {
    /// Length of the call, in seconds.
    pub duration: u32,
    pub result: Option<String>,
}

/// One recorded event: the session that reported it and when.
#[derive(Debug, PartialEq, Eq)]
pub struct EventRecord {
    pub session_id: String,
    /// Nanoseconds since the Unix epoch, UTC.
    pub timestamp_nanos: i128,
}

/// One recorded call.
#[derive(Debug, PartialEq, Eq)]
pub struct CallEvent {
    pub call: CallRecord,
    pub record: EventRecord,
}

/// A batch of calls and texts awaiting submission.
#[derive(Debug)]
pub struct StatsBatch {
    pub calls: Vec<CallEvent>,
    pub texts: Vec<EventRecord>,
}

impl StatsBatch {
    /// An empty batch.
    pub fn new() -> (r: StatsBatch)
        ensures
            r.calls@.len() == 0,
            r.texts@.len() == 0,
    {
        StatsBatch { calls: Vec::new(), texts: Vec::new() }
    }

    /// Whether nothing is waiting.
    pub fn is_empty(&self) -> (r: bool)
        ensures
            r == (self.calls@.len() == 0 && self.texts@.len() == 0),
    {
        self.calls.len() == 0 && self.texts.len() == 0
    }

    /// Appends a call.
    pub fn record_call(&mut self, e: CallEvent)
        ensures
            final(self).calls@ == old(self).calls@.push(e),
            final(self).texts@ == old(self).texts@,
    {
        self.calls.push(e);
    }

    /// Appends a text.
    pub fn record_text(&mut self, e: EventRecord)
        ensures
            final(self).texts@ == old(self).texts@.push(e),
            final(self).calls@ == old(self).calls@,
    {
        self.texts.push(e);
    }

    /// Takes everything recorded so far, in the order it was recorded, and
    /// leaves the batch empty.
    pub fn take(&mut self) -> (r: StatsBatch)
        ensures
            r.calls@ == old(self).calls@,
            r.texts@ == old(self).texts@,
            final(self).calls@.len() == 0,
            final(self).texts@.len() == 0,
    {
        let mut taken = StatsBatch::new();
        core::mem::swap(self, &mut taken);
        taken
    }
}

} // verus!
