//! The event log shown to the operator: a bounded list of messages, newest first.

use vstd::prelude::*;

verus! {

/// How many messages the log keeps.
pub const LOG_CAPACITY: usize = 200;

/// The most recent messages, newest first.
pub struct EventLog {
    pub entries: std::collections::VecDeque<String>,
}

impl View for EventLog {
    type V = Seq<Seq<char>>;

    open spec fn view(&self) -> Seq<Seq<char>> {
        self.entries@.map_values(|s: String| s@)
    }
}

impl EventLog {
    pub open spec fn wf(&self) -> bool {
        self@.len() <= LOG_CAPACITY
    }

    pub fn new() -> (r: EventLog)
        ensures
            r.wf(),
            r@.len() == 0,
    {
        EventLog { entries: std::collections::VecDeque::new() }
    }

    /// Adds `msg` as the newest message, dropping the oldest one when full.
    pub fn push(&mut self, msg: String)
        requires
            old(self).wf(),
        ensures
            final(self).wf(),
            final(self)@ == (seq![msg@] + old(self)@).subrange(
                0,
                if old(self)@.len() < LOG_CAPACITY { (old(self)@.len() + 1) as int } else { LOG_CAPACITY as int },
            ),
    {
        let ghost before = self@;
        let ghost m = msg@;
        self.entries.push_front(msg);
        assert(self@ =~= seq![m] + before);
        if self.entries.len() > LOG_CAPACITY {
            self.entries.pop_back();
            assert(self@ =~= (seq![m] + before).subrange(0, LOG_CAPACITY as int));
        } else {
            assert(self@ =~= (seq![m] + before).subrange(0, (before.len() + 1) as int));
        }
    }
}

/// The last position a cursor can take in the log: its number of messages.
pub fn get_cursor_bound(log: &EventLog) -> (r: usize)
    ensures
        r == log@.len(),
{
    log.entries.len()
}

} // verus!
