//! The logger of the subscriber: it counts the messages it receives and
//! logs only the first ones.
use vstd::prelude::*;
use crate::worker::FizzBuzzMessage;

verus! {

/// Messages are logged while fewer than this many were counted.
pub const LOG_LIMIT: u64 = 100;

/// The count of messages the logger has woken up for.
pub struct LoggerState {
    pub count: u64,
}

impl LoggerState {
    /// A logger that has seen nothing yet.
    pub fn new() -> (s: LoggerState)
        ensures
            s.count == 0,
    {
        LoggerState { count: 0 }
    }

    /// Counts one more wake-up for a message, and says which message, if
    /// any, is to be logged: the message `taken` from the channel, while
    /// fewer than `LOG_LIMIT` wake-ups were counted.
    pub fn on_message(&mut self, taken: Option<FizzBuzzMessage>) -> (logged: Option<
        FizzBuzzMessage,
    >)
        requires
            old(self).count < u64::MAX,
        ensures
            final(self).count == old(self).count + 1,
            logged == (if final(self).count < LOG_LIMIT {
                taken
            } else {
                None
            }),
    {
        self.count = self.count + 1;
        if self.count < LOG_LIMIT {
            taken
        } else {
            None
        }
    }
}

} // verus!
