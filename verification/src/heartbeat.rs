//! The heartbeat of the publisher: it counts the beats it has sent and,
//! after the last one, sends the shutdown signal and stops.
use vstd::prelude::*;

verus! {

/// The beat counter. Kept in persistent actor state, so that a restarted
/// actor goes on where it stopped.
pub struct HeartbeatState {
    pub count: u64,
}

impl HeartbeatState {
    /// A counter that has sent nothing yet.
    pub fn new() -> (s: HeartbeatState)
        ensures
            s.count == 0,
    {
        HeartbeatState { count: 0 }
    }

    /// The value of the next beat to send.
    pub fn next_beat(&self) -> (v: u64)
        ensures
            v == self.count,
    {
        self.count
    }

    /// Records that the beat `self.count` was sent. Returns whether it was
    /// the last of `beats`: then the shutdown signal follows and the
    /// heartbeat requests shutdown.
    pub fn record_beat(&mut self, beats: u64) -> (done: bool)
        requires
            old(self).count < u64::MAX,
        ensures
            final(self).count == old(self).count + 1,
            done == (final(self).count == beats),
    {
        self.count = self.count + 1;
        beats == self.count
    }
}

} // verus!
