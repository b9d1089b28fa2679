//! Run parameters shared by both pods.
use vstd::prelude::*;

verus! {

/// The run parameters: the heartbeat period and the number of heartbeats.
#[derive(Clone, Debug, PartialEq, Eq, Structural)]
pub struct MainArg {
    /// Period between heartbeats (the heartbeat actor reads it in
    /// microseconds).
    pub rate_ms: u64,
    /// Number of heartbeats in a run.
    pub beats: u64,
}

impl Default for MainArg {
    fn default() -> (a: MainArg)
        ensures
            a.rate_ms == 100,
            a.beats == 6000,
    {
        MainArg { rate_ms: 100, beats: 6000 }
    }
}

} // verus!
