//! Ordered number streams: every stream of the pipeline carries the numbers
//! 0, 1, 2, ... in order, and each consumer checks that it does.
use vstd::prelude::*;

verus! {

/// The value that the publisher sends on a stream after its last number to
/// ask the subscriber to shut down.
pub const SHUTDOWN_SIGNAL: u64 = 0xffff_ffff_ffff_ffff;

/// A number that arrived out of order: `got` stood where `expected` was due.
#[derive(Clone, Copy, Debug, PartialEq, Eq, Structural)]
pub struct SequenceError {
    pub expected: u64,
    pub got: u64,
}

/// `s` holds `start`, `start + 1`, ... in order.
pub open spec fn in_sequence(s: Seq<u64>, start: int) -> bool {
    forall|k: int| 0 <= k < s.len() ==> s[k] == start + k
}

/// `e` reports the first place where `s` leaves the sequence that starts at
/// `start`.
pub open spec fn first_break(s: Seq<u64>, start: int, e: SequenceError) -> bool {
    let k = e.expected - start;
    &&& 0 <= k < s.len()
    &&& s[k] == e.got
    &&& e.got != e.expected
    &&& in_sequence(s.take(k), start)
}

/// A sequence leaves the sequence from `start` at most at one first place.
pub proof fn lemma_first_break_unique(s: Seq<u64>, start: int, e1: SequenceError, e2: SequenceError)
    requires
        first_break(s, start, e1),
        first_break(s, start, e2),
    ensures
        e1 == e2,
{
    let k1 = e1.expected - start;
    let k2 = e2.expected - start;
    if k1 < k2 {
        assert(s.take(k2)[k1] == s[k1]);
    } else if k2 < k1 {
        assert(s.take(k1)[k2] == s[k2]);
    }
}

} // verus!
