//! The worker of the subscriber: for each heartbeat it takes a batch of
//! generated numbers, checks that they continue the sequence, and turns
//! each into a FizzBuzz message.
use vstd::prelude::*;
use crate::sequence::{SequenceError, in_sequence, first_break};

verus! {

/// Capacity of the generator and logger channels.
pub const CHANNEL_CAPACITY: usize = 2_000_000;

/// The largest number of values processed per heartbeat.
pub const VALUES_PER_HEARTBEAT: u64 = 1_000_000;

/// The FizzBuzz message for one number.
#[derive(Clone, Copy, Debug, PartialEq, Eq, Structural)]
pub enum FizzBuzzMessage {
    /// The number is divisible by 15.
    FizzBuzz,
    /// The number is divisible by 3 and not by 5.
    Fizz,
    /// The number is divisible by 5 and not by 3.
    Buzz,
    /// The number is divisible by neither 3 nor 5.
    Value(u64),
}

/// The FizzBuzz message for `value`.
pub open spec fn fizzbuzz_of(value: u64) -> FizzBuzzMessage {
    if value % 3 == 0 && value % 5 == 0 {
        FizzBuzzMessage::FizzBuzz
    } else if value % 3 == 0 {
        FizzBuzzMessage::Fizz
    } else if value % 5 == 0 {
        FizzBuzzMessage::Buzz
    } else {
        FizzBuzzMessage::Value(value)
    }
}

/// The FizzBuzz rule: a number divisible by 15 gives `FizzBuzz`, one
/// divisible by 3 and not by 5 gives `Fizz`, one divisible by 5 and not by
/// 3 gives `Buzz`, and any other number gives itself.
pub proof fn lemma_fizzbuzz_rule(value: u64)
    ensures
        value % 15 == 0 ==> fizzbuzz_of(value) == FizzBuzzMessage::FizzBuzz,
        value % 3 == 0 && value % 5 != 0 ==> fizzbuzz_of(value) == FizzBuzzMessage::Fizz,
        value % 5 == 0 && value % 3 != 0 ==> fizzbuzz_of(value) == FizzBuzzMessage::Buzz,
        value % 3 != 0 && value % 5 != 0 ==> fizzbuzz_of(value) == FizzBuzzMessage::Value(value),
        (value % 15 == 0) == (value % 3 == 0 && value % 5 == 0),
{
    assert((value % 15 == 0) == (value % 3 == 0 && value % 5 == 0)) by (nonlinear_arith);
}

impl Default for FizzBuzzMessage {
    fn default() -> (m: FizzBuzzMessage)
        ensures
            m == FizzBuzzMessage::FizzBuzz,
    {
        FizzBuzzMessage::FizzBuzz
    }
}

impl FizzBuzzMessage {
    /// The FizzBuzz message for `value`, chosen by its remainder modulo 15.
    pub fn new(value: u64) -> (m: FizzBuzzMessage)
        ensures
            m == fizzbuzz_of(value),
            value % 15 == 0 ==> m == FizzBuzzMessage::FizzBuzz,
            value % 3 == 0 && value % 5 != 0 ==> m == FizzBuzzMessage::Fizz,
            value % 5 == 0 && value % 3 != 0 ==> m == FizzBuzzMessage::Buzz,
            value % 3 != 0 && value % 5 != 0 ==> m == FizzBuzzMessage::Value(value),
    {
        let r = value % 15;
        proof {
            assert(value % 3 == r % 3 && value % 5 == r % 5) by (nonlinear_arith)
                requires
                    r == value % 15,
            ;
        }
        match r {
            0 => FizzBuzzMessage::FizzBuzz,
            3 => FizzBuzzMessage::Fizz,
            5 => FizzBuzzMessage::Buzz,
            6 => FizzBuzzMessage::Fizz,
            9 => FizzBuzzMessage::Fizz,
            10 => FizzBuzzMessage::Buzz,
            12 => FizzBuzzMessage::Fizz,
            _ => FizzBuzzMessage::Value(value),
        }
    }
}

/// Worker progress. Kept in persistent actor state, so that a restarted
/// actor goes on where it stopped.
#[derive(Clone, Copy, Debug, PartialEq, Eq, Structural)]
pub struct WorkerState {
    /// Heartbeats (batches) processed.
    pub heartbeats_processed: u64,
    /// Numbers processed.
    pub values_processed: u64,
    /// The next number due.
    pub audit_position: u64,
}

/// What one batch gives, before it is committed.
pub struct WorkerBatch {
    /// One message per number of the batch, in order.
    pub messages: Vec<FizzBuzzMessage>,
    /// The worker state once the messages have been sent.
    pub next: WorkerState,
    /// Whether all the numbers that the publisher sends have then been
    /// processed, so that the worker requests shutdown.
    pub request_shutdown: bool,
}

/// The number of values the publisher sends over a run of `beats`
/// heartbeats.
pub fn expected_total(beats: u64) -> (total: u64)
    requires
        beats * VALUES_PER_HEARTBEAT <= u64::MAX,
    ensures
        total == beats * VALUES_PER_HEARTBEAT,
{
    beats * VALUES_PER_HEARTBEAT
}

impl WorkerState {
    /// A worker that has processed nothing yet.
    pub fn new() -> (s: WorkerState)
        ensures
            s.heartbeats_processed == 0,
            s.values_processed == 0,
            s.audit_position == 0,
    {
        WorkerState { heartbeats_processed: 0, values_processed: 0, audit_position: 0 }
    }

    /// Works out the batch `values` that one heartbeat released, without
    /// changing the state: the values must be the numbers due next, in
    /// order; each becomes its FizzBuzz message. Shutdown is to be
    /// requested once `expected_total` values have been processed in all.
    /// The state to take on once the messages are sent comes back with
    /// them (see `commit`); on the first number out of order the batch is
    /// refused.
    pub fn plan_batch(&self, values: &[u64], expected_total: u64) -> (r: Result<
        WorkerBatch,
        SequenceError,
    >)
        requires
            self.heartbeats_processed < u64::MAX,
            self.values_processed + values@.len() <= u64::MAX,
            self.audit_position + values@.len() <= u64::MAX,
        ensures
            match r {
                Ok(b) => {
                    &&& in_sequence(values@, self.audit_position as int)
                    &&& b.messages@ == values@.map_values(|v: u64| fizzbuzz_of(v))
                    &&& b.next.heartbeats_processed == self.heartbeats_processed + 1
                    &&& b.next.values_processed == self.values_processed + values@.len()
                    &&& b.next.audit_position == self.audit_position + values@.len()
                    &&& b.request_shutdown == (b.next.values_processed >= expected_total)
                },
                Err(e) => {
                    &&& !in_sequence(values@, self.audit_position as int)
                    &&& first_break(values@, self.audit_position as int, e)
                },
            },
    {
        let ghost start = self.audit_position as int;
        let mut audit = self.audit_position;
        let mut messages: Vec<FizzBuzzMessage> = Vec::new();
        let n = values.len();
        for i in 0..n
            invariant
                n == values@.len(),
                start == self.audit_position,
                self.audit_position + n <= u64::MAX,
                audit == start + i,
                in_sequence(values@.take(i as int), start),
                messages@ =~= values@.take(i as int).map_values(|v: u64| fizzbuzz_of(v)),
        {
            let v = values[i];
            if v != audit {
                let e = SequenceError { expected: audit, got: v };
                proof {
                    assert(values@.take(i as int) =~= values@.take(e.expected - start));
                    assert(!in_sequence(values@, start)) by {
                        assert(values@[i as int] != start + i);
                    }
                }
                return Err(e);
            }
            audit = audit + 1;
            messages.push(FizzBuzzMessage::new(v));
            proof {
                assert(values@.take(i + 1) =~= values@.take(i as int).push(v));
            }
        }
        proof {
            assert(values@.take(n as int) =~= values@);
        }
        let next = WorkerState {
            heartbeats_processed: self.heartbeats_processed + 1,
            values_processed: self.values_processed + n as u64,
            audit_position: audit,
        };
        let request_shutdown = next.values_processed >= expected_total;
        Ok(WorkerBatch { messages, next, request_shutdown })
    }

    /// Takes on the state of a batch once its messages have been sent, so
    /// that a worker stopped before the send processes the batch again.
    pub fn commit(&mut self, next: WorkerState)
        ensures
            *final(self) == next,
    {
        *self = next;
    }
}

} // verus!
