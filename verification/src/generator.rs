//! The generator of the publisher: it produces the numbers 0, 1, 2, ... in
//! batches of half the outgoing channel's capacity, takes back what the
//! channel could not hold, and ends its stream with one shutdown signal
//! once every number of the run has gone out.
use vstd::prelude::*;
use crate::worker::VALUES_PER_HEARTBEAT;

verus! {

/// Numbers generated per heartbeat of the run; it must match what the
/// subscriber's worker expects per heartbeat.
pub const EXPECTED_UNITS_PER_BEAT: u64 = VALUES_PER_HEARTBEAT;

/// Generator progress. Kept in persistent actor state, so that a restarted
/// actor goes on where it stopped.
pub struct GeneratorState {
    /// The next number to generate.
    pub next_value: u64,
    /// The largest number of values in one batch.
    pub batch_size: usize,
    /// Values that went out so far.
    pub total_generated: u64,
    /// Whether the shutdown signal that ends the stream was handed out.
    pub finished: bool,
}

/// The number of values in the next batch: a full batch, or what is left
/// before `limit`.
pub open spec fn fill_len(s: GeneratorState, limit: u64) -> nat {
    if s.batch_size <= limit - s.next_value {
        s.batch_size as nat
    } else {
        (limit - s.next_value) as nat
    }
}

/// The state after a batch was prepared from `s`.
pub open spec fn after_fill(s: GeneratorState, limit: u64) -> GeneratorState {
    GeneratorState { next_value: (s.next_value + fill_len(s, limit)) as u64, ..s }
}

/// The state after `sent` of a prepared batch of `batch_len` values went out.
pub open spec fn after_send(s: GeneratorState, batch_len: nat, sent: nat) -> GeneratorState {
    GeneratorState {
        next_value: (s.next_value - (batch_len - sent)) as u64,
        total_generated: (s.total_generated + sent) as u64,
        ..s
    }
}

/// The number of values a run of `beats` heartbeats generates.
pub fn generation_limit(beats: u64) -> (limit: u64)
    requires
        beats * EXPECTED_UNITS_PER_BEAT <= u64::MAX,
    ensures
        limit == beats * EXPECTED_UNITS_PER_BEAT,
{
    beats * EXPECTED_UNITS_PER_BEAT
}

impl GeneratorState {
    /// A generator for a channel of `capacity` values: it starts at 0 and
    /// prepares batches of half the capacity.
    pub fn new(capacity: usize) -> (s: GeneratorState)
        ensures
            s.next_value == 0,
            s.batch_size == capacity / 2,
            s.total_generated == 0,
            !s.finished,
    {
        GeneratorState { next_value: 0, batch_size: capacity / 2, total_generated: 0, finished: false }
    }

    /// Replaces the content of `batch` with the next numbers below `limit`:
    /// `batch_size` of them, or fewer where `limit` comes first.
    pub fn fill_batch(&mut self, limit: u64, batch: &mut Vec<u64>)
        requires
            old(self).next_value <= limit,
        ensures
            final(batch)@ == Seq::new(
                fill_len(*old(self), limit),
                |i: int| (old(self).next_value + i) as u64,
            ),
            forall|i: int| 0 <= i < final(batch)@.len() ==> #[trigger] final(batch)@[i] < limit,
            forall|i: int|
                0 <= i < final(batch)@.len() ==> #[trigger] final(batch)@[i] == old(self).next_value
                    + i,
            old(self).next_value + old(self).batch_size <= limit ==> final(batch)@.len()
                == old(self).batch_size,
            old(self).next_value + old(self).batch_size > limit ==> final(batch)@.len() == limit
                - old(self).next_value,
            final(self).next_value == old(self).next_value + final(batch)@.len(),
            final(self).batch_size == old(self).batch_size,
            final(self).total_generated == old(self).total_generated,
            final(self).finished == old(self).finished,
            *final(self) == after_fill(*old(self), limit),
    {
        batch.clear();
        let n = if self.batch_size as u64 <= limit - self.next_value {
            self.batch_size
        } else {
            (limit - self.next_value) as usize
        };
        let ghost start = self.next_value;
        for i in 0..n
            invariant
                n == fill_len(*old(self), limit),
                start + n <= limit,
                self.next_value == start + i,
                self.batch_size == old(self).batch_size,
                self.total_generated == old(self).total_generated,
                self.finished == old(self).finished,
                start == old(self).next_value,
                batch@ =~= Seq::new(i as nat, |k: int| (start + k) as u64),
        {
            batch.push(self.next_value);
            self.next_value = self.next_value + 1;
        }
    }

    /// Records that `sent_count` values of a prepared batch of `batch_len`
    /// went out: the count of generated values grows by that much, and the
    /// values that did not go out will be generated again.
    pub fn record_sent(&mut self, batch_len: usize, sent_count: usize)
        requires
            sent_count <= batch_len,
            batch_len - sent_count <= old(self).next_value,
            old(self).total_generated + sent_count <= u64::MAX,
        ensures
            *final(self) == after_send(*old(self), batch_len as nat, sent_count as nat),
    {
        self.total_generated = self.total_generated + sent_count as u64;
        if sent_count < batch_len {
            self.next_value = self.next_value - (batch_len - sent_count) as u64;
        }
    }

    /// Whether the stream ends now: every number below `limit` has gone
    /// out, and the shutdown signal was not handed out before. When it
    /// ends, the caller sends one `SHUTDOWN_SIGNAL` after the last number
    /// and requests shutdown; the generator never ends its stream twice.
    pub fn end_of_stream(&mut self, limit: u64) -> (send_signal: bool)
        ensures
            send_signal == (!old(self).finished && old(self).next_value == limit),
            final(self).finished == (old(self).finished || send_signal),
            final(self).next_value == old(self).next_value,
            final(self).batch_size == old(self).batch_size,
            final(self).total_generated == old(self).total_generated,
    {
        if !self.finished && self.next_value == limit {
            self.finished = true;
            true
        } else {
            false
        }
    }
}

/// A batch is full whenever a full batch fits before the limit, and
/// otherwise holds exactly the values left before the limit; preparing it
/// moves the next value on by its length and changes nothing else.
pub proof fn lemma_fill_len(s: GeneratorState, limit: u64)
    requires
        s.next_value <= limit,
    ensures
        s.next_value + s.batch_size <= limit ==> fill_len(s, limit) == s.batch_size,
        s.next_value + s.batch_size > limit ==> fill_len(s, limit) == limit - s.next_value,
        fill_len(s, limit) <= s.batch_size,
        s.next_value + fill_len(s, limit) <= limit,
        after_fill(s, limit).next_value == s.next_value + fill_len(s, limit),
        after_fill(s, limit).batch_size == s.batch_size,
        after_fill(s, limit).total_generated == s.total_generated,
        after_fill(s, limit).finished == s.finished,
{
}

/// Sending `sent` of a prepared batch of `batch_len` counts exactly `sent`
/// as generated and takes back the `batch_len - sent` values that stayed.
pub proof fn lemma_after_send(s: GeneratorState, batch_len: nat, sent: nat)
    requires
        sent <= batch_len,
        batch_len - sent <= s.next_value,
        s.total_generated + sent <= u64::MAX,
    ensures
        after_send(s, batch_len, sent).next_value + batch_len == s.next_value + sent,
        after_send(s, batch_len, sent).total_generated == s.total_generated + sent,
        after_send(s, batch_len, sent).batch_size == s.batch_size,
        after_send(s, batch_len, sent).finished == s.finished,
{
}

/// One round of the generator (prepare a batch, send part of it) moves the
/// next value on by exactly what was sent: the numbers that leave the
/// generator over its rounds are 0, 1, 2, ... with no gap and no repeat.
pub proof fn lemma_round_continues_stream(s: GeneratorState, limit: u64, sent: nat)
    requires
        s.next_value <= limit,
        sent <= fill_len(s, limit),
        s.total_generated + sent <= u64::MAX,
    ensures
        after_send(after_fill(s, limit), fill_len(s, limit), sent).next_value == s.next_value
            + sent,
        after_send(after_fill(s, limit), fill_len(s, limit), sent).next_value <= limit,
        after_send(after_fill(s, limit), fill_len(s, limit), sent).total_generated
            == s.total_generated + sent,
        after_send(after_fill(s, limit), fill_len(s, limit), sent).batch_size == s.batch_size,
        after_send(after_fill(s, limit), fill_len(s, limit), sent).finished == s.finished,
{
}

/// The stream ends with exactly one shutdown signal, after the last number:
/// the signal goes only once every number below `limit` has gone out; from
/// then on no batch holds a number, and the signal is not handed out again.
pub proof fn lemma_stream_ends_once(s: GeneratorState, limit: u64)
    requires
        s.next_value == limit,
    ensures
        fill_len(s, limit) == 0,
        after_fill(s, limit) == s,
        ({
            let ended = GeneratorState { finished: true, ..s };
            &&& fill_len(ended, limit) == 0
            &&& !(!ended.finished && ended.next_value == limit)
        }),
{
}

/// The numbers the generator hands out are never the shutdown signal, since
/// they stay below the limit of the run.
pub proof fn lemma_numbers_are_not_signals(v: u64, limit: u64)
    requires
        v < limit,
    ensures
        v != crate::sequence::SHUTDOWN_SIGNAL,
{
}

} // verus!
