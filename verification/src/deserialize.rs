//! The deserializer of the subscriber: it turns the words read from the two
//! incoming streams into numbers for the worker, checks that each stream
//! carries 0, 1, 2, ... in order, and counts shutdown signals.
use vstd::prelude::*;
use crate::sequence::{SHUTDOWN_SIGNAL, SequenceError, in_sequence, first_break};
use crate::framing::{group_lengths, total_words, lemma_frame_roundtrip};
use crate::wire::{be_concat, be_words};

verus! {

/// Shutdown is requested when this many shutdown signals have arrived, one
/// from each publisher stream.
pub const SIGNALS_TO_SHUTDOWN: i32 = 2;

/// The two streams that the publisher sends.
#[derive(Clone, Copy, Debug, PartialEq, Eq, Structural)]
pub enum StreamKind {
    Heartbeat,
    Generator,
}

/// Deserializer progress. Kept in persistent actor state, so that a
/// restarted actor goes on where it stopped.
pub struct DeserializeState {
    /// Shutdown signals received so far, over both streams.
    pub shutdown_count: i32,
    /// The next number due on the heartbeat stream.
    pub next_heartbeat: u64,
    /// The next number due on the generator stream.
    pub next_generator: u64,
}

/// What one batch of words from a stream gives.
#[derive(Debug)]
pub struct Absorbed {
    /// The numbers to forward downstream, in order.
    pub values: Vec<u64>,
    /// Whether this batch brought the shutdown signal count to
    /// `SIGNALS_TO_SHUTDOWN`.
    pub shutdown_requested: bool,
}

/// A batch refused at its first number out of order.
#[derive(Clone, Copy, Debug, PartialEq, Eq, Structural)]
pub struct Refused {
    /// The number out of order, and the one that was due.
    pub error: SequenceError,
    /// The position of that number among the words of the batch.
    pub at: usize,
    /// Whether the signals before that number brought the shutdown signal
    /// count to `SIGNALS_TO_SHUTDOWN`.
    pub shutdown_requested: bool,
}

/// The words of `s` that are numbers, in order.
pub open spec fn numbers_of(s: Seq<u64>) -> Seq<u64>
    decreases s.len(),
{
    if s.len() == 0 {
        Seq::empty()
    } else if s.last() == SHUTDOWN_SIGNAL {
        numbers_of(s.drop_last())
    } else {
        numbers_of(s.drop_last()).push(s.last())
    }
}

/// The number of shutdown signals among the words of `s`.
pub open spec fn signals_in(s: Seq<u64>) -> nat
    decreases s.len(),
{
    if s.len() == 0 {
        0
    } else if s.last() == SHUTDOWN_SIGNAL {
        signals_in(s.drop_last()) + 1
    } else {
        signals_in(s.drop_last())
    }
}

/// The numbers and signals of a prefix of `s` start those of `s`.
pub proof fn lemma_prefix_of_words(s: Seq<u64>, i: int)
    requires
        0 <= i <= s.len(),
    ensures
        numbers_of(s.take(i)).len() <= numbers_of(s).len(),
        numbers_of(s.take(i)) == numbers_of(s).take(numbers_of(s.take(i)).len() as int),
        signals_in(s.take(i)) <= signals_in(s),
    decreases s.len() - i,
{
    if i == s.len() {
        assert(s.take(i) =~= s);
        assert(numbers_of(s).take(numbers_of(s).len() as int) =~= numbers_of(s));
    } else {
        lemma_prefix_of_words(s, i + 1);
        let a = s.take(i);
        let b = s.take(i + 1);
        assert(b.drop_last() =~= a);
        let nb = numbers_of(b);
        let ns = numbers_of(s);
        if b.last() != SHUTDOWN_SIGNAL {
            assert(numbers_of(a) =~= nb.drop_last());
            assert(nb.drop_last() =~= ns.take(nb.len() - 1));
        }
    }
}

/// Going from `before` to `after` signals reaches the count at which
/// shutdown is requested.
pub open spec fn reaches_shutdown(before: int, after: int) -> bool {
    before < SIGNALS_TO_SHUTDOWN <= after
}

/// The numbers of a run of words are its words with the shutdown signals
/// taken out, in order, and the signals are the words taken out.
pub proof fn lemma_numbers_and_signals(s: Seq<u64>)
    ensures
        numbers_of(s) == s.filter(|w: u64| w != SHUTDOWN_SIGNAL),
        numbers_of(s).len() + signals_in(s) == s.len(),
        forall|k: int| 0 <= k < numbers_of(s).len() ==> #[trigger] numbers_of(s)[k] != SHUTDOWN_SIGNAL,
    decreases s.len(),
{
    reveal(Seq::filter);
    if s.len() > 0 {
        lemma_numbers_and_signals(s.drop_last());
    }
}

/// The numbers and the signals of two runs of words add up.
pub proof fn lemma_words_concat(a: Seq<u64>, b: Seq<u64>)
    ensures
        numbers_of(a + b) == numbers_of(a) + numbers_of(b),
        signals_in(a + b) == signals_in(a) + signals_in(b),
    decreases b.len(),
{
    if b.len() == 0 {
        assert(a + b =~= a);
        assert(numbers_of(a) + numbers_of(b) =~= numbers_of(a));
    } else {
        lemma_words_concat(a, b.drop_last());
        assert((a + b).drop_last() =~= a + b.drop_last());
        assert((a + b).last() == b.last());
        if b.last() != SHUTDOWN_SIGNAL {
            assert(numbers_of(a) + numbers_of(b) =~= (numbers_of(a) + numbers_of(b.drop_last())).push(
                b.last(),
            ));
        }
    }
}

/// A stream taken in two batches, one after the other, is accepted exactly
/// when it would be accepted as one batch: the first batch continues the
/// stream from `start`, and the second continues it from where the first
/// left it. The signal count grows by the same amount either way.
pub proof fn lemma_batches_in_turn(a: Seq<u64>, b: Seq<u64>, start: int)
    ensures
        in_sequence(numbers_of(a + b), start) <==> (in_sequence(numbers_of(a), start)
            && in_sequence(numbers_of(b), start + numbers_of(a).len())),
        signals_in(a + b) == signals_in(a) + signals_in(b),
{
    lemma_words_concat(a, b);
    let x = numbers_of(a);
    let y = numbers_of(b);
    let xy = x + y;
    if in_sequence(xy, start) {
        assert forall|k: int| 0 <= k < x.len() implies x[k] == start + k by {
            assert(xy[k] == x[k]);
        }
        assert forall|k: int| 0 <= k < y.len() implies y[k] == start + x.len() + k by {
            assert(xy[x.len() + k] == y[k]);
        }
    }
}

/// Since the signal count only grows, shutdown is requested at most once:
/// after the batch that reached the count, no later batch reaches it again.
pub proof fn lemma_shutdown_requested_once(c0: int, c1: int, c2: int)
    requires
        c0 <= c1 <= c2,
        reaches_shutdown(c0, c1),
    ensures
        !reaches_shutdown(c1, c2),
{
}

/// Two batches of signals, one from each stream, on a fresh deserializer
/// request shutdown, and the second is the one that does.
pub proof fn lemma_two_signals_shut_down(first: Seq<u64>, second: Seq<u64>)
    requires
        signals_in(first) == 1,
        signals_in(second) == 1,
    ensures
        !reaches_shutdown(0, signals_in(first) as int),
        reaches_shutdown(signals_in(first) as int, (signals_in(first) + signals_in(second)) as int),
{
}

/// The words of `s` are all numbers when none is the shutdown signal.
pub proof fn lemma_no_signal_words(s: Seq<u64>)
    requires
        forall|k: int| 0 <= k < s.len() ==> s[k] != SHUTDOWN_SIGNAL,
    ensures
        numbers_of(s) == s,
        signals_in(s) == 0,
    decreases s.len(),
{
    if s.len() > 0 {
        lemma_no_signal_words(s.drop_last());
        assert(s.drop_last().push(s.last()) =~= s);
    }
}

/// A batch of numbers that continues a stream, framed by the publisher in
/// groups of any size and read back by the subscriber, is taken in whole:
/// the words read back are the batch, all of them numbers, in order, with
/// no signal among them.
pub proof fn lemma_ordered_batch_passes(values: Seq<u64>, start: int, g: nat)
    requires
        1 <= g,
        8 * g <= i32::MAX,
        in_sequence(values, start),
        forall|k: int| 0 <= k < values.len() ==> values[k] != SHUTDOWN_SIGNAL,
    ensures
        ({
            let words = be_words(be_concat(values), total_words(group_lengths(values.len(), g)));
            &&& 8 * total_words(group_lengths(values.len(), g)) == be_concat(values).len()
            &&& words == values
            &&& numbers_of(words) == values
            &&& signals_in(words) == 0
            &&& in_sequence(numbers_of(words), start)
        }),
{
    lemma_frame_roundtrip(values, g);
    lemma_no_signal_words(values);
}

impl DeserializeState {
    /// A deserializer that has received nothing yet.
    pub fn new() -> (s: DeserializeState)
        ensures
            s.shutdown_count == 0,
            s.next_heartbeat == 0,
            s.next_generator == 0,
    {
        DeserializeState { shutdown_count: 0, next_heartbeat: 0, next_generator: 0 }
    }

    /// The next number due on `stream`.
    pub open spec fn next_due(self, stream: StreamKind) -> u64 {
        match stream {
            StreamKind::Heartbeat => self.next_heartbeat,
            StreamKind::Generator => self.next_generator,
        }
    }

    /// Takes in a batch of `words` read from `stream`. Each word is a number
    /// or the shutdown signal. The numbers must be the ones due on the
    /// stream, in order; they are forwarded. Every signal is counted over
    /// both streams, and shutdown is requested when the count reaches
    /// `SIGNALS_TO_SHUTDOWN`. The words are taken one by one: on the first
    /// number out of order the batch is refused there, and what the words
    /// before it did to the state stays done (the signals they brought are
    /// counted, and the numbers they brought are no longer due).
    pub fn absorb(&mut self, stream: StreamKind, words: &[u64]) -> (r: Result<Absorbed, Refused>)
        requires
            old(self).shutdown_count + signals_in(words@) <= i32::MAX,
        ensures
            ({
                let start = old(self).next_due(stream) as int;
                let numbers = numbers_of(words@);
                match r {
                    Ok(a) => {
                        &&& in_sequence(numbers, start)
                        &&& a.values@ == numbers
                        &&& final(self).next_due(stream) == start + numbers.len()
                        &&& final(self).shutdown_count == old(self).shutdown_count + signals_in(
                            words@,
                        )
                        &&& a.shutdown_requested == reaches_shutdown(
                            old(self).shutdown_count as int,
                            final(self).shutdown_count as int,
                        )
                    },
                    Err(f) => {
                        let before = words@.take(f.at as int);
                        &&& !in_sequence(numbers, start)
                        &&& first_break(numbers, start, f.error)
                        &&& f.at < words@.len()
                        &&& words@[f.at as int] == f.error.got
                        &&& f.error.got != SHUTDOWN_SIGNAL
                        &&& in_sequence(numbers_of(before), start)
                        &&& f.error.expected == start + numbers_of(before).len()
                        &&& final(self).next_due(stream) == f.error.expected
                        &&& final(self).shutdown_count == old(self).shutdown_count + signals_in(
                            before,
                        )
                        &&& f.shutdown_requested == reaches_shutdown(
                            old(self).shutdown_count as int,
                            final(self).shutdown_count as int,
                        )
                    },
                }
            }),
            match stream {
                StreamKind::Heartbeat => final(self).next_generator == old(self).next_generator,
                StreamKind::Generator => final(self).next_heartbeat == old(self).next_heartbeat,
            },
    {
        let ghost start = self.next_due(stream) as int;
        let mut next = match stream {
            StreamKind::Heartbeat => self.next_heartbeat,
            StreamKind::Generator => self.next_generator,
        };
        let mut count = self.shutdown_count;
        let mut requested = false;
        let mut values: Vec<u64> = Vec::new();
        let n = words.len();
        assert(words@.take(0) =~= Seq::<u64>::empty());
        for i in 0..n
            invariant
                n == words@.len(),
                start == old(self).next_due(stream),
                *self == *old(self),
                old(self).shutdown_count + signals_in(words@) <= i32::MAX,
                values@ == numbers_of(words@.take(i as int)),
                in_sequence(values@, start),
                next == start + values@.len(),
                count == old(self).shutdown_count + signals_in(words@.take(i as int)),
                requested == reaches_shutdown(old(self).shutdown_count as int, count as int),
        {
            let ghost prev = words@.take(i as int);
            proof {
                assert(words@.take(i + 1).drop_last() =~= prev);
                lemma_prefix_of_words(words@, i + 1);
                lemma_prefix_of_words(words@, i as int);
            }
            let w = words[i];
            if w == SHUTDOWN_SIGNAL {
                count = count + 1;
                if count == SIGNALS_TO_SHUTDOWN {
                    requested = true;
                }
            } else {
                if w != next {
                    let e = SequenceError { expected: next, got: w };
                    proof {
                        let numbers = numbers_of(words@);
                        let k = values@.len() as int;
                        let t = numbers_of(words@.take(i + 1));
                        assert(t == values@.push(w));
                        assert(t == numbers.take(t.len() as int));
                        assert(t[k] == w);
                        assert(numbers.take(t.len() as int)[k] == numbers[k]);
                        assert(numbers[k] == w);
                        assert(numbers.take(k) =~= values@);
                    }
                    match stream {
                        StreamKind::Heartbeat => self.next_heartbeat = next,
                        StreamKind::Generator => self.next_generator = next,
                    }
                    self.shutdown_count = count;
                    return Err(Refused { error: e, at: i, shutdown_requested: requested });
                }
                next = next + 1;
                values.push(w);
            }
        }
        proof {
            assert(words@.take(n as int) =~= words@);
        }
        match stream {
            StreamKind::Heartbeat => self.next_heartbeat = next,
            StreamKind::Generator => self.next_generator = next,
        }
        self.shutdown_count = count;
        Ok(Absorbed { values, shutdown_requested: requested })
    }
}

/// The number of payload bytes to take from a stream in one round: eight
/// per value, for at most `batch_size` values and at most as many as the
/// outgoing channel has room for.
pub fn payload_limit(batch_size: usize, vacant: usize) -> (limit: usize)
    requires
        8 * batch_size <= usize::MAX || 8 * vacant <= usize::MAX,
    ensures
        limit == 8 * (if batch_size < vacant {
            batch_size
        } else {
            vacant
        }),
        limit <= 8 * batch_size,
        limit <= 8 * vacant,
        limit == 8 * batch_size || limit == 8 * vacant,
{
    if batch_size < vacant {
        8 * batch_size
    } else {
        8 * vacant
    }
}

} // verus!
