//! Framing of `u64` batches into a byte stream with a parallel stream of
//! fragment lengths, and the reverse.
//!
//! A framed batch is two sequences: the payload, which holds the eight
//! big-endian bytes of each value one after the other, and the control
//! stream, which holds one length in bytes per fragment of the payload.
use vstd::prelude::*;
use crate::wire::{be_bytes, be_concat, be_value, be_words, get_u64_be, put_u64_be, lemma_be_concat, lemma_be_words_of_concat};

verus! {

/// Largest number of values in one fragment of the heartbeat stream.
pub const HEARTBEAT_GROUP: i32 = 5;

/// Largest number of values in one fragment of the generator stream
/// (fragments of about 64 KiB).
pub const MAX_GROUP: i32 = 8188;

/// A framed batch: fragment lengths in bytes, and the payload bytes.
pub struct Frames {
    pub control: Vec<i32>,
    pub payload: Vec<u8>,
}

/// The fragment lengths of `n` values cut into groups of `g`: as many full
/// groups as fit, then one shorter group for what is left, if anything is.
pub open spec fn group_lengths(n: nat, g: nat) -> Seq<i32> {
    let full = n / g;
    let rest = n % g;
    Seq::new(
        full + if rest > 0 {
            1nat
        } else {
            0nat
        },
        |i: int|
            if i < full {
                (8 * g) as i32
            } else {
                (8 * rest) as i32
            },
    )
}

/// The smaller of `a` and `b`.
pub open spec fn min_of(a: int, b: int) -> int {
    if a < b {
        a
    } else {
        b
    }
}

/// The smaller of two numbers: at most each of them, and one of them.
pub proof fn lemma_min_of(a: int, b: int)
    ensures
        min_of(a, b) <= a,
        min_of(a, b) <= b,
        min_of(a, b) == a || min_of(a, b) == b,
{
}

/// The number of values that one batch frames: the batch size, bounded by
/// what is waiting upstream and by the room left downstream, both in
/// fragments and in payload bytes (eight per value).
pub fn units_to_frame(in_batch: usize, vacant_items: usize, vacant_bytes: usize, avail: usize) -> (n:
    usize)
    ensures
        n == min_of(min_of(min_of(in_batch as int, vacant_items as int), (vacant_bytes / 8) as int), avail as int),
        n <= in_batch,
        n <= vacant_items,
        n <= vacant_bytes / 8,
        n <= avail,
        n == in_batch || n == vacant_items || n == vacant_bytes / 8 || n == avail,
{
    let by_bytes = vacant_bytes / 8;
    let mut n = in_batch;
    if vacant_items < n {
        n = vacant_items;
    }
    if by_bytes < n {
        n = by_bytes;
    }
    if avail < n {
        n = avail;
    }
    n
}

/// Frames `values`, at most `max_group` of them per fragment.
pub fn frame_values(values: &[u64], max_group: i32) -> (frames: Frames)
    requires
        1 <= max_group,
        8 * max_group <= i32::MAX,
    ensures
        frames.control@ == group_lengths(values@.len(), max_group as nat),
        frames.payload@ == be_concat(values@),
{
    let mut control: Vec<i32> = Vec::new();
    let mut payload: Vec<u8> = Vec::new();
    let mut group_count: i32 = 0;
    let ghost g = max_group as int;
    let ghost mut full: int = 0;
    let n = values.len();
    assert(values@.take(0) =~= Seq::<u64>::empty());
    for i in 0..n
        invariant
            n == values@.len(),
            1 <= g == max_group,
            8 * max_group <= i32::MAX,
            0 <= group_count < max_group,
            0 <= full,
            i == full * g + group_count,
            control@ =~= Seq::new(full as nat, |k: int| (8 * g) as i32),
            payload@ == be_concat(values@.take(i as int)),
    {
        proof {
            assert(values@.take(i + 1).drop_last() =~= values@.take(i as int));
        }
        put_u64_be(&mut payload, values[i]);
        group_count += 1;
        if group_count == max_group {
            control.push(8 * group_count);
            proof {
                full = full + 1;
                assert(full * g == (full - 1) * g + g) by (nonlinear_arith);
            }
            group_count = 0;
        }
    }
    let ghost rest = group_count as int;
    proof {
        vstd::arithmetic::div_mod::lemma_fundamental_div_mod_converse(n as int, g, full, rest);
        assert(values@.take(n as int) =~= values@);
    }
    if group_count > 0 {
        control.push(8 * group_count);
    }
    assert(control@ =~= group_lengths(n as nat, g as nat));
    Frames { control, payload }
}

/// The fragments of `n` values in groups of `g`: every fragment holds a
/// whole number of values, at least one and at most `g`; every fragment but
/// the last holds exactly `g`; and together they hold the `n` values.
pub proof fn lemma_group_lengths_shape(n: nat, g: nat)
    requires
        1 <= g,
        8 * g <= i32::MAX,
    ensures
        ({
            let s = group_lengths(n, g);
            &&& forall|i: int| 0 <= i < s.len() ==> 8 <= #[trigger] s[i] <= 8 * g && s[i] % 8 == 0
            &&& forall|i: int| 0 <= i < s.len() - 1 ==> #[trigger] s[i] == 8 * g
            &&& total_words(s) == n
            &&& n == 0 <==> s.len() == 0
            &&& (s.len() - 1) * g < n <= s.len() * g
        }),
{
    let s = group_lengths(n, g);
    lemma_total_group_words(n, g);
    let full = n / g;
    let rest = n % g;
    vstd::arithmetic::div_mod::lemma_fundamental_div_mod(n as int, g as int);
    assert(n == g * full + rest);
    assert(g * full == full * g) by (nonlinear_arith);
    assert forall|i: int| 0 <= i < s.len() implies 8 <= #[trigger] s[i] <= 8 * g && s[i] % 8
        == 0 by {
        if i < full {
        } else {
            assert(0 < rest < g);
        }
    }
    if rest > 0 {
        assert(s.len() == full + 1);
        assert((full + 1) * g == full * g + g) by (nonlinear_arith);
        assert((s.len() - 1) * g < n <= s.len() * g);
    } else {
        assert(s.len() == full);
        if full > 0 {
            assert((full - 1) * g == full * g - g) by (nonlinear_arith);
        } else {
            assert(n == 0);
        }
        assert((s.len() - 1) * g < n <= s.len() * g);
    }
    assert(n == 0 <==> s.len() == 0) by {
        if n == 0 {
            assert(full == 0 && rest == 0) by {
                vstd::arithmetic::div_mod::lemma_fundamental_div_mod_converse(n as int, g as int, 0, 0);
            }
        }
    }
}

/// A fragment of `len` bytes spans the fewest eight-byte words that hold
/// `len` bytes, and none when `len` is not positive.
pub proof fn lemma_fragment_words(len: i32)
    ensures
        len <= 0 ==> fragment_words(len) == 0,
        len > 0 ==> 8 * (fragment_words(len) - 1) < len <= 8 * fragment_words(len),
{
}

/// The number of eight-byte words that a fragment of `len` bytes spans: a
/// started word counts, and a fragment of no or negative length spans none.
pub open spec fn fragment_words(len: i32) -> nat {
    if len > 0 {
        ((len + 7) / 8) as nat
    } else {
        0
    }
}

/// The number of words that the fragments of `lens` span together.
pub open spec fn total_words(lens: Seq<i32>) -> nat
    decreases lens.len(),
{
    if lens.len() == 0 {
        0
    } else {
        total_words(lens.drop_last()) + fragment_words(lens.last())
    }
}

proof fn lemma_total_words_prefix(lens: Seq<i32>, i: int)
    requires
        0 <= i <= lens.len(),
    ensures
        total_words(lens.take(i)) <= total_words(lens),
    decreases lens.len() - i,
{
    if i < lens.len() {
        lemma_total_words_prefix(lens, i + 1);
        assert(lens.take(i + 1).drop_last() =~= lens.take(i));
    } else {
        assert(lens.take(i) =~= lens);
    }
}

/// Whether the payload of `payload_len` bytes holds every word that the
/// fragments of `lens` span.
pub fn frames_fit(lens: &[i32], payload_len: usize) -> (fits: bool)
    ensures
        fits == (8 * total_words(lens@) <= payload_len),
{
    let cap = payload_len / 8;
    let mut total: usize = 0;
    let n = lens.len();
    assert(lens@.take(0) =~= Seq::<i32>::empty());
    for i in 0..n
        invariant
            n == lens@.len(),
            cap == payload_len / 8,
            total == total_words(lens@.take(i as int)),
            total <= cap,
    {
        proof {
            assert(lens@.take(i + 1).drop_last() =~= lens@.take(i as int));
        }
        let len = lens[i];
        let w: usize = if len > 0 {
            ((len as usize) + 7) / 8
        } else {
            0
        };
        if w > cap - total {
            proof {
                lemma_total_words_prefix(lens@, i + 1);
            }
            return false;
        }
        total = total + w;
    }
    assert(lens@.take(n as int) =~= lens@);
    true
}

/// Reads back the values of framed batch: the words that the fragments of
/// `lens` span, in order, from the start of `payload`.
pub fn decode_frames(lens: &[i32], payload: &[u8]) -> (words: Vec<u64>)
    requires
        8 * total_words(lens@) <= payload@.len(),
    ensures
        words@ == be_words(payload@, total_words(lens@)),
{
    let mut words: Vec<u64> = Vec::new();
    let mut byte_pos: usize = 0;
    let n = lens.len();
    let plen = payload.len();
    assert(lens@.take(0) =~= Seq::<i32>::empty());
    for i in 0..n
        invariant
            n == lens@.len(),
            plen == payload@.len(),
            8 * total_words(lens@) <= payload@.len(),
            byte_pos == 8 * words@.len(),
            words@.len() == total_words(lens@.take(i as int)),
            words@ =~= be_words(payload@, words@.len()),
    {
        proof {
            assert(lens@.take(i + 1).drop_last() =~= lens@.take(i as int));
            lemma_total_words_prefix(lens@, i + 1);
        }
        let mut len = lens[i];
        let ghost start = words@.len();
        while len > 0
            invariant
                n == lens@.len(),
                plen == payload@.len(),
                i < n,
                8 * total_words(lens@) <= payload@.len(),
                total_words(lens@.take(i + 1)) <= total_words(lens@),
                total_words(lens@.take(i + 1)) == start + fragment_words(lens@[i as int]),
                start <= words@.len(),
                fragment_words(lens@[i as int]) == (words@.len() - start) + fragment_words(len),
                len <= lens@[i as int],
                byte_pos == 8 * words@.len(),
                words@ =~= be_words(payload@, words@.len()),
            decreases if len > 0 { len as int } else { 0 },
        {
            let v = get_u64_be(payload, byte_pos);
            let ghost k = words@.len() as int;
            words.push(v);
            proof {
                assert(be_words(payload@, words@.len())[k] == v);
            }
            byte_pos = byte_pos + 8;
            len = len - 8;
        }
    }
    assert(lens@.take(n as int) =~= lens@);
    words
}

/// Framing a batch and reading it back gives the batch, whatever the group
/// size.
pub proof fn lemma_frame_roundtrip(values: Seq<u64>, g: nat)
    requires
        1 <= g,
        8 * g <= i32::MAX,
    ensures
        8 * total_words(group_lengths(values.len(), g)) == be_concat(values).len(),
        be_words(be_concat(values), total_words(group_lengths(values.len(), g))) == values,
{
    lemma_total_group_words(values.len(), g);
    lemma_be_concat(values);
    lemma_be_words_of_concat(values);
}

pub proof fn lemma_total_group_words(n: nat, g: nat)
    requires
        1 <= g,
        8 * g <= i32::MAX,
    ensures
        total_words(group_lengths(n, g)) == n,
{
    let full = n / g;
    let rest = n % g;
    let s = group_lengths(n, g);
    assert forall|k: nat| k <= full implies #[trigger] total_words(s.take(k as int)) == k * g by {
        lemma_total_full_groups(s, g, k);
    }
    vstd::arithmetic::div_mod::lemma_fundamental_div_mod(n as int, g as int);
    assert(total_words(s.take(full as int)) == full * g);
    assert(g * full == full * g) by (nonlinear_arith);
    if rest > 0 {
        assert(s.take(full + 1int).drop_last() =~= s.take(full as int));
        assert(s.take(full + 1int) =~= s);
        assert(fragment_words(s.last()) == rest);
    } else {
        assert(s.take(full as int) =~= s);
    }
}

proof fn lemma_total_full_groups(s: Seq<i32>, g: nat, k: nat)
    requires
        1 <= g,
        8 * g <= i32::MAX,
        k <= s.len(),
        forall|i: int| 0 <= i < k ==> s[i] == (8 * g) as i32,
    ensures
        total_words(s.take(k as int)) == k * g,
    decreases k,
{
    if k > 0 {
        lemma_total_full_groups(s, g, (k - 1) as nat);
        assert(s.take(k as int).drop_last() =~= s.take(k - 1));
        assert(fragment_words((8 * g) as i32) == g);
        assert(s.take(k as int).last() == s[k - 1]);
        assert(k * g == (k - 1) * g + g) by (nonlinear_arith);
        assert(total_words(s.take(k as int)) == total_words(s.take(k - 1)) + fragment_words(s[k - 1]));
        assert(s[k - 1] == (8 * g) as i32);
    } else {
        assert(s.take(0) =~= Seq::<i32>::empty());
    }
}

/// The words that two runs of fragments span add up.
pub proof fn lemma_total_words_concat(l1: Seq<i32>, l2: Seq<i32>)
    ensures
        total_words(l1 + l2) == total_words(l1) + total_words(l2),
    decreases l2.len(),
{
    if l2.len() == 0 {
        assert(l1 + l2 =~= l1);
    } else {
        lemma_total_words_concat(l1, l2.drop_last());
        assert((l1 + l2).drop_last() =~= l1 + l2.drop_last());
        assert((l1 + l2).last() == l2.last());
    }
}

/// Reading two runs of fragments one after the other gives the same words
/// as reading them as one run: however the fragments of a stream are cut
/// into batches on the way, the words read back, batch after batch, are
/// the words of the whole stream in order.
pub proof fn lemma_decode_concat(l1: Seq<i32>, p1: Seq<u8>, l2: Seq<i32>, p2: Seq<u8>)
    requires
        p1.len() == 8 * total_words(l1),
        8 * total_words(l2) <= p2.len(),
    ensures
        total_words(l1 + l2) == total_words(l1) + total_words(l2),
        8 * total_words(l1 + l2) <= (p1 + p2).len(),
        be_words(p1 + p2, total_words(l1 + l2)) == be_words(p1, total_words(l1)) + be_words(
            p2,
            total_words(l2),
        ),
{
    lemma_total_words_concat(l1, l2);
    let n1 = total_words(l1);
    let n2 = total_words(l2);
    let p = p1 + p2;
    let lhs = be_words(p, n1 + n2);
    let rhs = be_words(p1, n1) + be_words(p2, n2);
    assert forall|k: int| 0 <= k < n1 + n2 implies lhs[k] == rhs[k] by {
        if k < n1 {
            assert(p.subrange(8 * k, 8 * k + 8) =~= p1.subrange(8 * k, 8 * k + 8));
        } else {
            let j = k - n1;
            assert(p.subrange(8 * k, 8 * k + 8) =~= p2.subrange(8 * j, 8 * j + 8));
        }
    }
    assert(lhs =~= rhs);
}

/// Two batches framed one after the other by the publisher read back, as
/// one stream, as the two batches in order.
pub proof fn lemma_batches_keep_order(b1: Seq<u64>, b2: Seq<u64>, g: nat)
    requires
        1 <= g,
        8 * g <= i32::MAX,
    ensures
        ({
            let lens = group_lengths(b1.len(), g) + group_lengths(b2.len(), g);
            let payload = be_concat(b1) + be_concat(b2);
            &&& 8 * total_words(lens) == payload.len()
            &&& be_words(payload, total_words(lens)) == b1 + b2
        }),
{
    lemma_frame_roundtrip(b1, g);
    lemma_frame_roundtrip(b2, g);
    lemma_decode_concat(
        group_lengths(b1.len(), g),
        be_concat(b1),
        group_lengths(b2.len(), g),
        be_concat(b2),
    );
}

} // verus!
