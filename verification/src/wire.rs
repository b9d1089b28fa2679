//! Big-endian encoding of `u64` values, eight bytes each.
use vstd::prelude::*;

verus! {

/// The eight bytes of `v`, most significant first.
pub open spec fn be_bytes(v: u64) -> Seq<u8> {
    seq![
        (v >> 56u64) as u8,
        (v >> 48u64) as u8,
        (v >> 40u64) as u8,
        (v >> 32u64) as u8,
        (v >> 24u64) as u8,
        (v >> 16u64) as u8,
        (v >> 8u64) as u8,
        v as u8,
    ]
}

/// The `u64` whose big-endian bytes are the first eight of `b`.
pub open spec fn be_value(b: Seq<u8>) -> u64
    recommends
        b.len() >= 8,
{
    ((b[0] as u64) << 56u64) | ((b[1] as u64) << 48u64) | ((b[2] as u64) << 40u64) | ((
    b[3] as u64) << 32u64) | ((b[4] as u64) << 24u64) | ((b[5] as u64) << 16u64) | ((
    b[6] as u64) << 8u64) | (b[7] as u64)
}

/// The bytes of every value of `values`, one after the other.
pub open spec fn be_concat(values: Seq<u64>) -> Seq<u8>
    decreases values.len(),
{
    if values.len() == 0 {
        Seq::empty()
    } else {
        be_concat(values.drop_last()) + be_bytes(values.last())
    }
}

/// The first `n` eight-byte words of `payload`, each read big-endian.
pub open spec fn be_words(payload: Seq<u8>, n: nat) -> Seq<u64> {
    Seq::new(n, |k: int| be_value(payload.subrange(8 * k, 8 * k + 8)))
}

/// The value of eight bytes read big-endian: the first byte weighs most.
pub proof fn lemma_be_value_weights(b: Seq<u8>)
    requires
        b.len() >= 8,
    ensures
        be_value(b) as int == b[0] * 0x100000000000000 + b[1] * 0x1000000000000 + b[2]
            * 0x10000000000 + b[3] * 0x100000000 + b[4] * 0x1000000 + b[5] * 0x10000 + b[6]
            * 0x100 + b[7],
{
    let b0 = b[0];
    let b1 = b[1];
    let b2 = b[2];
    let b3 = b[3];
    let b4 = b[4];
    let b5 = b[5];
    let b6 = b[6];
    let b7 = b[7];
    assert(((b0 as u64) << 56u64) | ((b1 as u64) << 48u64) | ((b2 as u64) << 40u64) | ((
    b3 as u64) << 32u64) | ((b4 as u64) << 24u64) | ((b5 as u64) << 16u64) | ((b6 as u64)
        << 8u64) | (b7 as u64) == b0 * 0x100000000000000 + b1 * 0x1000000000000 + b2
        * 0x10000000000 + b3 * 0x100000000 + b4 * 0x1000000 + b5 * 0x10000 + b6 * 0x100 + b7)
        by (bit_vector);
}

/// Reading back the bytes of a value gives the value.
pub proof fn lemma_be_value_of_bytes(v: u64)
    ensures
        be_value(be_bytes(v)) == v,
{
    let b = be_bytes(v);
    let b0 = b[0];
    let b1 = b[1];
    let b2 = b[2];
    let b3 = b[3];
    let b4 = b[4];
    let b5 = b[5];
    let b6 = b[6];
    let b7 = b[7];
    assert(((b0 as u64) << 56u64) | ((b1 as u64) << 48u64) | ((b2 as u64) << 40u64) | ((
    b3 as u64) << 32u64) | ((b4 as u64) << 24u64) | ((b5 as u64) << 16u64) | ((b6 as u64)
        << 8u64) | (b7 as u64) == v) by (bit_vector)
        requires
            b0 == (v >> 56u64) as u8,
            b1 == (v >> 48u64) as u8,
            b2 == (v >> 40u64) as u8,
            b3 == (v >> 32u64) as u8,
            b4 == (v >> 24u64) as u8,
            b5 == (v >> 16u64) as u8,
            b6 == (v >> 8u64) as u8,
            b7 == v as u8,
    ;
}

/// Writing out the value of eight bytes gives the bytes back.
pub proof fn lemma_be_bytes_of_value(b: Seq<u8>)
    requires
        b.len() == 8,
    ensures
        be_bytes(be_value(b)) == b,
{
    let b0 = b[0];
    let b1 = b[1];
    let b2 = b[2];
    let b3 = b[3];
    let b4 = b[4];
    let b5 = b[5];
    let b6 = b[6];
    let b7 = b[7];
    let v = be_value(b);
    assert(
        b0 == (v >> 56u64) as u8 && b1 == (v >> 48u64) as u8 && b2 == (v >> 40u64) as u8 && b3
            == (v >> 32u64) as u8 && b4 == (v >> 24u64) as u8 && b5 == (v >> 16u64) as u8 && b6
            == (v >> 8u64) as u8 && b7 == v as u8
    ) by (bit_vector)
        requires
            v == ((b0 as u64) << 56u64) | ((b1 as u64) << 48u64) | ((b2 as u64) << 40u64) | ((
            b3 as u64) << 32u64) | ((b4 as u64) << 24u64) | ((b5 as u64) << 16u64) | ((
            b6 as u64) << 8u64) | (b7 as u64),
    ;
    assert(be_bytes(v) =~= b);
}

/// The concatenated bytes of `values` hold eight bytes per value, in order.
pub proof fn lemma_be_concat(values: Seq<u64>)
    ensures
        be_concat(values).len() == 8 * values.len(),
        forall|k: int|
            0 <= k < values.len() ==> #[trigger] be_concat(values).subrange(8 * k, 8 * k + 8)
                == be_bytes(values[k]),
    decreases values.len(),
{
    if values.len() > 0 {
        let init = values.drop_last();
        lemma_be_concat(init);
        let c = be_concat(values);
        assert forall|k: int| 0 <= k < values.len() implies #[trigger] c.subrange(
            8 * k,
            8 * k + 8,
        ) == be_bytes(values[k]) by {
            if k < init.len() {
                assert(c.subrange(8 * k, 8 * k + 8) =~= be_concat(init).subrange(8 * k, 8 * k + 8));
            } else {
                assert(c.subrange(8 * k, 8 * k + 8) =~= be_bytes(values.last()));
            }
        }
    }
}

/// Reading back the words of the concatenated bytes of `values` gives `values`.
pub proof fn lemma_be_words_of_concat(values: Seq<u64>)
    ensures
        be_words(be_concat(values), values.len()) == values,
{
    lemma_be_concat(values);
    let w = be_words(be_concat(values), values.len());
    assert forall|k: int| 0 <= k < values.len() implies w[k] == values[k] by {
        assert(be_concat(values).subrange(8 * k, 8 * k + 8) == be_bytes(values[k]));
        lemma_be_value_of_bytes(values[k]);
    }
    assert(w =~= values);
}

/// Appends the eight big-endian bytes of `v` to `out`.
pub fn put_u64_be(out: &mut Vec<u8>, v: u64)
    ensures
        final(out)@ == old(out)@ + be_bytes(v),
{
    out.push((v >> 56u64) as u8);
    out.push((v >> 48u64) as u8);
    out.push((v >> 40u64) as u8);
    out.push((v >> 32u64) as u8);
    out.push((v >> 24u64) as u8);
    out.push((v >> 16u64) as u8);
    out.push((v >> 8u64) as u8);
    out.push(v as u8);
    assert(out@ =~= old(out)@ + be_bytes(v));
}

/// Reads the `u64` stored big-endian in `bytes[pos..pos + 8]`.
pub fn get_u64_be(bytes: &[u8], pos: usize) -> (v: u64)
    requires
        pos + 8 <= bytes@.len(),
    ensures
        v == be_value(bytes@.subrange(pos as int, pos + 8)),
{
    let ghost s = bytes@.subrange(pos as int, pos + 8);
    assert(s[0] == bytes@[pos as int]);
    ((bytes[pos] as u64) << 56u64) | ((bytes[pos + 1] as u64) << 48u64) | ((bytes[pos + 2] as u64)
        << 40u64) | ((bytes[pos + 3] as u64) << 32u64) | ((bytes[pos + 4] as u64) << 24u64) | ((
    bytes[pos + 5] as u64) << 16u64) | ((bytes[pos + 6] as u64) << 8u64) | (bytes[pos + 7] as u64)
}

} // verus!
