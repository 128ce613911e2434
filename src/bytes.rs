//! Big-endian layouts of unsigned integers and of sequences of them.
use vstd::prelude::*;

verus! {

/// The four big-endian bytes of `x`.
pub open spec fn be_u32(x: u32) -> Seq<u8> {
    seq![(x >> 24u32) as u8, (x >> 16u32) as u8, (x >> 8u32) as u8, x as u8]
}

/// The integer whose big-endian bytes are the first four of `b`.
pub open spec fn read_be_u32(b: Seq<u8>) -> u32 {
    ((b[0] as u32) << 24u32) | ((b[1] as u32) << 16u32) | ((b[2] as u32) << 8u32) | (b[3] as u32)
}

/// The eight big-endian bytes of `x`.
pub open spec fn be_u64(x: u64) -> Seq<u8> {
    seq![
        (x >> 56u64) as u8,
        (x >> 48u64) as u8,
        (x >> 40u64) as u8,
        (x >> 32u64) as u8,
        (x >> 24u64) as u8,
        (x >> 16u64) as u8,
        (x >> 8u64) as u8,
        x as u8,
    ]
}

/// The integer whose big-endian bytes are the first eight of `b`.
pub open spec fn read_be_u64(b: Seq<u8>) -> u64 {
    ((b[0] as u64) << 56u64) | ((b[1] as u64) << 48u64) | ((b[2] as u64) << 40u64) | ((b[3] as u64)
        << 32u64) | ((b[4] as u64) << 24u64) | ((b[5] as u64) << 16u64) | ((b[6] as u64) << 8u64)
        | (b[7] as u64)
}

pub proof fn lemma_u32_round_trip(x: u32)
    ensures
        be_u32(x).len() == 4,
        read_be_u32(be_u32(x)) == x,
{
    let b = be_u32(x);
    assert(((((x >> 24u32) as u8) as u32) << 24u32) | ((((x >> 16u32) as u8) as u32) << 16u32) | ((((
    x >> 8u32) as u8) as u32) << 8u32) | ((x as u8) as u32) == x) by (bit_vector);
}

pub proof fn lemma_u64_round_trip(x: u64)
    ensures
        be_u64(x).len() == 8,
        read_be_u64(be_u64(x)) == x,
{
    assert(((((x >> 56u64) as u8) as u64) << 56u64) | ((((x >> 48u64) as u8) as u64) << 48u64) | ((((
    x >> 40u64) as u8) as u64) << 40u64) | ((((x >> 32u64) as u8) as u64) << 32u64) | ((((x
        >> 24u64) as u8) as u64) << 24u64) | ((((x >> 16u64) as u8) as u64) << 16u64) | ((((x
        >> 8u64) as u8) as u64) << 8u64) | ((x as u8) as u64) == x) by (bit_vector);
}

/// Distinct integers have distinct big-endian layouts.
pub proof fn lemma_be_u64_injective(a: u64, b: u64)
    requires
        be_u64(a) == be_u64(b),
    ensures
        a == b,
{
    lemma_u64_round_trip(a);
    lemma_u64_round_trip(b);
}

/// The concatenated big-endian layouts of the elements of `s`.
pub open spec fn encode_u32s(s: Seq<u32>) -> Seq<u8>
    decreases s.len(),
{
    if s.len() == 0 {
        seq![]
    } else {
        encode_u32s(s.drop_last()) + be_u32(s.last())
    }
}

/// The integers read from consecutive four-byte groups of `b`.
pub open spec fn decode_u32s(b: Seq<u8>) -> Seq<u32> {
    Seq::new(b.len() / 4, |i: int| read_be_u32(b.subrange(4 * i, 4 * i + 4)))
}

/// The concatenated big-endian layouts of the elements of `s`.
pub open spec fn encode_u64s(s: Seq<u64>) -> Seq<u8>
    decreases s.len(),
{
    if s.len() == 0 {
        seq![]
    } else {
        encode_u64s(s.drop_last()) + be_u64(s.last())
    }
}

/// The integers read from consecutive eight-byte groups of `b`.
pub open spec fn decode_u64s(b: Seq<u8>) -> Seq<u64> {
    Seq::new(b.len() / 8, |i: int| read_be_u64(b.subrange(8 * i, 8 * i + 8)))
}

proof fn lemma_encode_u32s_layout(s: Seq<u32>, i: int)
    requires
        0 <= i < s.len(),
    ensures
        encode_u32s(s).len() == 4 * s.len(),
        encode_u32s(s).subrange(4 * i, 4 * i + 4) == be_u32(s[i]),
    decreases s.len(),
{
    lemma_u32_round_trip(s.last());
    if i < s.len() - 1 {
        lemma_encode_u32s_layout(s.drop_last(), i);
        assert(encode_u32s(s).subrange(4 * i, 4 * i + 4) =~= encode_u32s(s.drop_last()).subrange(
            4 * i,
            4 * i + 4,
        ));
    } else {
        lemma_encode_u32s_len(s.drop_last());
        assert(encode_u32s(s).subrange(4 * i, 4 * i + 4) =~= be_u32(s[i]));
    }
}

proof fn lemma_encode_u32s_len(s: Seq<u32>)
    ensures
        encode_u32s(s).len() == 4 * s.len(),
    decreases s.len(),
{
    if s.len() > 0 {
        lemma_u32_round_trip(s.last());
        lemma_encode_u32s_len(s.drop_last());
    }
}

proof fn lemma_encode_u64s_layout(s: Seq<u64>, i: int)
    requires
        0 <= i < s.len(),
    ensures
        encode_u64s(s).len() == 8 * s.len(),
        encode_u64s(s).subrange(8 * i, 8 * i + 8) == be_u64(s[i]),
    decreases s.len(),
{
    lemma_u64_round_trip(s.last());
    if i < s.len() - 1 {
        lemma_encode_u64s_layout(s.drop_last(), i);
        assert(encode_u64s(s).subrange(8 * i, 8 * i + 8) =~= encode_u64s(s.drop_last()).subrange(
            8 * i,
            8 * i + 8,
        ));
    } else {
        lemma_encode_u64s_len(s.drop_last());
        assert(encode_u64s(s).subrange(8 * i, 8 * i + 8) =~= be_u64(s[i]));
    }
}

proof fn lemma_encode_u64s_len(s: Seq<u64>)
    ensures
        encode_u64s(s).len() == 8 * s.len(),
    decreases s.len(),
{
    if s.len() > 0 {
        lemma_u64_round_trip(s.last());
        lemma_encode_u64s_len(s.drop_last());
    }
}

/// Reading back the layout of a sequence of `u32` gives the sequence.
pub proof fn lemma_u32s_round_trip(s: Seq<u32>)
    ensures
        encode_u32s(s).len() == 4 * s.len(),
        decode_u32s(encode_u32s(s)) == s,
{
    lemma_encode_u32s_len(s);
    assert forall|i: int| 0 <= i < s.len() implies #[trigger] decode_u32s(encode_u32s(s))[i]
        == s[i] by {
        lemma_encode_u32s_layout(s, i);
        lemma_u32_round_trip(s[i]);
    }
    assert(decode_u32s(encode_u32s(s)) =~= s);
}

/// Reading back the layout of a sequence of `u64` gives the sequence.
pub proof fn lemma_u64s_round_trip(s: Seq<u64>)
    ensures
        encode_u64s(s).len() == 8 * s.len(),
        decode_u64s(encode_u64s(s)) == s,
{
    lemma_encode_u64s_len(s);
    assert forall|i: int| 0 <= i < s.len() implies #[trigger] decode_u64s(encode_u64s(s))[i]
        == s[i] by {
        lemma_encode_u64s_layout(s, i);
        lemma_u64_round_trip(s[i]);
    }
    assert(decode_u64s(encode_u64s(s)) =~= s);
}

/// Appends the big-endian layout of `x` to `out`.
pub fn push_be_u32(out: &mut Vec<u8>, x: u32)
    ensures
        final(out)@ == old(out)@ + be_u32(x),
{
    out.push((x >> 24u32) as u8);
    out.push((x >> 16u32) as u8);
    out.push((x >> 8u32) as u8);
    out.push(x as u8);
    assert(out@ =~= old(out)@ + be_u32(x));
}

/// Appends the big-endian layout of `x` to `out`.
pub fn push_be_u64(out: &mut Vec<u8>, x: u64)
    ensures
        final(out)@ == old(out)@ + be_u64(x),
{
    out.push((x >> 56u64) as u8);
    out.push((x >> 48u64) as u8);
    out.push((x >> 40u64) as u8);
    out.push((x >> 32u64) as u8);
    out.push((x >> 24u64) as u8);
    out.push((x >> 16u64) as u8);
    out.push((x >> 8u64) as u8);
    out.push(x as u8);
    assert(out@ =~= old(out)@ + be_u64(x));
}

/// Reads the big-endian `u32` that starts at `at`.
pub fn get_be_u32(b: &[u8], at: usize) -> (r: u32)
    requires
        at + 4 <= b@.len(),
    ensures
        r == read_be_u32(b@.subrange(at as int, at + 4)),
{
    ((b[at] as u32) << 24u32) | ((b[at + 1] as u32) << 16u32) | ((b[at + 2] as u32) << 8u32) | (b[at
        + 3] as u32)
}

/// Reads the big-endian `u64` that starts at `at`.
pub fn get_be_u64(b: &[u8], at: usize) -> (r: u64)
    requires
        at + 8 <= b@.len(),
    ensures
        r == read_be_u64(b@.subrange(at as int, at + 8)),
{
    ((b[at] as u64) << 56u64) | ((b[at + 1] as u64) << 48u64) | ((b[at + 2] as u64) << 40u64) | ((b[at
        + 3] as u64) << 32u64) | ((b[at + 4] as u64) << 24u64) | ((b[at + 5] as u64) << 16u64) | ((b[at
        + 6] as u64) << 8u64) | (b[at + 7] as u64)
}

} // verus!
