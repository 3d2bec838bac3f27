//! Big-endian encoding of integers, as numbers travel on the wire.
use vstd::prelude::*;

verus! {

/// The eight bytes of `x`, most significant first.
pub open spec fn u64_be(x: u64) -> Seq<u8> {
    seq![
        (x >> 56u64) as u8,
        (x >> 48u64) as u8,
        (x >> 40u64) as u8,
        (x >> 32u64) as u8,
        (x >> 24u64) as u8,
        (x >> 16u64) as u8,
        (x >> 8u64) as u8,
        x as u8,
    ]
}

/// The number whose big-endian bytes are the first eight of `b`.
pub open spec fn u64_from_be(b: Seq<u8>) -> u64 {
    ((b[0] as u64) << 56u64) | ((b[1] as u64) << 48u64) | ((b[2] as u64) << 40u64) | ((b[3] as u64)
        << 32u64) | ((b[4] as u64) << 24u64) | ((b[5] as u64) << 16u64) | ((b[6] as u64) << 8u64) | (
    b[7] as u64)
}

/// The sixteen bytes of `x`, most significant first.
pub open spec fn u128_be(x: u128) -> Seq<u8> {
    u64_be((x >> 64u128) as u64) + u64_be(x as u64)
}

/// The number whose big-endian bytes are the first sixteen of `b`.
pub open spec fn u128_from_be(b: Seq<u8>) -> u128 {
    ((u64_from_be(b.subrange(0, 8)) as u128) << 64u128) | (u64_from_be(b.subrange(8, 16)) as u128)
}

/// Decoding the encoding of a number gives the number back.
pub proof fn lemma_u64_be_roundtrip(x: u64)
    ensures
        u64_be(x).len() == 8,
        u64_from_be(u64_be(x)) == x,
{
    let b = u64_be(x);
    assert(u64_from_be(b) == ((((x >> 56u64) as u8) as u64) << 56u64) | ((((x >> 48u64) as u8) as u64)
        << 48u64) | ((((x >> 40u64) as u8) as u64) << 40u64) | ((((x >> 32u64) as u8) as u64) << 32u64)
        | ((((x >> 24u64) as u8) as u64) << 24u64) | ((((x >> 16u64) as u8) as u64) << 16u64) | ((((x
        >> 8u64) as u8) as u64) << 8u64) | ((x as u8) as u64));
    assert(((((x >> 56u64) as u8) as u64) << 56u64) | ((((x >> 48u64) as u8) as u64) << 48u64) | ((((x
        >> 40u64) as u8) as u64) << 40u64) | ((((x >> 32u64) as u8) as u64) << 32u64) | ((((x >> 24u64)
        as u8) as u64) << 24u64) | ((((x >> 16u64) as u8) as u64) << 16u64) | ((((x >> 8u64) as u8) as u64)
        << 8u64) | ((x as u8) as u64) == x) by (bit_vector);
}

/// Encoding the number that eight bytes stand for gives the same bytes back.
pub proof fn lemma_u64_from_be_roundtrip(b: Seq<u8>)
    requires
        b.len() == 8,
    ensures
        u64_be(u64_from_be(b)) == b,
{
    let (b0, b1, b2, b3, b4, b5, b6, b7) = (b[0], b[1], b[2], b[3], b[4], b[5], b[6], b[7]);
    let x = u64_from_be(b);
    assert(x == ((b0 as u64) << 56u64) | ((b1 as u64) << 48u64) | ((b2 as u64) << 40u64) | ((b3 as u64)
        << 32u64) | ((b4 as u64) << 24u64) | ((b5 as u64) << 16u64) | ((b6 as u64) << 8u64) | (b7 as u64));
    assert({
        &&& (x >> 56u64) as u8 == b0
        &&& (x >> 48u64) as u8 == b1
        &&& (x >> 40u64) as u8 == b2
        &&& (x >> 32u64) as u8 == b3
        &&& (x >> 24u64) as u8 == b4
        &&& (x >> 16u64) as u8 == b5
        &&& (x >> 8u64) as u8 == b6
        &&& x as u8 == b7
    }) by (bit_vector)
        requires
            x == ((b0 as u64) << 56u64) | ((b1 as u64) << 48u64) | ((b2 as u64) << 40u64) | ((b3 as u64)
                << 32u64) | ((b4 as u64) << 24u64) | ((b5 as u64) << 16u64) | ((b6 as u64) << 8u64) | (
            b7 as u64),
    ;
    assert(u64_be(x) =~= b);
}

/// Decoding the encoding of a 128-bit number gives the number back.
pub proof fn lemma_u128_be_roundtrip(x: u128)
    ensures
        u128_be(x).len() == 16,
        u128_from_be(u128_be(x)) == x,
{
    let hi = (x >> 64u128) as u64;
    let lo = x as u64;
    lemma_u64_be_roundtrip(hi);
    lemma_u64_be_roundtrip(lo);
    let b = u128_be(x);
    assert(b.subrange(0, 8) =~= u64_be(hi));
    assert(b.subrange(8, 16) =~= u64_be(lo));
    assert((((((x >> 64u128) as u64) as u128) << 64u128) | ((x as u64) as u128)) == x) by (bit_vector);
}

/// Encoding the number that sixteen bytes stand for gives the same bytes back.
pub proof fn lemma_u128_from_be_roundtrip(b: Seq<u8>)
    requires
        b.len() == 16,
    ensures
        u128_be(u128_from_be(b)) == b,
{
    let hi = u64_from_be(b.subrange(0, 8));
    let lo = u64_from_be(b.subrange(8, 16));
    lemma_u64_from_be_roundtrip(b.subrange(0, 8));
    lemma_u64_from_be_roundtrip(b.subrange(8, 16));
    let x = u128_from_be(b);
    assert(((((hi as u128) << 64u128) | (lo as u128)) >> 64u128) as u64 == hi && (((hi as u128)
        << 64u128) | (lo as u128)) as u64 == lo) by (bit_vector);
    assert(u128_be(x) =~= b.subrange(0, 8) + b.subrange(8, 16));
    assert(b.subrange(0, 8) + b.subrange(8, 16) =~= b);
}

/// Appends `data` to `out`.
pub fn append_bytes(out: &mut Vec<u8>, data: &[u8])
    ensures
        final(out)@ == old(out)@ + data@,
{
    let ghost start = out@;
    let mut i: usize = 0;
    while i < data.len()
        invariant
            i <= data@.len(),
            out@ == start + data@.subrange(0, i as int),
        decreases data@.len() - i,
    {
        out.push(data[i]);
        i = i + 1;
        assert(out@ =~= start + data@.subrange(0, i as int));
    }
    assert(data@.subrange(0, data@.len() as int) =~= data@);
}

/// Appends the big-endian bytes of `x` to `out`.
pub fn push_u64_be(out: &mut Vec<u8>, x: u64)
    ensures
        final(out)@ == old(out)@ + u64_be(x),
{
    out.push((x >> 56u64) as u8);
    out.push((x >> 48u64) as u8);
    out.push((x >> 40u64) as u8);
    out.push((x >> 32u64) as u8);
    out.push((x >> 24u64) as u8);
    out.push((x >> 16u64) as u8);
    out.push((x >> 8u64) as u8);
    out.push(x as u8);
    assert(final(out)@ =~= old(out)@ + u64_be(x));
}

/// Appends the big-endian bytes of `x` to `out`.
pub fn push_u128_be(out: &mut Vec<u8>, x: u128)
    ensures
        final(out)@ == old(out)@ + u128_be(x),
{
    push_u64_be(out, (x >> 64u128) as u64);
    push_u64_be(out, x as u64);
    assert(final(out)@ =~= old(out)@ + u128_be(x));
}

/// The number whose big-endian bytes start at `start` in `data`.
pub fn read_u64_be(data: &[u8], start: usize) -> (x: u64)
    requires
        start + 8 <= data@.len(),
    ensures
        x == u64_from_be(data@.subrange(start as int, start + 8)),
{
    let ghost b = data@.subrange(start as int, start + 8);
    assert(b[0] == data@[start as int] && b[7] == data@[start + 7]);
    ((data[start] as u64) << 56u64) | ((data[start + 1] as u64) << 48u64) | ((data[start + 2] as u64)
        << 40u64) | ((data[start + 3] as u64) << 32u64) | ((data[start + 4] as u64) << 24u64) | ((data[start
        + 5] as u64) << 16u64) | ((data[start + 6] as u64) << 8u64) | (data[start + 7] as u64)
}

/// The number whose big-endian bytes start at `start` in `data`.
pub fn read_u128_be(data: &[u8], start: usize) -> (x: u128)
    requires
        start + 16 <= data@.len(),
    ensures
        x == u128_from_be(data@.subrange(start as int, start + 16)),
{
    let len = data.len();
    let hi = read_u64_be(data, start);
    let lo = read_u64_be(data, start + 8);
    let ghost b = data@.subrange(start as int, start + 16);
    assert(b.subrange(0, 8) =~= data@.subrange(start as int, start + 8));
    assert(b.subrange(8, 16) =~= data@.subrange(start + 8, start + 16));
    ((hi as u128) << 64u128) | (lo as u128)
}

} // verus!
