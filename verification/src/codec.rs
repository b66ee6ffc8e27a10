//! Big-endian integer encodings used on the wire.

use vstd::prelude::*;

verus! {

/// The four big-endian bytes of `x`.
pub open spec fn be_u32_bytes(x: u32) -> Seq<u8> {
    seq![(x >> 24u32) as u8, (x >> 16u32) as u8, (x >> 8u32) as u8, x as u8]
}

/// The number whose big-endian bytes are `b0 b1 b2 b3`.
pub open spec fn be_u32_value(b0: u8, b1: u8, b2: u8, b3: u8) -> u32 {
    ((b0 as u32) << 24u32) | ((b1 as u32) << 16u32) | ((b2 as u32) << 8u32) | (b3 as u32)
}

/// The two big-endian bytes of `x`.
pub open spec fn be_u16_bytes(x: u16) -> Seq<u8> {
    seq![(x >> 8u16) as u8, x as u8]
}

/// The number whose big-endian bytes are `b0 b1`.
pub open spec fn be_u16_value(b0: u8, b1: u8) -> u16 {
    ((b0 as u16) << 8u16) | (b1 as u16)
}

/// Reading back the big-endian bytes of a `u32` gives the `u32`.
pub proof fn lemma_be_u32_roundtrip(x: u32)
    ensures
        be_u32_value(
            be_u32_bytes(x)[0],
            be_u32_bytes(x)[1],
            be_u32_bytes(x)[2],
            be_u32_bytes(x)[3],
        ) == x,
{
    let b0 = (x >> 24u32) as u8;
    let b1 = (x >> 16u32) as u8;
    let b2 = (x >> 8u32) as u8;
    let b3 = x as u8;
    assert(((b0 as u32) << 24u32) | ((b1 as u32) << 16u32) | ((b2 as u32) << 8u32) | (b3 as u32)
        == x) by (bit_vector)
        requires
            b0 == (x >> 24u32) as u8,
            b1 == (x >> 16u32) as u8,
            b2 == (x >> 8u32) as u8,
            b3 == x as u8,
    ;
}

/// Reading back the big-endian bytes of a `u16` gives the `u16`.
pub proof fn lemma_be_u16_roundtrip(x: u16)
    ensures
        be_u16_value(be_u16_bytes(x)[0], be_u16_bytes(x)[1]) == x,
{
    let b0 = (x >> 8u16) as u8;
    let b1 = x as u8;
    assert(((b0 as u16) << 8u16) | (b1 as u16) == x) by (bit_vector)
        requires
            b0 == (x >> 8u16) as u8,
            b1 == x as u8,
    ;
}

/// Appends the big-endian bytes of `x` to `out`.
pub fn push_be_u32(out: &mut Vec<u8>, x: u32)
    ensures
        final(out)@ == old(out)@ + be_u32_bytes(x),
{
    out.push((x >> 24u32) as u8);
    out.push((x >> 16u32) as u8);
    out.push((x >> 8u32) as u8);
    out.push(x as u8);
    assert(final(out)@ =~= old(out)@ + be_u32_bytes(x));
}

/// The big-endian bytes of the number read from two bytes are those bytes.
pub proof fn lemma_be_u16_bytes_of_value(b0: u8, b1: u8)
    ensures
        be_u16_bytes(be_u16_value(b0, b1)) == seq![b0, b1],
{
    let x = be_u16_value(b0, b1);
    assert((x >> 8u16) as u8 == b0 && x as u8 == b1) by (bit_vector)
        requires
            x == ((b0 as u16) << 8u16) | (b1 as u16),
    ;
    assert(be_u16_bytes(x) =~= seq![b0, b1]);
}

/// Appends the big-endian bytes of `x` to `out`.
pub fn push_be_u16(out: &mut Vec<u8>, x: u16)
    ensures
        final(out)@ == old(out)@ + be_u16_bytes(x),
{
    out.push((x >> 8u16) as u8);
    out.push(x as u8);
    assert(final(out)@ =~= old(out)@ + be_u16_bytes(x));
}

/// The `u32` stored big-endian at `bytes[at..at + 4]`.
pub fn read_be_u32(bytes: &[u8], at: usize) -> (r: u32)
    requires
        at + 4 <= bytes@.len(),
    ensures
        r == be_u32_value(bytes@[at as int], bytes@[at + 1], bytes@[at + 2], bytes@[at + 3]),
{
    ((bytes[at] as u32) << 24u32) | ((bytes[at + 1] as u32) << 16u32) | ((bytes[at + 2] as u32)
        << 8u32) | (bytes[at + 3] as u32)
}

/// The `u16` stored big-endian at `bytes[at..at + 2]`.
pub fn read_be_u16(bytes: &[u8], at: usize) -> (r: u16)
    requires
        at + 2 <= bytes@.len(),
    ensures
        r == be_u16_value(bytes@[at as int], bytes@[at + 1]),
{
    ((bytes[at] as u16) << 8u16) | (bytes[at + 1] as u16)
}

/// A copy of `bytes[from..to]`.
pub fn copy_range(bytes: &[u8], from: usize, to: usize) -> (r: Vec<u8>)
    requires
        from <= to <= bytes@.len(),
    ensures
        r@ == bytes@.subrange(from as int, to as int),
{
    let mut out: Vec<u8> = Vec::new();
    let mut i: usize = from;
    while i < to
        invariant
            from <= i <= to <= bytes@.len(),
            out@ == bytes@.subrange(from as int, i as int),
        decreases to - i,
    {
        out.push(bytes[i]);
        assert(bytes@.subrange(from as int, i + 1) =~= bytes@.subrange(from as int, i as int)
            + seq![bytes@[i as int]]);
        i = i + 1;
    }
    out
}

} // verus!
