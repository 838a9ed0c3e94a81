//! Little- and big-endian encodings of fixed-width integers.

use vstd::prelude::*;

verus! {

/// The four bytes of `x`, least significant first.
pub open spec fn le_bytes_u32(x: u32) -> Seq<u8> {
    seq![
        (x % 256) as u8,
        ((x / 256) % 256) as u8,
        ((x / 65536) % 256) as u8,
        (x / 16777216) as u8,
    ]
}

/// The four bytes of `x`, most significant first.
pub open spec fn be_bytes_u32(x: u32) -> Seq<u8> {
    seq![
        (x / 16777216) as u8,
        ((x / 65536) % 256) as u8,
        ((x / 256) % 256) as u8,
        (x % 256) as u8,
    ]
}

/// The two bytes of `x`, least significant first.
pub open spec fn le_bytes_u16(x: u16) -> Seq<u8> {
    seq![(x % 256) as u8, (x / 256) as u8]
}

/// The `u32` stored little-endian in `b[off..off + 4]`.
pub open spec fn le_u32_at(b: Seq<u8>, off: int) -> u32 {
    (b[off] + 256 * b[off + 1] + 65536 * b[off + 2] + 16777216 * b[off + 3]) as u32
}

/// The `u32` stored big-endian in `b[off..off + 4]`.
pub open spec fn be_u32_at(b: Seq<u8>, off: int) -> u32 {
    (16777216 * b[off] + 65536 * b[off + 1] + 256 * b[off + 2] + b[off + 3]) as u32
}

/// The `u16` stored little-endian in `b[off..off + 2]`.
pub open spec fn le_u16_at(b: Seq<u8>, off: int) -> u16 {
    (b[off] + 256 * b[off + 1]) as u16
}

/// Decoding the little-endian bytes of `x` gives `x` back.
pub proof fn lemma_le_u32_roundtrip(x: u32)
    ensures
        le_bytes_u32(x).len() == 4,
        le_u32_at(le_bytes_u32(x), 0) == x,
{
}

/// Decoding the big-endian bytes of `x` gives `x` back.
pub proof fn lemma_be_u32_roundtrip(x: u32)
    ensures
        be_bytes_u32(x).len() == 4,
        be_u32_at(be_bytes_u32(x), 0) == x,
{
}

/// Decoding the little-endian bytes of `x` gives `x` back.
pub proof fn lemma_le_u16_roundtrip(x: u16)
    ensures
        le_bytes_u16(x).len() == 2,
        le_u16_at(le_bytes_u16(x), 0) == x,
{
}

/// Encoding a decoded `u32` gives the four bytes it was read from.
pub proof fn lemma_le_u32_bytes_of_value(b: Seq<u8>, off: int)
    requires
        0 <= off,
        off + 4 <= b.len(),
    ensures
        le_bytes_u32(le_u32_at(b, off)) == b.subrange(off, off + 4),
{
    let v = le_u32_at(b, off);
    assert(le_bytes_u32(v) =~= b.subrange(off, off + 4));
}

/// Encoding a decoded `u16` gives the two bytes it was read from.
pub proof fn lemma_le_u16_bytes_of_value(b: Seq<u8>, off: int)
    requires
        0 <= off,
        off + 2 <= b.len(),
    ensures
        le_bytes_u16(le_u16_at(b, off)) == b.subrange(off, off + 2),
{
    assert(le_bytes_u16(le_u16_at(b, off)) =~= b.subrange(off, off + 2));
}

/// Appends the little-endian bytes of `x`.
pub fn push_u32_le(out: &mut Vec<u8>, x: u32)
    ensures
        final(out)@ == old(out)@ + le_bytes_u32(x),
{
    out.push((x % 256) as u8);
    out.push(((x / 256) % 256) as u8);
    out.push(((x / 65536) % 256) as u8);
    out.push((x / 16777216) as u8);
    assert(final(out)@ =~= old(out)@ + le_bytes_u32(x));
}

/// Appends the little-endian bytes of `x`.
pub fn push_u16_le(out: &mut Vec<u8>, x: u16)
    ensures
        final(out)@ == old(out)@ + le_bytes_u16(x),
{
    out.push((x % 256) as u8);
    out.push((x / 256) as u8);
    assert(final(out)@ =~= old(out)@ + le_bytes_u16(x));
}

/// Reads the little-endian `u32` at `off`.
pub fn read_u32_le(b: &[u8], off: usize) -> (r: u32)
    requires
        off + 4 <= b@.len(),
    ensures
        r == le_u32_at(b@, off as int),
{
    let b0: u32 = b[off] as u32;
    let b1: u32 = b[off + 1] as u32;
    let b2: u32 = b[off + 2] as u32;
    let b3: u32 = b[off + 3] as u32;
    b0 + 256 * b1 + 65536 * b2 + 16777216 * b3
}

/// Reads the big-endian `u32` at `off`.
pub fn read_u32_be(b: &[u8], off: usize) -> (r: u32)
    requires
        off + 4 <= b@.len(),
    ensures
        r == be_u32_at(b@, off as int),
{
    let b0: u32 = b[off] as u32;
    let b1: u32 = b[off + 1] as u32;
    let b2: u32 = b[off + 2] as u32;
    let b3: u32 = b[off + 3] as u32;
    16777216 * b0 + 65536 * b1 + 256 * b2 + b3
}

/// Reads the little-endian `u16` at `off`.
pub fn read_u16_le(b: &[u8], off: usize) -> (r: u16)
    requires
        off + 2 <= b@.len(),
    ensures
        r == le_u16_at(b@, off as int),
{
    let b0: u16 = b[off] as u16;
    let b1: u16 = b[off + 1] as u16;
    b0 + 256 * b1
}

} // verus!
