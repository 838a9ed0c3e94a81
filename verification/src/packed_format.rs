//! Compact binary splat format ("GSZ1"), 26 bytes per splat.
//!
//! Layout (little-endian, structure-of-arrays):
//!   bytes 0..4   magic b"GSZ1"
//!   bytes 4..8   splat count `n` (u32)
//!   positions    n * 3 * f32 bit patterns
//!   scales       n * 3 * f16 bit patterns
//!   rotations    n * 4 * u8    (quantized quaternion)
//!   colors       n * 4 * u8    (r, g, b, opacity)
//!
//! The codec works on the stored bit patterns; turning them into floating
//! point values (and quantizing floats into them) is left to the caller.

use vstd::prelude::*;
use crate::byte_order::{lemma_le_u16_roundtrip, lemma_le_u32_roundtrip, lemma_le_u16_bytes_of_value, lemma_le_u32_bytes_of_value, le_bytes_u16, le_bytes_u32, le_u16_at, le_u32_at, push_u16_le, push_u32_le, read_u16_le, read_u32_le};

verus! {

/// Length of the magic plus the splat count.
pub const HEADER_SIZE: usize = 8;

/// Bytes that one splat occupies after the header.
pub const BYTES_PER_SPLAT: usize = 26;

/// One splat as stored in the packed format: the bit patterns of its
/// position (f32) and scale (f16), its quantized rotation and its color.
#[derive(Clone, Copy, Debug, PartialEq, Eq, Structural)]
pub struct PackedSplat {
    pub x: u32,
    pub y: u32,
    pub z: u32,
    pub scale_0: u16,
    pub scale_1: u16,
    pub scale_2: u16,
    pub rot_0: u8,
    pub rot_1: u8,
    pub rot_2: u8,
    pub rot_3: u8,
    pub r: u8,
    pub g: u8,
    pub b: u8,
    pub opacity: u8,
}

/// Why a byte buffer could not be decoded.
#[derive(Clone, Copy, Debug, PartialEq, Eq, Structural)]
pub enum DecodeError {
    /// The buffer is shorter than the header or does not start with "GSZ1".
    NotPacked,
    /// The header announces more splats than the buffer holds.
    Truncated { expected: u64, got: usize },
}

/// The magic "GSZ1".
pub open spec fn magic() -> Seq<u8> {
    seq![71u8, 83u8, 90u8, 49u8]
}

/// `b` is long enough for a header and starts with the magic.
pub open spec fn spec_is_packed(b: Seq<u8>) -> bool {
    &&& b.len() >= HEADER_SIZE
    &&& b[0] == 71u8
    &&& b[1] == 83u8
    &&& b[2] == 90u8
    &&& b[3] == 49u8
}

/// The splat count stored in the header.
pub open spec fn header_count(b: Seq<u8>) -> int {
    le_u32_at(b, 4) as int
}

/// Total size of a packed buffer holding `n` splats.
pub open spec fn packed_size(n: int) -> int {
    8 + 26 * n
}

/// The `i`-th of the `n` splats stored in `b`.
pub open spec fn record_at(b: Seq<u8>, n: int, i: int) -> PackedSplat {
    let p = 8 + 12 * i;
    let s = 8 + 12 * n + 6 * i;
    let q = 8 + 18 * n + 4 * i;
    let c = 8 + 22 * n + 4 * i;
    PackedSplat {
        x: le_u32_at(b, p),
        y: le_u32_at(b, p + 4),
        z: le_u32_at(b, p + 8),
        scale_0: le_u16_at(b, s),
        scale_1: le_u16_at(b, s + 2),
        scale_2: le_u16_at(b, s + 4),
        rot_0: b[q],
        rot_1: b[q + 1],
        rot_2: b[q + 2],
        rot_3: b[q + 3],
        r: b[c],
        g: b[c + 1],
        b: b[c + 2],
        opacity: b[c + 3],
    }
}

/// All splats stored in `b`, as announced by its header.
pub open spec fn decoded(b: Seq<u8>) -> Seq<PackedSplat> {
    Seq::new(header_count(b) as nat, |i: int| record_at(b, header_count(b), i))
}

/// What decoding `b` gives.
pub open spec fn spec_decode(b: Seq<u8>) -> Result<Seq<PackedSplat>, DecodeError> {
    if !spec_is_packed(b) {
        Err(DecodeError::NotPacked)
    } else if b.len() < packed_size(header_count(b)) {
        Err(DecodeError::Truncated { expected: packed_size(header_count(b)) as u64, got: b.len() as usize })
    } else {
        Ok(decoded(b))
    }
}

pub open spec fn position_bytes(s: PackedSplat) -> Seq<u8> {
    le_bytes_u32(s.x) + le_bytes_u32(s.y) + le_bytes_u32(s.z)
}

pub open spec fn scale_bytes(s: PackedSplat) -> Seq<u8> {
    le_bytes_u16(s.scale_0) + le_bytes_u16(s.scale_1) + le_bytes_u16(s.scale_2)
}

pub open spec fn rotation_bytes(s: PackedSplat) -> Seq<u8> {
    seq![s.rot_0, s.rot_1, s.rot_2, s.rot_3]
}

pub open spec fn color_bytes(s: PackedSplat) -> Seq<u8> {
    seq![s.r, s.g, s.b, s.opacity]
}

/// The bytes that splat `s` contributes to section `part`
/// (0: position, 1: scale, 2: rotation, 3: color).
pub open spec fn chunk(part: int, s: PackedSplat) -> Seq<u8> {
    if part == 0 {
        position_bytes(s)
    } else if part == 1 {
        scale_bytes(s)
    } else if part == 2 {
        rotation_bytes(s)
    } else {
        color_bytes(s)
    }
}

/// Bytes per splat in section `part`.
pub open spec fn chunk_width(part: int) -> int {
    if part == 0 {
        12
    } else if part == 1 {
        6
    } else {
        4
    }
}

/// Offset of section `part` in a buffer of `n` splats.
pub open spec fn section_start(part: int, n: int) -> int {
    if part == 0 {
        8
    } else if part == 1 {
        8 + 12 * n
    } else if part == 2 {
        8 + 18 * n
    } else {
        8 + 22 * n
    }
}

/// The chunks of section `part` of all splats, one after the other.
pub open spec fn section(s: Seq<PackedSplat>, part: int) -> Seq<u8>
    decreases s.len(),
{
    if s.len() == 0 {
        Seq::empty()
    } else {
        section(s.drop_last(), part) + chunk(part, s.last())
    }
}

/// The header: magic, then the splat count (the low 32 bits of it).
pub open spec fn header_bytes(n: int) -> Seq<u8> {
    magic() + le_bytes_u32(n as u32)
}

/// The packed encoding of `s`.
pub open spec fn encoding(s: Seq<PackedSplat>) -> Seq<u8> {
    header_bytes(s.len() as int) + section(s, 0) + section(s, 1) + section(s, 2) + section(s, 3)
}

proof fn lemma_chunk_len(part: int, s: PackedSplat)
    requires
        0 <= part < 4,
    ensures
        chunk(part, s).len() == chunk_width(part),
{
}

/// A section holds `chunk_width(part)` bytes per splat.
pub proof fn lemma_section_len(s: Seq<PackedSplat>, part: int)
    requires
        0 <= part < 4,
    ensures
        section(s, part).len() == chunk_width(part) * s.len(),
    decreases s.len(),
{
    if s.len() > 0 {
        lemma_section_len(s.drop_last(), part);
        lemma_chunk_len(part, s.last());
        let w = chunk_width(part);
        assert(w * s.len() == w * (s.len() - 1) + w) by (nonlinear_arith);
    }
}

/// Byte `w * i + j` of a section is byte `j` of the `i`-th splat's chunk.
pub proof fn lemma_section_index(s: Seq<PackedSplat>, part: int, i: int, j: int)
    requires
        0 <= part < 4,
        0 <= i < s.len(),
        0 <= j < chunk_width(part),
    ensures
        section(s, part)[chunk_width(part) * i + j] == chunk(part, s[i])[j],
    decreases s.len(),
{
    let w = chunk_width(part);
    let pre = s.drop_last();
    lemma_section_len(pre, part);
    lemma_chunk_len(part, s.last());
    if i == s.len() - 1 {
        assert(w * i == w * pre.len());
    } else {
        lemma_section_index(pre, part, i, j);
        assert(w * i + j < w * pre.len()) by (nonlinear_arith)
            requires
                0 <= i < pre.len(),
                0 <= j < w,
        {
            assert(w * i + w <= w * pre.len());
        }
    }
}

/// The length of an encoding.
pub proof fn lemma_encoding_len(s: Seq<PackedSplat>)
    ensures
        encoding(s).len() == packed_size(s.len() as int),
{
    lemma_section_len(s, 0);
    lemma_section_len(s, 1);
    lemma_section_len(s, 2);
    lemma_section_len(s, 3);
}

/// Where each byte of a section lands in the encoding.
pub proof fn lemma_encoding_index(s: Seq<PackedSplat>, part: int, i: int, j: int)
    requires
        0 <= part < 4,
        0 <= i < s.len(),
        0 <= j < chunk_width(part),
    ensures
        encoding(s)[section_start(part, s.len() as int) + chunk_width(part) * i + j] == chunk(
            part,
            s[i],
        )[j],
{
    lemma_section_len(s, 0);
    lemma_section_len(s, 1);
    lemma_section_len(s, 2);
    lemma_section_len(s, 3);
    lemma_section_index(s, part, i, j);
    let w = chunk_width(part);
    assert(0 <= w * i + j < w * s.len()) by (nonlinear_arith)
        requires
            0 <= i < s.len(),
            0 <= j < w,
    {
        assert(w * i + w <= w * s.len());
    }
}

proof fn lemma_u32_field(e: Seq<u8>, off: int, v: u32)
    requires
        0 <= off,
        off + 4 <= e.len(),
        forall|k: int| 0 <= k < 4 ==> e[off + k] == #[trigger] le_bytes_u32(v)[k],
    ensures
        le_u32_at(e, off) == v,
{
    lemma_le_u32_roundtrip(v);
    assert(e[off + 0] == le_bytes_u32(v)[0]);
    assert(e[off + 1] == le_bytes_u32(v)[1]);
    assert(e[off + 2] == le_bytes_u32(v)[2]);
    assert(e[off + 3] == le_bytes_u32(v)[3]);
}

proof fn lemma_u16_field(e: Seq<u8>, off: int, v: u16)
    requires
        0 <= off,
        off + 2 <= e.len(),
        forall|k: int| 0 <= k < 2 ==> e[off + k] == #[trigger] le_bytes_u16(v)[k],
    ensures
        le_u16_at(e, off) == v,
{
    lemma_le_u16_roundtrip(v);
    assert(e[off + 0] == le_bytes_u16(v)[0]);
    assert(e[off + 1] == le_bytes_u16(v)[1]);
}

proof fn lemma_decoded_position(s: Seq<PackedSplat>, i: int)
    requires
        0 <= i < s.len(),
    ensures
        le_u32_at(encoding(s), 8 + 12 * i) == s[i].x,
        le_u32_at(encoding(s), 8 + 12 * i + 4) == s[i].y,
        le_u32_at(encoding(s), 8 + 12 * i + 8) == s[i].z,
{
    let e = encoding(s);
    let p = s[i];
    lemma_encoding_len(s);
    assert forall|j: int| 0 <= j < 12 implies e[8 + 12 * i + j] == #[trigger] position_bytes(p)[j] by {
        lemma_encoding_index(s, 0, i, j);
    }
    assert forall|k: int| 0 <= k < 4 implies e[(8 + 12 * i) + k] == #[trigger] le_bytes_u32(p.x)[k] by {
        assert(position_bytes(p)[k] == le_bytes_u32(p.x)[k]);
    }
    assert forall|k: int| 0 <= k < 4 implies e[(8 + 12 * i + 4) + k] == #[trigger] le_bytes_u32(p.y)[k] by {
        assert(position_bytes(p)[4 + k] == le_bytes_u32(p.y)[k]);
    }
    assert forall|k: int| 0 <= k < 4 implies e[(8 + 12 * i + 8) + k] == #[trigger] le_bytes_u32(p.z)[k] by {
        assert(position_bytes(p)[8 + k] == le_bytes_u32(p.z)[k]);
    }
    lemma_u32_field(e, 8 + 12 * i, p.x);
    lemma_u32_field(e, 8 + 12 * i + 4, p.y);
    lemma_u32_field(e, 8 + 12 * i + 8, p.z);
}

proof fn lemma_decoded_scale(s: Seq<PackedSplat>, i: int)
    requires
        0 <= i < s.len(),
    ensures
        le_u16_at(encoding(s), 8 + 12 * s.len() + 6 * i) == s[i].scale_0,
        le_u16_at(encoding(s), 8 + 12 * s.len() + 6 * i + 2) == s[i].scale_1,
        le_u16_at(encoding(s), 8 + 12 * s.len() + 6 * i + 4) == s[i].scale_2,
{
    let e = encoding(s);
    let p = s[i];
    let n = s.len() as int;
    lemma_encoding_len(s);
    assert forall|j: int| 0 <= j < 6 implies e[8 + 12 * n + 6 * i + j] == #[trigger] scale_bytes(p)[j] by {
        lemma_encoding_index(s, 1, i, j);
    }
    assert forall|k: int| 0 <= k < 2 implies e[(8 + 12 * n + 6 * i) + k] == #[trigger] le_bytes_u16(p.scale_0)[k] by {
        assert(scale_bytes(p)[k] == le_bytes_u16(p.scale_0)[k]);
    }
    assert forall|k: int| 0 <= k < 2 implies e[(8 + 12 * n + 6 * i + 2) + k] == #[trigger] le_bytes_u16(p.scale_1)[k] by {
        assert(scale_bytes(p)[2 + k] == le_bytes_u16(p.scale_1)[k]);
    }
    assert forall|k: int| 0 <= k < 2 implies e[(8 + 12 * n + 6 * i + 4) + k] == #[trigger] le_bytes_u16(p.scale_2)[k] by {
        assert(scale_bytes(p)[4 + k] == le_bytes_u16(p.scale_2)[k]);
    }
    lemma_u16_field(e, 8 + 12 * n + 6 * i, p.scale_0);
    lemma_u16_field(e, 8 + 12 * n + 6 * i + 2, p.scale_1);
    lemma_u16_field(e, 8 + 12 * n + 6 * i + 4, p.scale_2);
}

proof fn lemma_decoded_bytes(s: Seq<PackedSplat>, i: int)
    requires
        0 <= i < s.len(),
    ensures
        encoding(s)[8 + 18 * s.len() + 4 * i] == s[i].rot_0,
        encoding(s)[8 + 18 * s.len() + 4 * i + 1] == s[i].rot_1,
        encoding(s)[8 + 18 * s.len() + 4 * i + 2] == s[i].rot_2,
        encoding(s)[8 + 18 * s.len() + 4 * i + 3] == s[i].rot_3,
        encoding(s)[8 + 22 * s.len() + 4 * i] == s[i].r,
        encoding(s)[8 + 22 * s.len() + 4 * i + 1] == s[i].g,
        encoding(s)[8 + 22 * s.len() + 4 * i + 2] == s[i].b,
        encoding(s)[8 + 22 * s.len() + 4 * i + 3] == s[i].opacity,
{
    lemma_encoding_index(s, 2, i, 0);
    lemma_encoding_index(s, 2, i, 1);
    lemma_encoding_index(s, 2, i, 2);
    lemma_encoding_index(s, 2, i, 3);
    lemma_encoding_index(s, 3, i, 0);
    lemma_encoding_index(s, 3, i, 1);
    lemma_encoding_index(s, 3, i, 2);
    lemma_encoding_index(s, 3, i, 3);
}

/// Decoding an encoding gives back the splats it was made from
/// (whenever their number fits the 32-bit count of the header).
pub proof fn lemma_decode_encode(s: Seq<PackedSplat>)
    requires
        s.len() <= u32::MAX,
    ensures
        spec_decode(encoding(s)) == Ok::<Seq<PackedSplat>, DecodeError>(s),
{
    let e = encoding(s);
    let n = s.len() as int;
    lemma_encoding_len(s);
    lemma_le_u32_roundtrip(n as u32);
    assert(e[4] == le_bytes_u32(n as u32)[0]);
    assert(e[5] == le_bytes_u32(n as u32)[1]);
    assert(e[6] == le_bytes_u32(n as u32)[2]);
    assert(e[7] == le_bytes_u32(n as u32)[3]);
    assert(header_count(e) == n);
    assert forall|i: int| 0 <= i < n implies #[trigger] record_at(e, n, i) == s[i] by {
        lemma_decoded_position(s, i);
        lemma_decoded_scale(s, i);
        lemma_decoded_bytes(s, i);
    }
    assert(decoded(e) =~= s);
}

proof fn lemma_chunk_of_record(b: Seq<u8>, n: int, i: int, part: int, j: int)
    requires
        0 <= part < 4,
        0 <= i < n,
        0 <= j < chunk_width(part),
        packed_size(n) <= b.len(),
    ensures
        chunk(part, record_at(b, n, i))[j] == b[section_start(part, n) + chunk_width(part) * i + j],
{
    let r = record_at(b, n, i);
    if part == 0 {
        let p = 8 + 12 * i;
        lemma_le_u32_bytes_of_value(b, p);
        lemma_le_u32_bytes_of_value(b, p + 4);
        lemma_le_u32_bytes_of_value(b, p + 8);
        if j < 4 {
            assert(position_bytes(r)[j] == le_bytes_u32(r.x)[j]);
        } else if j < 8 {
            assert(position_bytes(r)[j] == le_bytes_u32(r.y)[j - 4]);
        } else {
            assert(position_bytes(r)[j] == le_bytes_u32(r.z)[j - 8]);
        }
    } else if part == 1 {
        let q = 8 + 12 * n + 6 * i;
        lemma_le_u16_bytes_of_value(b, q);
        lemma_le_u16_bytes_of_value(b, q + 2);
        lemma_le_u16_bytes_of_value(b, q + 4);
        if j < 2 {
            assert(scale_bytes(r)[j] == le_bytes_u16(r.scale_0)[j]);
        } else if j < 4 {
            assert(scale_bytes(r)[j] == le_bytes_u16(r.scale_1)[j - 2]);
        } else {
            assert(scale_bytes(r)[j] == le_bytes_u16(r.scale_2)[j - 4]);
        }
    }
}

/// Re-encoding what was decoded gives back the decoded part of the buffer
/// byte for byte: the format has one encoding per splat sequence.
pub proof fn lemma_encode_decode(b: Seq<u8>)
    requires
        spec_decode(b) is Ok,
    ensures
        encoding(decoded(b)) == b.subrange(0, packed_size(header_count(b))),
{
    let s = decoded(b);
    let n = header_count(b);
    let e = encoding(s);
    lemma_encoding_len(s);
    lemma_le_u32_bytes_of_value(b, 4);
    assert forall|k: int| 0 <= k < packed_size(n) implies #[trigger] e[k] == b[k] by {
        if k < 4 {
        } else if k < 8 {
            assert(b.subrange(4, 8)[k - 4] == b[k]);
        } else {
            let part = if k < 8 + 12 * n {
                0int
            } else if k < 8 + 18 * n {
                1int
            } else if k < 8 + 22 * n {
                2int
            } else {
                3int
            };
            let w = chunk_width(part);
            let off = k - section_start(part, n);
            let i = off / w;
            let j = off % w;
            assert(off == w * i + j && 0 <= j < w) by (nonlinear_arith)
                requires
                    w > 0,
                    off >= 0,
                    i == off / w,
                    j == off % w,
            ;
            assert(0 <= i < n) by (nonlinear_arith)
                requires
                    w > 0,
                    0 <= off < w * n,
                    i == off / w,
            ;
            lemma_encoding_index(s, part, i, j);
            lemma_chunk_of_record(b, n, i, part, j);
        }
    }
    assert(e =~= b.subrange(0, packed_size(n)));
}

/// `b` starts with the magic and is at least a header long.
pub fn is_packed_format(bytes: &[u8]) -> (r: bool)
    ensures
        r == spec_is_packed(bytes@),
{
    bytes.len() >= HEADER_SIZE && bytes[0] == 71u8 && bytes[1] == 83u8 && bytes[2] == 90u8
        && bytes[3] == 49u8
}

/// Encodes `splats` in the packed format: the header, then the positions,
/// scales, rotations and colors of all splats, section by section.
pub fn encode(splats: &[PackedSplat]) -> (out: Vec<u8>)
    ensures
        out@ == encoding(splats@),
{
    let n = splats.len();
    let mut out: Vec<u8> = Vec::new();
    out.push(71u8);
    out.push(83u8);
    out.push(90u8);
    out.push(49u8);
    #[verifier::truncate]
    let count: u32 = n as u32;
    push_u32_le(&mut out, count);
    let ghost header = out@;
    assert(header =~= header_bytes(n as int));
    let mut i: usize = 0;
    while i < n
        invariant
            n == splats@.len(),
            i <= n,
            out@ == header + section(splats@.take(i as int), 0),
        decreases n - i,
    {
        let sp = splats[i];
        push_u32_le(&mut out, sp.x);
        push_u32_le(&mut out, sp.y);
        push_u32_le(&mut out, sp.z);
        assert(splats@.take(i + 1).drop_last() =~= splats@.take(i as int));
        i = i + 1;
    }
    assert(splats@.take(n as int) =~= splats@);
    let ghost upto0 = out@;
    i = 0;
    while i < n
        invariant
            n == splats@.len(),
            i <= n,
            out@ == upto0 + section(splats@.take(i as int), 1),
        decreases n - i,
    {
        let sp = splats[i];
        push_u16_le(&mut out, sp.scale_0);
        push_u16_le(&mut out, sp.scale_1);
        push_u16_le(&mut out, sp.scale_2);
        assert(splats@.take(i + 1).drop_last() =~= splats@.take(i as int));
        i = i + 1;
    }
    let ghost upto1 = out@;
    i = 0;
    while i < n
        invariant
            n == splats@.len(),
            i <= n,
            out@ == upto1 + section(splats@.take(i as int), 2),
        decreases n - i,
    {
        let sp = splats[i];
        let ghost before = out@;
        out.push(sp.rot_0);
        out.push(sp.rot_1);
        out.push(sp.rot_2);
        out.push(sp.rot_3);
        assert(out@ =~= before + rotation_bytes(sp));
        assert(splats@.take(i + 1).drop_last() =~= splats@.take(i as int));
        i = i + 1;
    }
    let ghost upto2 = out@;
    i = 0;
    while i < n
        invariant
            n == splats@.len(),
            i <= n,
            out@ == upto2 + section(splats@.take(i as int), 3),
        decreases n - i,
    {
        let sp = splats[i];
        let ghost before = out@;
        out.push(sp.r);
        out.push(sp.g);
        out.push(sp.b);
        out.push(sp.opacity);
        assert(out@ =~= before + color_bytes(sp));
        assert(splats@.take(i + 1).drop_last() =~= splats@.take(i as int));
        i = i + 1;
    }
    assert(out@ =~= encoding(splats@));
    out
}

/// Decodes a packed buffer into its splats. Fails with `NotPacked` when the
/// buffer does not start with the header, and with `Truncated` when it is
/// shorter than the header's splat count calls for; bytes past the last
/// section are ignored.
pub fn decode(bytes: &[u8]) -> (r: Result<Vec<PackedSplat>, DecodeError>)
    ensures
        match r {
            Ok(v) => spec_decode(bytes@) == Ok::<Seq<PackedSplat>, DecodeError>(v@),
            Err(e) => spec_decode(bytes@) == Err::<Seq<PackedSplat>, DecodeError>(e),
        },
{
    if !is_packed_format(bytes) {
        return Err(DecodeError::NotPacked);
    }
    let count: u32 = read_u32_le(bytes, 4);
    let end: u64 = 8 + 26 * (count as u64);
    if (bytes.len() as u64) < end {
        return Err(DecodeError::Truncated { expected: end, got: bytes.len() });
    }
    let n: usize = count as usize;
    let scale_start: usize = 8 + 12 * n;
    let rot_start: usize = 8 + 18 * n;
    let color_start: usize = 8 + 22 * n;
    let mut splats: Vec<PackedSplat> = Vec::new();
    let mut i: usize = 0;
    while i < n
        invariant
            n == header_count(bytes@),
            spec_is_packed(bytes@),
            packed_size(n as int) <= bytes@.len(),
            bytes@.len() == bytes.len(),
            scale_start == 8 + 12 * n,
            rot_start == 8 + 18 * n,
            color_start == 8 + 22 * n,
            i <= n,
            splats@ =~= Seq::new(i as nat, |k: int| record_at(bytes@, n as int, k)),
        decreases n - i,
    {
        let p: usize = 8 + 12 * i;
        let s: usize = scale_start + 6 * i;
        let q: usize = rot_start + 4 * i;
        let c: usize = color_start + 4 * i;
        let sp = PackedSplat {
            x: read_u32_le(bytes, p),
            y: read_u32_le(bytes, p + 4),
            z: read_u32_le(bytes, p + 8),
            scale_0: read_u16_le(bytes, s),
            scale_1: read_u16_le(bytes, s + 2),
            scale_2: read_u16_le(bytes, s + 4),
            rot_0: bytes[q],
            rot_1: bytes[q + 1],
            rot_2: bytes[q + 2],
            rot_3: bytes[q + 3],
            r: bytes[c],
            g: bytes[c + 1],
            b: bytes[c + 2],
            opacity: bytes[c + 3],
        };
        assert(sp == record_at(bytes@, n as int, i as int));
        splats.push(sp);
        i = i + 1;
    }
    Ok(splats)
}

} // verus!
