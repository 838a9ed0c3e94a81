//! Decisions of the renderer that do not touch the GPU: what a pixel of
//! the picking pass means, and how tall the data textures are.

use vstd::prelude::*;

verus! {

/// Width, in texels, of the textures that carry splat data.
pub const TEXTURE_WIDTH: i32 = 2000;

/// What the picking pass left in a pixel (red, green, blue, alpha): the
/// picked index, whether it is a gizmo handle, and whether anything was hit.
/// A green pixel is the background; a blue one a gizmo handle; otherwise
/// red holds the index of a mesh object.
pub open spec fn spec_decode_pick(buffer: Seq<u8>) -> (u32, bool, bool) {
    if buffer[1] != 0 {
        (0, false, false)
    } else if buffer[2] == 0 {
        (buffer[0] as u32, false, true)
    } else {
        (buffer[0] as u32, true, true)
    }
}

/// Reads one pixel of the picking pass.
pub fn decode_pick(buffer: [u8; 4]) -> (r: (u32, bool, bool))
    ensures
        r == spec_decode_pick(buffer@),
{
    if buffer[1] != 0 {
        return (0, false, false);
    }
    if buffer[2] == 0 {
        let index: u32 = buffer[0] as u32;
        return (index, false, true);
    }
    (buffer[0] as u32, true, true)
}

/// Rows of a data texture for `number_of_values` values: the ceiling of
/// `number_of_values / TEXTURE_WIDTH`.
pub fn texture_height(number_of_values: i32) -> (h: i32)
    requires
        0 <= number_of_values <= i32::MAX - TEXTURE_WIDTH,
    ensures
        h == (number_of_values + TEXTURE_WIDTH - 1) / (TEXTURE_WIDTH as int),
        h * TEXTURE_WIDTH >= number_of_values,
        (h - 1) * TEXTURE_WIDTH < number_of_values || h == 0,
{
    (number_of_values + TEXTURE_WIDTH - 1) / TEXTURE_WIDTH
}

/// Texels of the RGB float texture that holds `n` values: whole rows of
/// `TEXTURE_WIDTH`, three components each.
pub open spec fn texture_len(n: int) -> int {
    3 * TEXTURE_WIDTH * ((n + TEXTURE_WIDTH - 1) / (TEXTURE_WIDTH as int))
}

/// The data of an RGB float texture holding `values` (bit patterns of the
/// floats): `values`, then zeros up to the texture's size.
pub fn pad_texture_data(values: &[u32]) -> (r: Vec<u32>)
    requires
        values@.len() <= i32::MAX - TEXTURE_WIDTH,
        texture_len(values@.len() as int) <= usize::MAX,
    ensures
        r@.len() == texture_len(values@.len() as int),
        r@.len() >= values@.len(),
        r@.subrange(0, values@.len() as int) == values@,
        forall|k: int| values@.len() <= k < r@.len() ==> r@[k] == 0,
{
    let n: i32 = values.len() as i32;
    let h: i32 = texture_height(n);
    assert(h >= 0);
    let total: usize = 3 * 2000 * (h as usize);
    let mut r: Vec<u32> = Vec::new();
    let mut k: usize = 0;
    while k < total
        invariant
            total == texture_len(values@.len() as int),
            total >= values@.len(),
            k <= total,
            r@.len() == k,
            forall|m: int| 0 <= m < k ==> #[trigger] r@[m] == if m < values@.len() { values@[m] } else { 0 },
        decreases total - k,
    {
        if k < values.len() {
            r.push(values[k]);
        } else {
            r.push(0);
        }
        k = k + 1;
    }
    assert(r@.subrange(0, values@.len() as int) =~= values@);
    r
}

} // verus!
