//! Small helpers on matrices and diagnostics.

use vstd::prelude::*;

verus! {

/// The sign bit of an IEEE-754 single-precision value.
pub const SIGN_BIT: u32 = 0x8000_0000;

/// Negates row `row` of a column-major 4x4 matrix of single-precision
/// values, given by their bit patterns: negating such a value flips its
/// sign bit.
pub fn invert_row(mat: &mut [u32; 16], row: usize)
    requires
        row < 4,
    ensures
        forall|k: int|
            0 <= k < 16 ==> #[trigger] final(mat)@[k] == if k % 4 == row {
                old(mat)@[k] ^ SIGN_BIT
            } else {
                old(mat)@[k]
            },
{
    mat[row] = mat[row] ^ SIGN_BIT;
    mat[row + 4] = mat[row + 4] ^ SIGN_BIT;
    mat[row + 8] = mat[row + 8] ^ SIGN_BIT;
    mat[row + 12] = mat[row + 12] ^ SIGN_BIT;
}

/// Logs memory usage in browser builds; does nothing elsewhere.
pub fn debug_memory(_label: &str) {
}

} // verus!
