//! Picking splats with a segmentation mask over a captured frame: which
//! splats may be picked at all, and which mask pixels select.

use vstd::prelude::*;
use crate::data_objects::SplatObject;

verus! {

/// The splat ranges of the objects whose editor entry is marked hidden,
/// among the first `n` objects, in object order. An object without an
/// editor entry is not hidden.
pub open spec fn spec_hidden_ranges(objects: Seq<SplatObject>, hidden: Seq<bool>, n: int) -> Seq<SplatObject>
    decreases n,
{
    if n <= 0 {
        Seq::empty()
    } else {
        let before = spec_hidden_ranges(objects, hidden, n - 1);
        if n - 1 < hidden.len() && hidden[n - 1] {
            before.push(objects[n - 1])
        } else {
            before
        }
    }
}

/// `i` lies in one of the inclusive ranges.
pub open spec fn in_some_range(i: u32, ranges: Seq<SplatObject>) -> bool {
    exists|k: int| 0 <= k < ranges.len() && #[trigger] ranges[k].start <= i && i <= ranges[k].end
}

/// Splat `i` belongs to an object marked hidden: such splats were not in
/// the captured frame and cannot be picked.
pub open spec fn splat_is_hidden(i: u32, objects: Seq<SplatObject>, hidden: Seq<bool>) -> bool {
    exists|k: int|
        0 <= k < objects.len() && k < hidden.len() && hidden[k] && #[trigger] objects[k].start <= i
            && i <= objects[k].end
}

/// The splat ranges of the hidden objects. `hidden[k]` says whether object
/// `k` is hidden; objects past the end of `hidden` are shown.
pub fn hidden_ranges(objects: &[SplatObject], hidden: &[bool]) -> (r: Vec<SplatObject>)
    ensures
        r@ == spec_hidden_ranges(objects@, hidden@, objects@.len() as int),
{
    let mut r: Vec<SplatObject> = Vec::new();
    let mut k: usize = 0;
    while k < objects.len()
        invariant
            k <= objects@.len(),
            r@ == spec_hidden_ranges(objects@, hidden@, k as int),
        decreases objects@.len() - k,
    {
        if k < hidden.len() && hidden[k] {
            r.push(objects[k]);
        }
        k = k + 1;
    }
    r
}

/// Whether `i` lies in one of the inclusive `ranges`.
pub fn in_any_range(i: u32, ranges: &[SplatObject]) -> (r: bool)
    ensures
        r == in_some_range(i, ranges@),
{
    let mut k: usize = 0;
    while k < ranges.len()
        invariant
            k <= ranges@.len(),
            forall|m: int| 0 <= m < k ==> !(#[trigger] ranges@[m].start <= i && i <= ranges@[m].end),
        decreases ranges@.len() - k,
    {
        if ranges[k].start <= i && i <= ranges[k].end {
            return true;
        }
        k = k + 1;
    }
    false
}

proof fn lemma_hidden_ranges_prefix(i: u32, objects: Seq<SplatObject>, hidden: Seq<bool>, n: int)
    requires
        0 <= n <= objects.len(),
    ensures
        in_some_range(i, spec_hidden_ranges(objects, hidden, n)) <==> exists|k: int|
            0 <= k < n && k < hidden.len() && hidden[k] && #[trigger] objects[k].start <= i && i
                <= objects[k].end,
    decreases n,
{
    if n > 0 {
        lemma_hidden_ranges_prefix(i, objects, hidden, n - 1);
        let before = spec_hidden_ranges(objects, hidden, n - 1);
        let now = spec_hidden_ranges(objects, hidden, n);
        if n - 1 < hidden.len() && hidden[n - 1] {
            assert(now == before.push(objects[n - 1]));
            if in_some_range(i, before) {
                let k = choose|k: int| 0 <= k < before.len() && #[trigger] before[k].start <= i && i <= before[k].end;
                assert(now[k] == before[k]);
            }
            if objects[n - 1].start <= i && i <= objects[n - 1].end {
                assert(now[before.len() as int] == objects[n - 1]);
            }
            if in_some_range(i, now) {
                let k = choose|k: int| 0 <= k < now.len() && #[trigger] now[k].start <= i && i <= now[k].end;
                if k < before.len() {
                    assert(now[k] == before[k]);
                }
            }
        }
    }
}

/// Looking a splat up in the hidden ranges tells exactly whether it
/// belongs to a hidden object.
pub proof fn lemma_hidden_ranges_find_hidden_splats(i: u32, objects: Seq<SplatObject>, hidden: Seq<bool>)
    ensures
        in_some_range(i, spec_hidden_ranges(objects, hidden, objects.len() as int)) == splat_is_hidden(
            i,
            objects,
            hidden,
        ),
{
    lemma_hidden_ranges_prefix(i, objects, hidden, objects.len() as int);
}

/// Mask pixel (`px`, `py`) lies in the `w` by `h` mask and is selected
/// (non-zero); the mask is row-major, top row first.
pub open spec fn spec_mask_selects(mask: Seq<u8>, w: u32, h: u32, px: i64, py: i64) -> bool {
    0 <= px < w && 0 <= py < h && mask[py * w + px] > 0
}

/// Whether the splat that projects to pixel (`px`, `py`) is selected by
/// the mask; pixels outside the mask select nothing.
pub fn mask_selects(mask: &[u8], w: u32, h: u32, px: i64, py: i64) -> (r: bool)
    requires
        w * h <= mask@.len(),
    ensures
        r == spec_mask_selects(mask@, w, h, px, py),
{
    if px < 0 || py < 0 || px >= w as i64 || py >= h as i64 {
        return false;
    }
    let x: usize = px as usize;
    let y: usize = py as usize;
    let wu: usize = w as usize;
    assert(y * wu + x < w * h) by (nonlinear_arith)
        requires
            0 <= x < w,
            0 <= y < h,
            wu == w,
    ;
    assert(y * wu + x < mask@.len());
    assert(mask@.len() == mask.len());
    let at: usize = y * wu + x;
    mask[at] > 0
}

/// A pixel selects exactly when it lies inside the mask and its byte is
/// not zero: every value from 1 to 255 selects, 0 alone does not.
pub proof fn lemma_mask_selects_nonzero(mask: Seq<u8>, w: u32, h: u32, px: i64, py: i64)
    ensures
        spec_mask_selects(mask, w, h, px, py) <==> (0 <= px < w && 0 <= py < h && mask[py * w + px] != 0),
        (0 <= px < w && 0 <= py < h && mask[py * w + px] == 255) ==> spec_mask_selects(mask, w, h, px, py),
        (0 <= px < w && 0 <= py < h && mask[py * w + px] >= 128) ==> spec_mask_selects(mask, w, h, px, py),
        !(0 <= px < w && 0 <= py < h) ==> !spec_mask_selects(mask, w, h, px, py),
{
}

} // verus!
