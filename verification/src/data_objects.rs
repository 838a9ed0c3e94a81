//! Splat data split into objects: contiguous, inclusive index ranges over
//! one shared list of splats.

use vstd::prelude::*;
use crate::byte_order::be_bytes_u32;
use crate::depth_sort::{is_depth_order, order_by_depth};
use crate::text::str_eq;

verus! {

/// The splats `start..=end` of the shared list. An object whose `end` is
/// below its `start` holds no splat.
#[derive(Clone, Copy, Debug, PartialEq, Eq, Structural)]
pub struct SplatObject {
    pub start: u32,
    pub end: u32,
}

/// A list of splats of any kind `S` and the objects that partition it.
pub struct SplatData<S> {
    pub splats: Vec<S>,
    pub objects: Vec<SplatObject>,
}

/// `y` is a power of two.
pub open spec fn is_pow2(y: nat) -> bool
    decreases y,
{
    if y == 1 {
        true
    } else if y < 2 || y % 2 != 0 {
        false
    } else {
        is_pow2(y / 2)
    }
}

/// `y` is the least power of two that is at least `x`.
pub open spec fn is_least_pow2_at_least(y: nat, x: nat) -> bool {
    &&& is_pow2(y)
    &&& y >= x
    &&& (y == 1 || y / 2 < x)
}

impl<S> SplatData<S> {
    /// All splats as one object.
    pub fn new(splats: Vec<S>) -> (r: Self)
        requires
            (splats@.len() as u32) != 0,
        ensures
            r.splats@ == splats@,
            r.objects@ == seq![SplatObject { start: 0, end: ((splats@.len() as u32) - 1) as u32 }],
    {
        #[verifier::truncate]
        let count: u32 = splats.len() as u32;
        let end: u32 = count - 1;
        let mut objects: Vec<SplatObject> = Vec::new();
        objects.push(SplatObject { start: 0, end });
        SplatData { splats, objects }
    }

    /// Number of splats.
    pub fn splat_count(&self) -> (r: usize)
        ensures
            r == self.splats@.len(),
    {
        self.splats.len()
    }

    /// The least power of two that is at least `x` (1 for 0).
    pub fn nearest_power_of_2_bigger_than(&self, x: usize) -> (y: usize)
        requires
            x <= usize::MAX / 2 + 1,
        ensures
            is_least_pow2_at_least(y as nat, x as nat),
    {
        least_pow2_at_least(x)
    }

    /// Orders the splats back to front, given the quantized depth of each:
    /// deepest first, equal depths from the highest index down.
    pub fn sort_splats_based_on_depth(&self, depths: &[i32]) -> (out: Vec<u32>)
        requires
            depths@.len() == self.splats@.len(),
            depths@.len() <= 0x1_0000_0000,
            forall|a: int, b: int|
                0 <= a < depths@.len() && 0 <= b < depths@.len() ==> #[trigger] depths@[a]
                    - #[trigger] depths@[b] < i32::MAX,
        ensures
            is_depth_order(depths@, out@),
    {
        order_by_depth(depths)
    }
}

impl<S: Copy> SplatData<S> {
    /// Appends the splats of `other` as one new object.
    pub fn merge_with_other_splatdata(&mut self, other: &SplatData<S>)
        requires
            ((old(self).splats@.len() + other.splats@.len()) as u32) != 0,
        ensures
            final(self).splats@ == old(self).splats@ + other.splats@,
            final(self).objects@ == old(self).objects@.push(
                SplatObject {
                    start: old(self).splats@.len() as u32,
                    end: (((old(self).splats@.len() + other.splats@.len()) as u32) - 1) as u32,
                },
            ),
    {
        #[verifier::truncate]
        let new_start: u32 = self.splats.len() as u32;
        let ghost before = self.splats@;
        let mut i: usize = 0;
        while i < other.splats.len()
            invariant
                i <= other.splats@.len(),
                self.splats@ == before + other.splats@.take(i as int),
                self.objects@ == old(self).objects@,
            decreases other.splats@.len() - i,
        {
            let s: S = other.splats[i];
            self.splats.push(s);
            assert(other.splats@.take(i + 1) =~= other.splats@.take(i as int).push(s));
            i = i + 1;
        }
        assert(other.splats@.take(i as int) =~= other.splats@);
        #[verifier::truncate]
        let total: u32 = self.splats.len() as u32;
        let new_end: u32 = total - 1;
        self.objects.push(SplatObject { start: new_start, end: new_end });
    }

    /// Splits object `object_index` in two halves that share its range: the
    /// second half is a new object, the caller moves the two apart. Nothing
    /// happens, and `None` comes back, when there is no such object, when
    /// its range holds fewer than two indices, or when it starts past the
    /// last splat.
    pub fn split_object(&mut self, object_index: usize) -> (r: Option<usize>)
        ensures
            final(self).splats@ == old(self).splats@,
            ({
                let objs = old(self).objects@;
                let ok = object_index < objs.len() && objs[object_index as int].start
                    < objs[object_index as int].end && objs[object_index as int].start
                    < old(self).splats@.len();
                &&& ok ==> r == Some(objs.len() as usize) && final(self).objects@ == objs.push(
                    objs[object_index as int],
                )
                &&& !ok ==> r is None && final(self).objects@ == objs
            }),
    {
        if object_index >= self.objects.len() {
            return None;
        }
        let object = self.objects[object_index];
        if object.end <= object.start {
            return None;
        }
        if object.start as usize >= self.splats.len() {
            return None;
        }
        self.objects.push(object);
        Some(self.objects.len() - 1)
    }
}

/// The four bytes of `x`, most significant first.
pub fn u32_to_4_bytes(x: u32) -> (r: [u8; 4])
    ensures
        r@ == be_bytes_u32(x),
{
    let r: [u8; 4] = [(x / 16777216) as u8, ((x / 65536) % 256) as u8, ((x / 256) % 256) as u8, (x % 256) as u8];
    assert(r@ =~= be_bytes_u32(x));
    r
}

/// Lays `words` out big-endian, one after the other, in a zeroed buffer
/// whose length is the least power of two that holds them all.
pub fn compress_words_into_buffer(words: &[u32]) -> (out: Vec<u8>)
    requires
        words@.len() * 4 <= usize::MAX / 2 + 1,
    ensures
        is_least_pow2_at_least(out@.len() as nat, (words@.len() * 4) as nat),
        forall|i: int, j: int|
            0 <= i < words@.len() && 0 <= j < 4 ==> #[trigger] out@[4 * i + j] == be_bytes_u32(
                #[trigger] words@[i],
            )[j],
        forall|k: int| words@.len() * 4 <= k < out@.len() ==> #[trigger] out@[k] == 0,
{
    let n = words.len();
    let size: usize = least_pow2_at_least(n * 4);
    let mut out: Vec<u8> = Vec::new();
    while out.len() < size
        invariant
            out@.len() <= size,
            forall|k: int| 0 <= k < out@.len() ==> #[trigger] out@[k] == 0,
        decreases size - out@.len(),
    {
        out.push(0);
    }
    let mut i: usize = 0;
    while i < n
        invariant
            n == words@.len(),
            n * 4 <= size,
            out@.len() == size,
            i <= n,
            forall|a: int, j: int|
                0 <= a < i && 0 <= j < 4 ==> #[trigger] out@[4 * a + j] == be_bytes_u32(
                    #[trigger] words@[a],
                )[j],
            forall|k: int| i * 4 <= k < out@.len() ==> #[trigger] out@[k] == 0,
        decreases n - i,
    {
        let bytes = u32_to_4_bytes(words[i]);
        out.set(4 * i, bytes[0]);
        out.set(4 * i + 1, bytes[1]);
        out.set(4 * i + 2, bytes[2]);
        out.set(4 * i + 3, bytes[3]);
        i = i + 1;
    }
    out
}

/// The least power of two that is at least `x` (1 for 0).
fn least_pow2_at_least(x: usize) -> (y: usize)
    requires
        x <= usize::MAX / 2 + 1,
    ensures
        is_least_pow2_at_least(y as nat, x as nat),
{
    let mut y: usize = 1;
    while y < x
        invariant
            is_pow2(y as nat),
            y == 1 || y / 2 < x,
            x <= usize::MAX / 2 + 1,
        decreases usize::MAX - y,
    {
        assert(is_pow2((2 * y) as nat)) by {
            assert((2 * y) as nat / 2 == y as nat);
        }
        y = 2 * y;
    }
    y
}

/// After a merge, the new object holds exactly the splats that were
/// merged in, in order: its `k`-th splat is the `k`-th splat of `other`.
pub proof fn lemma_merged_object_holds_other<S>(mine: Seq<S>, other: Seq<S>, k: int)
    requires
        other.len() > 0,
        mine.len() + other.len() <= u32::MAX,
        0 <= k < other.len(),
    ensures
        ({
            let start = mine.len() as u32;
            let end = (((mine.len() + other.len()) as u32) - 1) as u32;
            &&& start <= end
            &&& end - start + 1 == other.len()
            &&& (mine + other)[start + k] == other[k]
        }),
{
}

/// The axis along which a split pushes the halves of an object apart.
#[derive(Clone, Copy, Debug, PartialEq, Eq, Structural)]
pub enum SplitAxis {
    X,
    Y,
    Z,
}

/// "horizontal" splits along y, "depth" along z, anything else along x.
pub open spec fn spec_split_axis(direction: Seq<char>) -> SplitAxis {
    if direction == "horizontal"@ {
        SplitAxis::Y
    } else if direction == "depth"@ {
        SplitAxis::Z
    } else {
        SplitAxis::X
    }
}

/// The axis a split in `direction` uses.
pub fn split_axis(direction: &str) -> (r: SplitAxis)
    ensures
        r == spec_split_axis(direction@),
{
    if str_eq(direction, "horizontal") {
        SplitAxis::Y
    } else if str_eq(direction, "depth") {
        SplitAxis::Z
    } else {
        SplitAxis::X
    }
}

/// The indices of object `o` that name splats of a list of `count`
/// splats: `first..=last`, or none.
pub open spec fn spec_object_splats(o: SplatObject, count: usize) -> Option<(usize, usize)> {
    if o.start <= o.end && (o.start as int) < count {
        Some((o.start as usize, if (o.end as int) < count { o.end as usize } else { (count - 1) as usize }))
    } else {
        None
    }
}

/// The splats of object `o` that exist among `count` splats, as a range.
pub fn object_splats(o: SplatObject, count: usize) -> (r: Option<(usize, usize)>)
    ensures
        r == spec_object_splats(o, count),
        r matches Some((a, b)) ==> a <= b < count && o.start == a && b <= o.end,
{
    if o.start <= o.end && (o.start as usize) < count {
        let last: usize = if (o.end as usize) < count {
            o.end as usize
        } else {
            count - 1
        };
        Some((o.start as usize, last))
    } else {
        None
    }
}

} // verus!
