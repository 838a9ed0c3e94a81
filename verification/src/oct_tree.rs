//! The integer side of the splat octree: when a node splits, which child
//! a splat falls into, where each child lies, and how a node's splats are
//! handed to its children.

use vstd::prelude::*;

verus! {

/// Split parameters for small scenes.
pub const DEFAULT_SPLIT_LIMIT: usize = 1000;
pub const DEFAULT_MAX_DEPTH: usize = 10;

/// A node splits while it holds at least `split_limit` splats and lies
/// less than `max_depth` levels down.
#[derive(Clone, Copy, Debug, PartialEq, Eq, Structural)]
pub struct SplitParams {
    pub split_limit: usize,
    pub max_depth: usize,
}

/// Split parameters chosen by the number of splats: larger clouds get a
/// shallower tree that splits less eagerly.
pub open spec fn spec_split_params(total: usize) -> SplitParams {
    if total > 1_000_000 {
        SplitParams { split_limit: 50_000, max_depth: 5 }
    } else if total > 300_000 {
        SplitParams { split_limit: 20_000, max_depth: 6 }
    } else {
        SplitParams { split_limit: DEFAULT_SPLIT_LIMIT, max_depth: DEFAULT_MAX_DEPTH }
    }
}

/// Split parameters for a cloud of `total` splats.
pub fn split_params(total: usize) -> (r: SplitParams)
    ensures
        r == spec_split_params(total),
{
    if total > 1_000_000 {
        SplitParams { split_limit: 50_000, max_depth: 5 }
    } else if total > 300_000 {
        SplitParams { split_limit: 20_000, max_depth: 6 }
    } else {
        SplitParams { split_limit: DEFAULT_SPLIT_LIMIT, max_depth: DEFAULT_MAX_DEPTH }
    }
}

/// Whether a node holding `len` splats at depth `depth` splits.
pub fn should_split(len: usize, depth: usize, params: SplitParams) -> (r: bool)
    ensures
        r == (len >= params.split_limit && depth < params.max_depth),
{
    !(len < params.split_limit || depth >= params.max_depth)
}

/// The child of a node that a splat falls into, given on which side of the
/// node's center it lies along each axis (above = greater than the center).
pub open spec fn spec_child_index(x_above: bool, y_above: bool, z_above: bool) -> usize {
    ((if x_above { 0int } else { 4int }) + (if y_above { 0int } else { 2int }) + (if z_above {
        0int
    } else {
        1int
    })) as usize
}

/// The child a splat falls into.
pub fn child_index(x_above: bool, y_above: bool, z_above: bool) -> (r: usize)
    ensures
        r == spec_child_index(x_above, y_above, z_above),
        r < 8,
{
    let x: usize = if x_above { 0 } else { 4 };
    let y: usize = if y_above { 0 } else { 2 };
    let z: usize = if z_above { 0 } else { 1 };
    x + y + z
}

/// +1 or -1.
pub open spec fn sign(positive: bool) -> i8 {
    if positive { 1i8 } else { -1i8 }
}

/// The direction, from a node's center, of the center of child `index`:
/// one sign per axis, read from bits 2, 1 and 0 of the index.
pub open spec fn spec_index_to_direction(index: usize) -> Seq<i8> {
    seq![sign(index & 4 == 0), sign(index & 2 == 0), sign(index & 1 == 0)]
}

/// Direction of the center of child `index`.
pub fn index_to_direction(index: usize) -> (r: [i8; 3])
    ensures
        r@ == spec_index_to_direction(index),
{
    let x: i8 = if (index & 4) == 0 { 1 } else { -1 };
    let y: i8 = if (index & 2) == 0 { 1 } else { -1 };
    let z: i8 = if (index & 1) == 0 { 1 } else { -1 };
    let r: [i8; 3] = [x, y, z];
    assert(r@ =~= spec_index_to_direction(index));
    r
}

/// A splat goes to the child that lies on its side of the center along
/// every axis.
pub proof fn lemma_child_direction(x_above: bool, y_above: bool, z_above: bool)
    ensures
        spec_index_to_direction(spec_child_index(x_above, y_above, z_above)) == seq![
            sign(x_above),
            sign(y_above),
            sign(z_above),
        ],
{
    let i = spec_child_index(x_above, y_above, z_above);
    assert(i < 8);
    assert(forall|i: usize| i < 8 ==> ((i & 4 == 0) == (i < 4))) by (bit_vector);
    assert(forall|i: usize| i < 8 ==> ((i & 2 == 0) == (i % 4 < 2))) by (bit_vector);
    assert(forall|i: usize| i < 8 ==> ((i & 1 == 0) == (i % 2 == 0))) by (bit_vector);
    assert(spec_index_to_direction(i) =~= seq![sign(x_above), sign(y_above), sign(z_above)]);
}

/// Code of a splat that no child takes (it is nearly transparent).
pub const SKIPPED: u8 = 8;

/// The entries of `indices` whose code in `codes` is `c`, in order.
pub open spec fn members(indices: Seq<usize>, codes: Seq<u8>, c: u8) -> Seq<usize>
    decreases indices.len(),
{
    if indices.len() == 0 {
        Seq::empty()
    } else {
        members(indices.drop_last(), codes.take(indices.len() - 1), c) + if codes[indices.len()
            - 1] == c {
            seq![indices.last()]
        } else {
            Seq::empty()
        }
    }
}

/// The entries of `indices` whose code is `c`, in order.
fn members_with_code(indices: &[usize], codes: &[u8], c: u8) -> (r: Vec<usize>)
    requires
        indices@.len() == codes@.len(),
    ensures
        r@ == members(indices@, codes@, c),
{
    let mut r: Vec<usize> = Vec::new();
    let mut i: usize = 0;
    while i < indices.len()
        invariant
            indices@.len() == codes@.len(),
            i <= indices@.len(),
            r@ == members(indices@.take(i as int), codes@.take(i as int), c),
        decreases indices@.len() - i,
    {
        assert(indices@.take(i + 1).drop_last() =~= indices@.take(i as int));
        assert(codes@.take(i + 1).take(i as int) =~= codes@.take(i as int));
        if codes[i] == c {
            r.push(indices[i]);
        }
        i = i + 1;
    }
    assert(indices@.take(i as int) =~= indices@);
    assert(codes@.take(i as int) =~= codes@);
    r
}

/// Hands a node's splats to its eight children: child `c` gets, in order,
/// the indices whose code is `c`; indices coded `SKIPPED` go nowhere.
pub fn distribute_to_children(indices: &[usize], codes: &[u8]) -> (r: Vec<Vec<usize>>)
    requires
        indices@.len() == codes@.len(),
    ensures
        r@.len() == 8,
        forall|c: int| 0 <= c < 8 ==> (#[trigger] r@[c])@ == members(indices@, codes@, c as u8),
{
    let mut r: Vec<Vec<usize>> = Vec::new();
    let mut c: u8 = 0;
    while c < 8
        invariant
            indices@.len() == codes@.len(),
            c <= 8,
            r@.len() == c,
            forall|k: int| 0 <= k < c ==> (#[trigger] r@[k])@ == members(indices@, codes@, k as u8),
        decreases 8 - c,
    {
        let child = members_with_code(indices, codes, c);
        r.push(child);
        c = c + 1;
    }
    r
}

/// The twelve edges drawn around a node's cube, each as its two corners
/// given by their signs along x, y and z (start x, y, z, then end x, y,
/// z): the four edges of the top face, the four of the bottom face, then
/// the four vertical ones.
pub const CUBE_EDGES: [[i8; 6]; 12] = [
    [-1, 1, 1, 1, 1, 1],
    [-1, 1, -1, 1, 1, -1],
    [1, 1, -1, 1, 1, 1],
    [-1, 1, -1, -1, 1, 1],
    [-1, -1, 1, 1, -1, 1],
    [-1, -1, -1, 1, -1, -1],
    [1, -1, -1, 1, -1, 1],
    [-1, -1, -1, -1, -1, 1],
    [-1, -1, 1, -1, 1, 1],
    [1, -1, 1, 1, 1, 1],
    [1, -1, -1, 1, 1, -1],
    [-1, -1, -1, -1, 1, -1],
];

/// Edge `e` joins two corners of the cube (every sign is +1 or -1) that
/// differ along exactly one axis.
pub open spec fn is_cube_edge(e: Seq<i8>) -> bool {
    &&& e.len() == 6
    &&& forall|k: int| 0 <= k < 6 ==> (#[trigger] e[k] == 1 || e[k] == -1)
    &&& (if e[0] != e[3] { 1int } else { 0 }) + (if e[1] != e[4] { 1int } else { 0 }) + (if e[2]
        != e[5] { 1int } else { 0 }) == 1
}

/// The same edge, whichever way round.
pub open spec fn same_edge(a: Seq<i8>, b: Seq<i8>) -> bool {
    a == b || (a.subrange(0, 3) == b.subrange(3, 6) && a.subrange(3, 6) == b.subrange(0, 3))
}

/// The drawn lines are exactly the cube's edges: each is an edge, and no
/// edge is drawn twice (a cube has twelve).
pub proof fn lemma_cube_edges()
    ensures
        forall|e: int| 0 <= e < 12 ==> is_cube_edge(#[trigger] CUBE_EDGES@[e]@),
        forall|a: int, b: int|
            0 <= a < b < 12 ==> !same_edge(#[trigger] CUBE_EDGES@[a]@, #[trigger] CUBE_EDGES@[b]@),
{
    let t = CUBE_EDGES@;
    assert(t[0]@ =~= seq![-1i8, 1i8, 1i8, 1i8, 1i8, 1i8]);
    assert(t[1]@ =~= seq![-1i8, 1i8, -1i8, 1i8, 1i8, -1i8]);
    assert(t[2]@ =~= seq![1i8, 1i8, -1i8, 1i8, 1i8, 1i8]);
    assert(t[3]@ =~= seq![-1i8, 1i8, -1i8, -1i8, 1i8, 1i8]);
    assert(t[4]@ =~= seq![-1i8, -1i8, 1i8, 1i8, -1i8, 1i8]);
    assert(t[5]@ =~= seq![-1i8, -1i8, -1i8, 1i8, -1i8, -1i8]);
    assert(t[6]@ =~= seq![1i8, -1i8, -1i8, 1i8, -1i8, 1i8]);
    assert(t[7]@ =~= seq![-1i8, -1i8, -1i8, -1i8, -1i8, 1i8]);
    assert(t[8]@ =~= seq![-1i8, -1i8, 1i8, -1i8, 1i8, 1i8]);
    assert(t[9]@ =~= seq![1i8, -1i8, 1i8, 1i8, 1i8, 1i8]);
    assert(t[10]@ =~= seq![1i8, -1i8, -1i8, 1i8, 1i8, -1i8]);
    assert(t[11]@ =~= seq![-1i8, -1i8, -1i8, -1i8, 1i8, -1i8]);
    assert forall|a: int, b: int| 0 <= a < b < 12 implies !same_edge(
        #[trigger] t[a]@,
        #[trigger] t[b]@,
    ) by {
        let x = t[a]@;
        let y = t[b]@;
        if x == y {
            assert(x[0] == y[0] && x[1] == y[1] && x[2] == y[2] && x[3] == y[3] && x[4] == y[4] && x[5] == y[5]);
        }
        if x.subrange(0, 3) == y.subrange(3, 6) && x.subrange(3, 6) == y.subrange(0, 3) {
            assert(x.subrange(0, 3)[0] == y.subrange(3, 6)[0]);
            assert(x.subrange(0, 3)[1] == y.subrange(3, 6)[1]);
            assert(x.subrange(0, 3)[2] == y.subrange(3, 6)[2]);
            assert(x.subrange(3, 6)[0] == y.subrange(0, 3)[0]);
            assert(x.subrange(3, 6)[1] == y.subrange(0, 3)[1]);
            assert(x.subrange(3, 6)[2] == y.subrange(0, 3)[2]);
        }
    }
}

} // verus!
