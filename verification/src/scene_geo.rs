//! Triangle lists of the generated meshes (sphere, gizmo torus, strips,
//! fans and boxes). Vertex positions are computed elsewhere; these are the
//! indices that stitch them into triangles.

use vstd::prelude::*;

verus! {

/// Twelve triangles over the eight corners of a box, corner `i` having
/// bit 0, 1, 2 set for +x, +y, +z.
pub const BOX_TOPOLOGY: [u32; 36] = [
    2, 3, 7, 7, 6, 2, 0, 4, 5, 5, 1, 0, 4, 0, 2, 2, 6, 4, 1, 5, 7, 7, 3, 1, 0, 1, 3, 3, 2, 0,
    5, 4, 6, 6, 7, 5,
];

/// Every entry of `s` lies in `lo..hi`.
pub open spec fn all_in(s: Seq<u32>, lo: int, hi: int) -> bool {
    forall|k: int| 0 <= k < s.len() ==> lo <= #[trigger] s[k] < hi
}

/// Two triangles over the quad of strip cell `j`: vertices `k..k + 4`
/// with `k = base + 2 * j`.
pub open spec fn strip_cell(base: int, j: int) -> Seq<u32> {
    let k = base + 2 * j;
    seq![k as u32, (k + 1) as u32, (k + 2) as u32, (k + 2) as u32, (k + 1) as u32, (k + 3) as u32]
}

/// The first `n` cells of a strip.
pub open spec fn strip(base: int, n: int) -> Seq<u32>
    decreases n,
{
    if n <= 0 {
        Seq::empty()
    } else {
        strip(base, n - 1) + strip_cell(base, n - 1)
    }
}

/// Triangle `j` of a fan around vertex `disc`.
pub open spec fn fan_cell(disc: int, j: int) -> Seq<u32> {
    seq![disc as u32, (disc + 1 + j) as u32, (disc + 2 + j) as u32]
}

/// The first `n` triangles of a fan.
pub open spec fn fan(disc: int, n: int) -> Seq<u32>
    decreases n,
{
    if n <= 0 {
        Seq::empty()
    } else {
        fan(disc, n - 1) + fan_cell(disc, n - 1)
    }
}

/// Appends the triangles of a strip of `sectors` quads whose vertices
/// alternate between its two rims from `base` on.
pub fn push_strip_indices(indices: &mut Vec<u32>, base: u32, sectors: u32)
    requires
        base + 2 * sectors + 2 <= u32::MAX,
    ensures
        final(indices)@ == old(indices)@ + strip(base as int, sectors as int),
{
    let ghost start = indices@;
    let mut j: u32 = 0;
    while j < sectors
        invariant
            base + 2 * sectors + 2 <= u32::MAX,
            j <= sectors,
            indices@ == start + strip(base as int, j as int),
        decreases sectors - j,
    {
        let k: u32 = base + j * 2;
        indices.push(k);
        indices.push(k + 1);
        indices.push(k + 2);
        indices.push(k + 2);
        indices.push(k + 1);
        indices.push(k + 3);
        assert(indices@ =~= start + strip(base as int, (j + 1) as int));
        j = j + 1;
    }
}

/// Appends a fan of `sectors` triangles from vertex `disc` to the rim
/// vertices `disc + 1 ..= disc + sectors + 1`.
pub fn push_fan_indices(indices: &mut Vec<u32>, disc: u32, sectors: u32)
    requires
        disc + sectors + 1 <= u32::MAX,
    ensures
        final(indices)@ == old(indices)@ + fan(disc as int, sectors as int),
{
    let ghost start = indices@;
    let mut j: u32 = 0;
    while j < sectors
        invariant
            disc + sectors + 1 <= u32::MAX,
            j <= sectors,
            indices@ == start + fan(disc as int, j as int),
        decreases sectors - j,
    {
        indices.push(disc);
        indices.push(disc + 1 + j);
        indices.push(disc + 2 + j);
        assert(indices@ =~= start + fan(disc as int, (j + 1) as int));
        j = j + 1;
    }
}

/// The box triangles over the eight corners from `base` on.
pub open spec fn box_tris(base: int) -> Seq<u32> {
    BOX_TOPOLOGY@.map_values(|v: u32| (base + v) as u32)
}

/// Appends the triangles of a box whose corners start at `base`.
pub fn push_box_indices(indices: &mut Vec<u32>, base: u32)
    requires
        base + 8 <= u32::MAX,
    ensures
        final(indices)@ == old(indices)@ + box_tris(base as int),
{
    let ghost start = indices@;
    let topo = BOX_TOPOLOGY;
    let mut i: usize = 0;
    while i < 36
        invariant
            base + 8 <= u32::MAX,
            topo@ == BOX_TOPOLOGY@,
            i <= 36,
            indices@ == start + box_tris(base as int).take(i as int),
        decreases 36 - i,
    {
        assert(topo@[i as int] < 8);
        indices.push(base + topo[i]);
        assert(box_tris(base as int).take(i + 1) =~= box_tris(base as int).take(i as int).push(
            (base + topo@[i as int]) as u32,
        ));
        i = i + 1;
    }
    assert(box_tris(base as int).take(36) =~= box_tris(base as int));
}

/// The triangles of cell (`i`, `j`) of a UV sphere with `s` sectors and
/// `stacks` stacks: the quad between stack rings `i` and `i + 1`, sectors
/// `j` and `j + 1`; the cells at the poles have one triangle each.
pub open spec fn sphere_cell(i: int, j: int, s: int, stacks: int) -> Seq<u32> {
    let k1 = i * (s + 1) + j;
    let k2 = k1 + s + 1;
    (if i != 0 {
        seq![k1 as u32, k2 as u32, (k1 + 1) as u32]
    } else {
        Seq::empty()
    }) + (if i != stacks - 1 {
        seq![(k1 + 1) as u32, k2 as u32, (k2 + 1) as u32]
    } else {
        Seq::empty()
    })
}

/// The first `j` cells of stack band `i`.
pub open spec fn sphere_band(i: int, j: int, s: int, stacks: int) -> Seq<u32>
    decreases j,
{
    if j <= 0 {
        Seq::empty()
    } else {
        sphere_band(i, j - 1, s, stacks) + sphere_cell(i, j - 1, s, stacks)
    }
}

/// The first `i` stack bands of the sphere.
pub open spec fn sphere_tris(i: int, s: int, stacks: int) -> Seq<u32>
    decreases i,
{
    if i <= 0 {
        Seq::empty()
    } else {
        sphere_tris(i - 1, s, stacks) + sphere_band(i - 1, s, s, stacks)
    }
}

/// Triangle indices of a UV sphere whose `(stacks + 1) * (sectors + 1)`
/// vertices run ring by ring from the north pole.
pub fn sphere_indices(sectors: u32, stacks: u32) -> (r: Vec<u32>)
    requires
        (stacks + 1) * (sectors + 1) <= u32::MAX,
    ensures
        r@ == sphere_tris(stacks as int, sectors as int, stacks as int),
{
    let mut indices: Vec<u32> = Vec::new();
    let mut i: u32 = 0;
    while i < stacks
        invariant
            (stacks + 1) * (sectors + 1) <= u32::MAX,
            i <= stacks,
            indices@ == sphere_tris(i as int, sectors as int, stacks as int),
        decreases stacks - i,
    {
        assert(i * (sectors + 1) + 2 * sectors + 1 <= (stacks + 1) * (sectors + 1) && sectors + 1
            <= (stacks + 1) * (sectors + 1)) by (nonlinear_arith)
            requires
                i < stacks,
        ;
        let row: u32 = sectors + 1;
        let mut k1: u32 = i * row;
        let mut k2: u32 = k1 + sectors + 1;
        let ghost before = indices@;
        let mut j: u32 = 0;
        while j < sectors
            invariant
                k2 + (sectors - j) <= u32::MAX,
                i < stacks,
                j <= sectors,
                k1 == i * (sectors + 1) + j,
                k2 == k1 + sectors + 1,
                indices@ == before + sphere_band(i as int, j as int, sectors as int, stacks as int),
            decreases sectors - j,
        {
            let ghost at = indices@;
            if i != 0 {
                indices.push(k1);
                indices.push(k2);
                indices.push(k1 + 1);
            }
            if i != stacks - 1 {
                indices.push(k1 + 1);
                indices.push(k2);
                indices.push(k2 + 1);
            }
            assert(indices@ =~= at + sphere_cell(i as int, j as int, sectors as int, stacks as int));
            assert(before + sphere_band(i as int, (j + 1) as int, sectors as int, stacks as int) =~= at
                + sphere_cell(i as int, j as int, sectors as int, stacks as int));
            k1 = k1 + 1;
            k2 = k2 + 1;
            j = j + 1;
        }
        i = i + 1;
    }
    indices
}

/// The two triangles of torus cell (`a`, `t`): the quad between rings `a`
/// and `a + 1`, sides `t` and `t + 1`.
pub open spec fn torus_cell(a: int, t: int, sides: int) -> Seq<u32> {
    let k = a * (sides + 1) + t;
    seq![
        k as u32,
        (k + sides + 1) as u32,
        (k + 1) as u32,
        (k + 1) as u32,
        (k + sides + 1) as u32,
        (k + sides + 2) as u32,
    ]
}

/// The first `t` cells of ring `a`.
pub open spec fn torus_ring(a: int, t: int, sides: int) -> Seq<u32>
    decreases t,
{
    if t <= 0 {
        Seq::empty()
    } else {
        torus_ring(a, t - 1, sides) + torus_cell(a, t - 1, sides)
    }
}

/// The first `a` rings of the torus.
pub open spec fn torus_tris(a: int, sides: int) -> Seq<u32>
    decreases a,
{
    if a <= 0 {
        Seq::empty()
    } else {
        torus_tris(a - 1, sides) + torus_ring(a - 1, sides, sides)
    }
}

/// Triangle indices of a torus whose `(segments + 1) * (sides + 1)`
/// vertices run ring by ring.
pub fn torus_indices(segments: u32, sides: u32) -> (r: Vec<u32>)
    requires
        (segments + 1) * (sides + 1) <= u32::MAX,
    ensures
        r@ == torus_tris(segments as int, sides as int),
{
    let mut indices: Vec<u32> = Vec::new();
    let mut a: u32 = 0;
    while a < segments
        invariant
            (segments + 1) * (sides + 1) <= u32::MAX,
            a <= segments,
            indices@ == torus_tris(a as int, sides as int),
        decreases segments - a,
    {
        assert(a * (sides + 1) + 2 * sides + 1 <= (segments + 1) * (sides + 1) && sides + 1
            <= (segments + 1) * (sides + 1)) by (nonlinear_arith)
            requires
                a < segments,
        ;
        let ring_start: u32 = a * (sides + 1);
        let ghost before = indices@;
        let mut t: u32 = 0;
        while t < sides
            invariant
                ring_start == a * (sides + 1),
                ring_start + 2 * sides + 1 <= u32::MAX,
                t <= sides,
                indices@ == before + torus_ring(a as int, t as int, sides as int),
            decreases sides - t,
        {
            let k: u32 = ring_start + t;
            indices.push(k);
            indices.push(k + sides + 1);
            indices.push(k + 1);
            indices.push(k + 1);
            indices.push(k + sides + 1);
            indices.push(k + sides + 2);
            assert(indices@ =~= before + torus_ring(a as int, (t + 1) as int, sides as int));
            t = t + 1;
        }
        a = a + 1;
    }
    indices
}

/// Joining two index lists keeps every entry in range.
proof fn lemma_all_in_concat(a: Seq<u32>, b: Seq<u32>, lo: int, hi: int)
    requires
        all_in(a, lo, hi),
        all_in(b, lo, hi),
    ensures
        all_in(a + b, lo, hi),
{
    assert forall|k: int| 0 <= k < (a + b).len() implies lo <= #[trigger] (a + b)[k] < hi by {
        if k < a.len() {
            assert((a + b)[k] == a[k]);
        } else {
            assert((a + b)[k] == b[k - a.len()]);
        }
    }
}

/// A strip of `n` quads from `base` is made of whole triangles and refers
/// only to its vertices `base .. base + 2 * n + 2`.
pub proof fn lemma_strip_in_range(base: u32, n: u32)
    requires
        base + 2 * n + 2 <= u32::MAX,
    ensures
        all_in(strip(base as int, n as int), base as int, base + 2 * n + 2),
        strip(base as int, n as int).len() == 6 * n,
    decreases n,
{
    if n > 0 {
        lemma_strip_in_range(base, (n - 1) as u32);
        lemma_all_in_concat(
            strip(base as int, n - 1),
            strip_cell(base as int, n - 1),
            base as int,
            base + 2 * n + 2,
        );
    }
}

/// A fan of `n` triangles around `disc` refers only to the vertices
/// `disc ..= disc + n + 1`.
pub proof fn lemma_fan_in_range(disc: u32, n: u32)
    requires
        disc + n + 1 <= u32::MAX,
    ensures
        all_in(fan(disc as int, n as int), disc as int, disc + n + 2),
        fan(disc as int, n as int).len() == 3 * n,
    decreases n,
{
    if n > 0 {
        lemma_fan_in_range(disc, (n - 1) as u32);
        lemma_all_in_concat(fan(disc as int, n - 1), fan_cell(disc as int, n - 1), disc as int, disc + n + 2);
    }
}

/// The box triangles refer only to its eight corners `base .. base + 8`.
pub proof fn lemma_box_in_range(base: u32)
    requires
        base + 8 <= u32::MAX,
    ensures
        all_in(box_tris(base as int), base as int, base + 8),
        box_tris(base as int).len() == 36,
{
    assert forall|k: int| 0 <= k < 36 implies BOX_TOPOLOGY@[k] < 8 by {
        assert(BOX_TOPOLOGY@ =~= seq![
            2u32, 3, 7, 7, 6, 2, 0, 4, 5, 5, 1, 0, 4, 0, 2, 2, 6, 4, 1, 5, 7, 7, 3, 1, 0, 1, 3, 3,
            2, 0, 5, 4, 6, 6, 7, 5,
        ]);
    }
}

proof fn lemma_sphere_band_in_range(i: int, j: int, s: int, stacks: int)
    requires
        0 <= i < stacks,
        0 <= j <= s,
        (stacks + 1) * (s + 1) <= u32::MAX,
    ensures
        all_in(sphere_band(i, j, s, stacks), 0, (stacks + 1) * (s + 1)),
        sphere_band(i, j, s, stacks).len() % 3 == 0,
    decreases j,
{
    if j > 0 {
        lemma_sphere_band_in_range(i, j - 1, s, stacks);
        let n = (stacks + 1) * (s + 1);
        assert((i + 1) * (s + 1) + (j - 1) + 1 < n) by (nonlinear_arith)
            requires
                0 <= i < stacks,
                0 < j <= s,
                n == (stacks + 1) * (s + 1),
        ;
        assert((i + 1) * (s + 1) == i * (s + 1) + s + 1) by (nonlinear_arith);
        lemma_all_in_concat(sphere_band(i, j - 1, s, stacks), sphere_cell(i, j - 1, s, stacks), 0, n);
    }
}

proof fn lemma_sphere_tris_in_range(i: int, s: int, stacks: int)
    requires
        0 <= i <= stacks,
        0 <= s,
        (stacks + 1) * (s + 1) <= u32::MAX,
    ensures
        all_in(sphere_tris(i, s, stacks), 0, (stacks + 1) * (s + 1)),
        sphere_tris(i, s, stacks).len() % 3 == 0,
    decreases i,
{
    if i > 0 {
        lemma_sphere_tris_in_range(i - 1, s, stacks);
        lemma_sphere_band_in_range(i - 1, s, s, stacks);
        lemma_all_in_concat(
            sphere_tris(i - 1, s, stacks),
            sphere_band(i - 1, s, s, stacks),
            0,
            (stacks + 1) * (s + 1),
        );
    }
}

/// The sphere's index list is made of whole triangles and refers only to
/// its `(stacks + 1) * (sectors + 1)` vertices.
pub proof fn lemma_sphere_indices_in_range(sectors: u32, stacks: u32)
    requires
        (stacks + 1) * (sectors + 1) <= u32::MAX,
    ensures
        all_in(
            sphere_tris(stacks as int, sectors as int, stacks as int),
            0,
            (stacks + 1) * (sectors + 1),
        ),
        sphere_tris(stacks as int, sectors as int, stacks as int).len() % 3 == 0,
{
    lemma_sphere_tris_in_range(stacks as int, sectors as int, stacks as int);
}

proof fn lemma_torus_ring_in_range(a: int, t: int, sides: int, segments: int)
    requires
        0 <= a < segments,
        0 <= t <= sides,
        (segments + 1) * (sides + 1) <= u32::MAX,
    ensures
        all_in(torus_ring(a, t, sides), 0, (segments + 1) * (sides + 1)),
        torus_ring(a, t, sides).len() == 6 * t,
    decreases t,
{
    if t > 0 {
        lemma_torus_ring_in_range(a, t - 1, sides, segments);
        let n = (segments + 1) * (sides + 1);
        assert(a * (sides + 1) + (t - 1) + sides + 2 < n) by (nonlinear_arith)
            requires
                0 <= a < segments,
                0 < t <= sides,
                n == (segments + 1) * (sides + 1),
        ;
        lemma_all_in_concat(torus_ring(a, t - 1, sides), torus_cell(a, t - 1, sides), 0, n);
    }
}

proof fn lemma_torus_tris_in_range(a: int, sides: int, segments: int)
    requires
        0 <= a <= segments,
        0 <= sides,
        (segments + 1) * (sides + 1) <= u32::MAX,
    ensures
        all_in(torus_tris(a, sides), 0, (segments + 1) * (sides + 1)),
        torus_tris(a, sides).len() == 6 * a * sides,
    decreases a,
{
    if a > 0 {
        lemma_torus_tris_in_range(a - 1, sides, segments);
        lemma_torus_ring_in_range(a - 1, sides, sides, segments);
        lemma_all_in_concat(torus_tris(a - 1, sides), torus_ring(a - 1, sides, sides), 0, (
        segments + 1) * (sides + 1));
        assert(torus_tris(a, sides).len() == torus_tris(a - 1, sides).len() + 6 * sides);
        assert(6 * (a - 1) * sides + 6 * sides == 6 * a * sides) by (nonlinear_arith);
    } else {
        assert(6 * a * sides == 0) by (nonlinear_arith)
            requires
                a == 0,
        ;
    }
}

/// The torus has two triangles per cell, `6 * segments * sides` indices,
/// each naming one of its `(segments + 1) * (sides + 1)` vertices.
pub proof fn lemma_torus_indices_in_range(segments: u32, sides: u32)
    requires
        (segments + 1) * (sides + 1) <= u32::MAX,
    ensures
        all_in(torus_tris(segments as int, sides as int), 0, (segments + 1) * (sides + 1)),
        torus_tris(segments as int, sides as int).len() == 6 * segments * sides,
{
    lemma_torus_tris_in_range(segments as int, sides as int, segments as int);
}

/// Indices each sector adds to stack band `i`: three for the triangle
/// below the upper ring unless at the north pole, three for the one above
/// the lower ring unless at the south pole.
pub open spec fn band_cell_len(i: int, stacks: int) -> int {
    (if i != 0 { 3int } else { 0int }) + (if i != stacks - 1 { 3int } else { 0int })
}

proof fn lemma_sphere_band_len(i: int, j: int, s: int, stacks: int)
    requires
        0 <= j,
    ensures
        sphere_band(i, j, s, stacks).len() == j * band_cell_len(i, stacks),
    decreases j,
{
    if j > 0 {
        lemma_sphere_band_len(i, j - 1, s, stacks);
        let c = band_cell_len(i, stacks);
        assert(sphere_band(i, j, s, stacks).len() == sphere_band(i, j - 1, s, stacks).len()
            + sphere_cell(i, j - 1, s, stacks).len());
        assert(sphere_cell(i, j - 1, s, stacks).len() == c);
        assert((j - 1) * c + c == j * c) by (nonlinear_arith);
    } else {
        assert(0 * band_cell_len(i, stacks) == 0) by (nonlinear_arith);
    }
}

proof fn lemma_sphere_tris_len(i: int, s: int, stacks: int)
    requires
        0 <= i <= stacks,
        1 <= stacks,
        0 <= s,
    ensures
        sphere_tris(i, s, stacks).len() == s * (6 * i - (if i >= 1 { 3int } else { 0int }) - (if i
            == stacks { 3int } else { 0int })),
    decreases i,
{
    if i == 0 {
        assert(s * 0 == 0) by (nonlinear_arith);
    } else {
        lemma_sphere_tris_len(i - 1, s, stacks);
        lemma_sphere_band_len(i - 1, s, s, stacks);
        let prev = 6 * (i - 1) - (if i - 1 >= 1 { 3int } else { 0int });
        let now = 6 * i - 3 - (if i == stacks { 3int } else { 0int });
        let c = band_cell_len(i - 1, stacks);
        assert(prev + c == now);
        assert(s * prev + s * c == s * now) by (nonlinear_arith)
            requires
                prev + c == now,
        ;
    }
}

/// A sphere with at least one stack has two triangles per cell except
/// one at each pole: `6 * sectors * (stacks - 1)` indices.
pub proof fn lemma_sphere_indices_len(sectors: u32, stacks: u32)
    requires
        stacks >= 1,
    ensures
        sphere_tris(stacks as int, sectors as int, stacks as int).len() == 6 * sectors * (stacks - 1),
{
    lemma_sphere_tris_len(stacks as int, sectors as int, stacks as int);
    assert(sectors * (6 * stacks - 3 - 3) == 6 * sectors * (stacks - 1)) by (nonlinear_arith);
}

proof fn lemma_torus_ring_cells(a: int, n: int, sides: int)
    requires
        0 <= n,
    ensures
        torus_ring(a, n, sides).len() == 6 * n,
        forall|t: int, j: int|
            0 <= t < n && 0 <= j < 6 ==> #[trigger] torus_ring(a, n, sides)[6 * t + j] == torus_cell(
                a,
                t,
                sides,
            )[j],
    decreases n,
{
    if n > 0 {
        lemma_torus_ring_cells(a, n - 1, sides);
        let before = torus_ring(a, n - 1, sides);
        let now = torus_ring(a, n, sides);
        assert(now == before + torus_cell(a, n - 1, sides));
        assert forall|t: int, j: int| 0 <= t < n && 0 <= j < 6 implies #[trigger] now[6 * t + j]
            == torus_cell(a, t, sides)[j] by {
            if t < n - 1 {
                assert(now[6 * t + j] == before[6 * t + j]);
            } else {
                assert(now[6 * t + j] == torus_cell(a, n - 1, sides)[j]);
            }
        }
    }
}

proof fn lemma_torus_tris_cells(n: int, sides: int)
    requires
        0 <= n,
        0 <= sides,
    ensures
        torus_tris(n, sides).len() == 6 * n * sides,
        forall|a: int, t: int, j: int|
            0 <= a < n && 0 <= t < sides && 0 <= j < 6 ==> #[trigger] torus_tris(n, sides)[6 * (a * sides
                + t) + j] == torus_cell(a, t, sides)[j],
    decreases n,
{
    if n > 0 {
        lemma_torus_tris_cells(n - 1, sides);
        lemma_torus_ring_cells(n - 1, sides, sides);
        let before = torus_tris(n - 1, sides);
        let ring = torus_ring(n - 1, sides, sides);
        let now = torus_tris(n, sides);
        assert(now == before + ring);
        assert(6 * (n - 1) * sides + 6 * sides == 6 * n * sides) by (nonlinear_arith);
        assert forall|a: int, t: int, j: int| 0 <= a < n && 0 <= t < sides && 0 <= j < 6 implies #[trigger] now[6
            * (a * sides + t) + j] == torus_cell(a, t, sides)[j] by {
            let idx = 6 * (a * sides + t) + j;
            if a < n - 1 {
                assert(idx < 6 * (n - 1) * sides) by (nonlinear_arith)
                    requires
                        idx == 6 * (a * sides + t) + j,
                        0 <= a < n - 1,
                        0 <= t < sides,
                        0 <= j < 6,
                ;
                assert(now[idx] == before[idx]);
            } else {
                assert(idx == 6 * (n - 1) * sides + 6 * t + j) by (nonlinear_arith)
                    requires
                        idx == 6 * (a * sides + t) + j,
                        a == n - 1,
                ;
                assert(now[idx] == ring[6 * t + j]);
            }
        }
    } else {
        assert(6 * n * sides == 0) by (nonlinear_arith)
            requires
                n == 0,
        ;
    }
}

/// Torus cell (`a`, `t`), ring `a` and side `t`, is the quad of vertices
/// `k`, `k + 1`, `k + sides + 1`, `k + sides + 2` with
/// `k = a * (sides + 1) + t`, as two triangles at indices
/// `6 * (a * sides + t)` to `6 * (a * sides + t) + 5`. So every one of the
/// `segments * sides` quads is there, each once.
pub proof fn lemma_torus_cell_quads(segments: u32, sides: u32, a: int, t: int)
    requires
        (segments + 1) * (sides + 1) <= u32::MAX,
        0 <= a < segments,
        0 <= t < sides,
    ensures
        ({
            let r = torus_tris(segments as int, sides as int);
            let c = 6 * (a * sides + t);
            let k = a * (sides + 1) + t;
            &&& c + 6 <= r.len()
            &&& r[c] == k
            &&& r[c + 1] == k + sides + 1
            &&& r[c + 2] == k + 1
            &&& r[c + 3] == k + 1
            &&& r[c + 4] == k + sides + 1
            &&& r[c + 5] == k + sides + 2
        }),
{
    lemma_torus_tris_cells(segments as int, sides as int);
    let r = torus_tris(segments as int, sides as int);
    let c = 6 * (a * sides + t);
    let k = a * (sides + 1) + t;
    assert(c + 6 <= 6 * segments * sides) by (nonlinear_arith)
        requires
            c == 6 * (a * sides + t),
            0 <= a < segments,
            0 <= t < sides,
    ;
    assert(k + sides + 2 <= (segments + 1) * (sides + 1)) by (nonlinear_arith)
        requires
            k == a * (sides + 1) + t,
            0 <= a < segments,
            0 <= t < sides,
    ;
    assert(0 <= k) by (nonlinear_arith)
        requires
            k == a * (sides + 1) + t,
            0 <= a,
            0 <= t,
    ;
    assert(r[c + 0] == torus_cell(a, t, sides as int)[0]);
    assert(r[c + 1] == torus_cell(a, t, sides as int)[1]);
    assert(r[c + 2] == torus_cell(a, t, sides as int)[2]);
    assert(r[c + 3] == torus_cell(a, t, sides as int)[3]);
    assert(r[c + 4] == torus_cell(a, t, sides as int)[4]);
    assert(r[c + 5] == torus_cell(a, t, sides as int)[5]);
}

} // verus!
