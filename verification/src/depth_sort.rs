//! Back-to-front ordering of splats by quantized depth, by counting sort.

use vstd::prelude::*;
use vstd::set_lib::{lemma_int_range, lemma_map_size, lemma_subset_equality, set_int_range};

verus! {

/// Splat `a` is drawn before splat `b`: it is deeper, or as deep and later
/// in the list.
pub open spec fn drawn_before(d: Seq<i32>, a: int, b: int) -> bool {
    d[a] > d[b] || (d[a] == d[b] && a > b)
}

/// `out` lists every index of `d` once, deepest first, equal depths from the
/// highest index down.
pub open spec fn is_depth_order(d: Seq<i32>, out: Seq<u32>) -> bool {
    &&& out.len() == d.len()
    &&& forall|k: int| 0 <= k < out.len() ==> (#[trigger] out[k]) < d.len()
    &&& forall|k: int, l: int|
        0 <= k < l < out.len() ==> drawn_before(d, #[trigger] out[k] as int, #[trigger] out[l] as int)
}

/// Number of `j < i` with `d[j] == v`.
pub open spec fn count_eq(d: Seq<i32>, i: int, v: int) -> nat
    decreases i,
{
    if i <= 0 {
        0
    } else {
        count_eq(d, i - 1, v) + if d[i - 1] == v {
            1nat
        } else {
            0nat
        }
    }
}

/// Number of `j < i` with `d[j] < v`.
pub open spec fn count_lt(d: Seq<i32>, i: int, v: int) -> nat
    decreases i,
{
    if i <= 0 {
        0
    } else {
        count_lt(d, i - 1, v) + if d[i - 1] < v {
            1nat
        } else {
            0nat
        }
    }
}

/// Position of `j` in the stable ascending order of `d`.
pub open spec fn rank(d: Seq<i32>, j: int) -> int {
    (count_lt(d, d.len() as int, d[j] as int) + count_eq(d, j, d[j] as int)) as int
}

proof fn lemma_counts_bounded(d: Seq<i32>, i: int, v: int)
    requires
        0 <= i <= d.len(),
    ensures
        count_eq(d, i, v) + count_lt(d, i, v) <= i,
    decreases i,
{
    if i > 0 {
        lemma_counts_bounded(d, i - 1, v);
    }
}

proof fn lemma_count_lt_step(d: Seq<i32>, i: int, v: int)
    requires
        0 <= i <= d.len(),
    ensures
        count_lt(d, i, v + 1) == count_lt(d, i, v) + count_eq(d, i, v),
    decreases i,
{
    if i > 0 {
        lemma_count_lt_step(d, i - 1, v);
    }
}

proof fn lemma_count_lt_mono(d: Seq<i32>, i: int, v: int, w: int)
    requires
        0 <= i <= d.len(),
        v <= w,
    ensures
        count_lt(d, i, v) + count_eq(d, i, v) <= count_lt(d, i, w) || v == w,
        count_lt(d, i, v) <= count_lt(d, i, w),
    decreases i,
{
    if i > 0 {
        lemma_count_lt_mono(d, i - 1, v, w);
    }
}

proof fn lemma_count_eq_mono(d: Seq<i32>, i: int, k: int, v: int)
    requires
        0 <= i <= k <= d.len(),
    ensures
        count_eq(d, i, v) <= count_eq(d, k, v),
    decreases k,
{
    if k > i {
        lemma_count_eq_mono(d, i, k - 1, v);
    }
}

proof fn lemma_count_eq_pos(d: Seq<i32>, j: int, k: int)
    requires
        0 <= j < k <= d.len(),
    ensures
        count_eq(d, j, d[j] as int) < count_eq(d, k, d[j] as int),
{
    lemma_count_eq_mono(d, j + 1, k, d[j] as int);
}

/// Every rank lies in `0..n`.
proof fn lemma_rank_bounds(d: Seq<i32>, j: int)
    requires
        0 <= j < d.len(),
    ensures
        0 <= rank(d, j) < d.len(),
{
    let n = d.len() as int;
    let v = d[j] as int;
    lemma_count_eq_pos(d, j, n);
    lemma_counts_bounded(d, n, v);
}

/// Ranks grow with (depth, index).
proof fn lemma_rank_order(d: Seq<i32>, a: int, b: int)
    requires
        0 <= a < d.len(),
        0 <= b < d.len(),
        d[a] < d[b] || (d[a] == d[b] && a < b),
    ensures
        rank(d, a) < rank(d, b),
{
    let n = d.len() as int;
    if d[a] < d[b] {
        lemma_count_lt_mono(d, n, d[a] as int, d[b] as int);
        lemma_count_eq_pos(d, a, n);
    } else {
        lemma_count_eq_pos(d, a, b);
    }
}

/// Every position `0..n` is the rank of some index.
proof fn lemma_rank_onto(d: Seq<i32>, p: int)
    requires
        0 <= p < d.len(),
    ensures
        exists|j: int| 0 <= j < d.len() && rank(d, j) == p,
{
    let n = d.len() as int;
    let f = |j: int| rank(d, j);
    let dom = set_int_range(0, n);
    lemma_int_range(0, n);
    assert forall|a: int, b: int| dom.contains(a) && dom.contains(b) && #[trigger] f(a) == #[trigger] f(b) implies a == b by {
        if a != b {
            if d[a] < d[b] || (d[a] == d[b] && a < b) {
                lemma_rank_order(d, a, b);
            } else {
                lemma_rank_order(d, b, a);
            }
        }
    }
    let img = dom.map(f);
    lemma_map_size(dom, img, f);
    assert forall|x: int| img.contains(x) implies dom.contains(x) by {
        let j = choose|j: int| dom.contains(j) && f(j) == x;
        lemma_rank_bounds(d, j);
    }
    lemma_subset_equality(img, dom);
    assert(img.contains(p));
}

/// The indices of `depths`, deepest first; splats of equal depth come from
/// the highest index down. Counting sort over the range of depths.
pub fn order_by_depth(depths: &[i32]) -> (out: Vec<u32>)
    requires
        depths@.len() <= 0x1_0000_0000,
        forall|a: int, b: int|
            0 <= a < depths@.len() && 0 <= b < depths@.len() ==> #[trigger] depths@[a]
                - #[trigger] depths@[b] < i32::MAX,
    ensures
        is_depth_order(depths@, out@),
{
    let n = depths.len();
    let ghost d = depths@;
    let mut out: Vec<u32> = Vec::new();
    if n == 0 {
        return out;
    }
    let mut min_depth: i32 = depths[0];
    let mut max_depth: i32 = depths[0];
    let mut i: usize = 1;
    while i < n
        invariant
            n == d.len(),
            d == depths@,
            1 <= i <= n,
            forall|k: int| 0 <= k < i ==> min_depth <= #[trigger] d[k] <= max_depth,
            exists|k: int| 0 <= k < n && d[k] == min_depth,
            exists|k: int| 0 <= k < n && d[k] == max_depth,
        decreases n - i,
    {
        if depths[i] < min_depth {
            min_depth = depths[i];
        }
        if depths[i] > max_depth {
            max_depth = depths[i];
        }
        i = i + 1;
    }
    let ghost kmax = choose|k: int| 0 <= k < n && d[k] == max_depth;
    let ghost kmin = choose|k: int| 0 <= k < n && d[k] == min_depth;
    assert(d[kmax] - d[kmin] < i32::MAX);
    let span: usize = (max_depth as i64 - min_depth as i64) as usize + 1;
    // counts[v] starts as the number of splats at depth min_depth + v
    let mut counts: Vec<usize> = Vec::new();
    while counts.len() < span
        invariant
            counts.len() <= span,
            forall|v: int| 0 <= v < counts.len() ==> #[trigger] counts@[v] == 0,
        decreases span - counts.len(),
    {
        counts.push(0);
    }
    i = 0;
    while i < n
        invariant
            n == d.len(),
            d == depths@,
            i <= n,
            span == max_depth - min_depth + 1,
            counts.len() == span,
            forall|k: int| 0 <= k < n ==> min_depth <= #[trigger] d[k] <= max_depth,
            forall|v: int| 0 <= v < span ==> #[trigger] counts@[v] == count_eq(d, i as int, min_depth + v),
        decreases n - i,
    {
        let v: usize = (depths[i] as i64 - min_depth as i64) as usize;
        proof {
            lemma_counts_bounded(d, i as int, d[i as int] as int);
        }
        let c: usize = counts[v];
        counts.set(v, c + 1);
        i = i + 1;
    }
    // prefix sums: counts[v] becomes the number of splats no deeper than v
    assert(counts@[0] == count_lt(d, n as int, min_depth + 0 + 1)) by {
        lemma_count_lt_step(d, n as int, min_depth + 0);
        lemma_count_lt_none(d, n as int, min_depth as int);
    }
    let mut v: usize = 1;
    while v < span
        invariant
            n == d.len(),
            1 <= v <= span,
            span == max_depth - min_depth + 1,
            counts.len() == span,
            forall|u: int| 0 <= u < v ==> #[trigger] counts@[u] == count_lt(d, n as int, min_depth + u + 1),
            forall|u: int| v <= u < span ==> #[trigger] counts@[u] == count_eq(d, n as int, min_depth + u),
        decreases span - v,
    {
        proof {
            lemma_count_lt_step(d, n as int, min_depth + v);
            lemma_counts_bounded(d, n as int, min_depth + v + 1);
        }
        let a: usize = counts[v - 1];
        let b: usize = counts[v];
        counts.set(v, a + b);
        v = v + 1;
    }
    assert forall|u: int| 0 <= u < span implies #[trigger] counts@[u] == count_lt(d, n as int, min_depth + u)
        + count_eq(d, n as int, min_depth + u) by {
        lemma_count_lt_step(d, n as int, min_depth + u);
    }
    while out.len() < n
        invariant
            out.len() <= n,
        decreases n - out.len(),
    {
        out.push(0);
    }
    // place splats from the last one down, each at the mirror of its rank
    i = n;
    while i > 0
        invariant
            n == d.len(),
            d == depths@,
            n <= 0x1_0000_0000,
            i <= n,
            span == max_depth - min_depth + 1,
            counts.len() == span,
            out.len() == n,
            forall|k: int| 0 <= k < n ==> min_depth <= #[trigger] d[k] <= max_depth,
            forall|u: int| 0 <= u < span ==> #[trigger] counts@[u] == count_lt(d, n as int, min_depth + u)
                + count_eq(d, i as int, min_depth + u),
            forall|j: int| i <= j < n ==> out@[n - 1 - #[trigger] rank(d, j)] == j,
        decreases i,
    {
        let j: usize = i - 1;
        let v: usize = (depths[j] as i64 - min_depth as i64) as usize;
        proof {
            lemma_rank_bounds(d, j as int);
            assert(counts@[v as int] == rank(d, j as int) + 1);
            assert forall|k: int| i <= k < n implies rank(d, k) != rank(d, j as int) by {
                if d[k] < d[j as int] || (d[k] == d[j as int] && k < j) {
                    lemma_rank_order(d, k, j as int);
                } else {
                    lemma_rank_order(d, j as int, k);
                }
            }
        }
        let c: usize = counts[v];
        let pos: usize = c - 1;
        #[verifier::truncate]
        let jj: u32 = j as u32;
        let ghost old_out = out@;
        out.set(n - 1 - pos, jj);
        proof {
            assert forall|k: int| j <= k < n implies out@[n - 1 - #[trigger] rank(d, k)] == k by {
                lemma_rank_bounds(d, k);
                if k > j {
                    assert(rank(d, k) != rank(d, j as int));
                    assert(old_out[n - 1 - rank(d, k)] == k);
                } else {
                    assert(jj == j);
                }
            }
        }
        counts.set(v, pos);
        i = j;
    }
    proof {
        assert forall|k: int| 0 <= k < n implies (#[trigger] out@[k]) < d.len() && rank(d, out@[k] as int) == n - 1 - k by {
            lemma_rank_onto(d, n - 1 - k);
            let j = choose|j: int| 0 <= j < d.len() && rank(d, j) == n - 1 - k;
            assert(out@[n - 1 - rank(d, j)] == j);
        }
        assert forall|k: int, l: int| 0 <= k < l < out.len() implies drawn_before(d, #[trigger] out@[k] as int, #[trigger] out@[l] as int) by {
            let a = out@[k] as int;
            let b = out@[l] as int;
            if d[a] < d[b] || (d[a] == d[b] && a <= b) {
                if a == b {
                } else {
                    lemma_rank_order(d, a, b);
                }
            }
        }
    }
    out
}

proof fn lemma_count_lt_none(d: Seq<i32>, i: int, m: int)
    requires
        0 <= i <= d.len(),
        forall|k: int| 0 <= k < d.len() ==> m <= #[trigger] d[k],
    ensures
        count_lt(d, i, m) == 0,
    decreases i,
{
    if i > 0 {
        lemma_count_lt_none(d, i - 1, m);
    }
}

} // verus!
