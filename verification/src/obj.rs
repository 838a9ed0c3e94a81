//! Reading a Wavefront OBJ mesh: vertex ("v") and normal ("vn") lines give
//! three coordinates each, face ("f") lines give 1-based vertex indices,
//! optionally followed by "/texture/normal" references; other lines are
//! ignored. Coordinates stay text here: they are byte ranges of the file,
//! to be read as numbers by the caller.

use vstd::prelude::*;
use crate::loader::{
    line_end, line_end_from, lemma_line_end_bounds, parse_usize, parse_usize_at, ws_front,
    ws_front_len,
};

verus! {

/// Length of the white-space character at `k` in the line `b[k..e)`, or 0.
pub open spec fn ws_at(b: Seq<u8>, k: int, e: int) -> int {
    ws_front(b.subrange(k, e))
}

/// End of the token that runs on from `k`: the first white space at or
/// after `k` in `b[..e)`, or `e`.
pub open spec fn token_end(b: Seq<u8>, k: int, e: int) -> int
    decreases e - k,
{
    if k >= e || ws_at(b, k, e) > 0 {
        k
    } else {
        token_end(b, k + 1, e)
    }
}

/// A token ends within its line, at or after where it runs from.
pub proof fn lemma_token_end_bounds(b: Seq<u8>, k: int, e: int)
    requires
        k <= e,
    ensures
        k <= token_end(b, k, e) <= e,
    decreases e - k,
{
    if k < e && ws_at(b, k, e) == 0 {
        lemma_token_end_bounds(b, k + 1, e);
    }
}

/// The byte ranges of the white-space separated tokens of `b[k..e)`, in
/// order (as `str::split_whitespace` on valid UTF-8); none for a range
/// that is not inside `b`.
pub open spec fn token_ranges(b: Seq<u8>, k: int, e: int) -> Seq<(usize, usize)>
    decreases e - k,
{
    if k >= e || k < 0 || e > b.len() {
        Seq::empty()
    } else if ws_at(b, k, e) > 0 {
        token_ranges(b, k + ws_at(b, k, e), e)
    } else {
        let t = token_end(b, k + 1, e);
        proof {
            lemma_token_end_bounds(b, k + 1, e);
        }
        seq![(k as usize, t as usize)] + token_ranges(b, t, e)
    }
}

/// The token ranges of the line `b[start..end)`.
fn line_tokens(b: &[u8], start: usize, end: usize) -> (r: Vec<(usize, usize)>)
    requires
        start <= end <= b@.len(),
    ensures
        r@ == token_ranges(b@, start as int, end as int),
{
    let mut r: Vec<(usize, usize)> = Vec::new();
    let mut k: usize = start;
    while k < end
        invariant
            start <= k <= end <= b@.len(),
            token_ranges(b@, start as int, end as int) == r@ + token_ranges(b@, k as int, end as int),
        decreases end - k,
    {
        let w = ws_front_len(b, k, end);
        if w > 0 {
            k = k + w;
        } else {
            let mut t: usize = k + 1;
            while t < end && ws_front_len(b, t, end) == 0
                invariant
                    k < t <= end <= b@.len(),
                    token_end(b@, k + 1, end as int) == token_end(b@, t as int, end as int),
                decreases end - t,
            {
                t = t + 1;
            }
            let ghost before = r@;
            r.push((k, t));
            assert(before + token_ranges(b@, k as int, end as int) =~= r@ + token_ranges(b@, t as int, end as int));
            k = t;
        }
    }
    assert(r@ + token_ranges(b@, k as int, end as int) =~= r@);
    r
}

/// Every token range of `b[k..e)` lies inside it and is not empty.
pub proof fn lemma_token_ranges_bounds(b: Seq<u8>, k: int, e: int)
    requires
        e <= usize::MAX,
    ensures
        forall|j: int|
            0 <= j < token_ranges(b, k, e).len() ==> k <= (#[trigger] token_ranges(b, k, e)[j]).0
                < token_ranges(b, k, e)[j].1 <= e,
    decreases e - k,
{
    if k >= e || k < 0 || e > b.len() {
    } else if ws_at(b, k, e) > 0 {
        lemma_token_ranges_bounds(b, k + ws_at(b, k, e), e);
        assert(token_ranges(b, k, e) == token_ranges(b, k + ws_at(b, k, e), e));
    } else {
        let t = token_end(b, k + 1, e);
        lemma_token_end_bounds(b, k + 1, e);
        lemma_token_ranges_bounds(b, t, e);
        let rest = token_ranges(b, t, e);
        let all = token_ranges(b, k, e);
        assert(all == seq![(k as usize, t as usize)] + rest);
        assert forall|j: int| 0 <= j < all.len() implies k <= (#[trigger] all[j]).0 < all[j].1 <= e by {
            if j > 0 {
                assert(all[j] == rest[j - 1]);
            } else {
                assert(all[0] == (k as usize, t as usize));
            }
        }
    }
}

/// The bytes of token range `t`.
pub open spec fn token(b: Seq<u8>, t: (usize, usize)) -> Seq<u8> {
    b.subrange(t.0 as int, t.1 as int)
}

/// Where the vertex reference of a face token ends: at its first '/', or
/// at the token's end `e`.
pub open spec fn slash_end(b: Seq<u8>, k: int, e: int) -> int
    decreases e - k,
{
    if k >= e || b[k] == 47 {
        k
    } else {
        slash_end(b, k + 1, e)
    }
}

/// The 0-based index of the vertex that face token `t` names: its part
/// before any '/' read as a 1-based `u32`. None when that part is not a
/// number of 1 or more that fits a `u32`.
pub open spec fn face_index(b: Seq<u8>, t: (usize, usize)) -> Option<u32> {
    match parse_usize(b.subrange(t.0 as int, slash_end(b, t.0 as int, t.1 as int))) {
        Some(v) => if 1 <= v <= u32::MAX {
            Some((v - 1) as u32)
        } else {
            None
        },
        None => None,
    }
}

/// The vertex indices of the face tokens `ts`, when each of them names one.
pub open spec fn face_indices(b: Seq<u8>, ts: Seq<(usize, usize)>) -> Option<Seq<u32>> {
    if forall|j: int| 0 <= j < ts.len() ==> (#[trigger] face_index(b, ts[j])) is Some {
        Some(Seq::new(ts.len(), |j: int| face_index(b, ts[j])->0))
    } else {
        None
    }
}

/// What an OBJ line contributes: the ranges of vertex coordinates, of
/// normal coordinates, and the face's vertex indices.
pub type ObjParts = (Seq<(usize, usize)>, Seq<(usize, usize)>, Seq<u32>);

/// Nothing.
pub open spec fn no_parts() -> ObjParts {
    (Seq::empty(), Seq::empty(), Seq::empty())
}

/// What the line with tokens `ts` contributes: a "v" or "vn" line its
/// first three coordinates (it must have them), an "f" line its vertex
/// indices (each must be valid), any other line nothing. None for a
/// malformed line.
pub open spec fn line_parts(b: Seq<u8>, ts: Seq<(usize, usize)>) -> Option<ObjParts> {
    if ts.len() == 0 {
        Some(no_parts())
    } else if token(b, ts[0]) == seq![118u8] {
        if ts.len() >= 4 {
            Some((ts.subrange(1, 4), Seq::empty(), Seq::empty()))
        } else {
            None
        }
    } else if token(b, ts[0]) == seq![118u8, 110u8] {
        if ts.len() >= 4 {
            Some((Seq::empty(), ts.subrange(1, 4), Seq::empty()))
        } else {
            None
        }
    } else if token(b, ts[0]) == seq![102u8] {
        match face_indices(b, ts.skip(1)) {
            Some(ix) => Some((Seq::empty(), Seq::empty(), ix)),
            None => None,
        }
    } else {
        Some(no_parts())
    }
}

/// What the lines of `b` from `pos` on contribute, in order; None when one
/// of them is malformed.
pub open spec fn obj_from(b: Seq<u8>, pos: int) -> Option<ObjParts>
    decreases b.len() - pos,
{
    if pos >= b.len() || pos < 0 {
        Some(no_parts())
    } else {
        let e = line_end_from(b, pos);
        proof {
            if b[pos] != 10 {
                lemma_line_end_bounds(b, pos + 1);
            }
        }
        match line_parts(b, token_ranges(b, pos, e)) {
            None => None,
            Some(l) => match obj_from(b, e) {
                None => None,
                Some(r) => Some((l.0 + r.0, l.1 + r.1, l.2 + r.2)),
            },
        }
    }
}

/// A mesh read from OBJ text. Coordinates are byte ranges of the text:
/// three per vertex, and three per normal, in file order.
#[derive(Debug)]
pub struct ObjText {
    pub positions: Vec<(usize, usize)>,
    pub normals: Vec<(usize, usize)>,
    /// 0-based vertex indices of the faces, in file order.
    pub indices: Vec<u32>,
}

/// The vertex index that the face token `b[s..e)` names.
fn face_index_of(b: &[u8], s: usize, e: usize) -> (r: Option<u32>)
    requires
        s <= e <= b@.len(),
    ensures
        r == face_index(b@, (s, e)),
{
    let mut k: usize = s;
    while k < e && b[k] != 47
        invariant
            s <= k <= e <= b@.len(),
            slash_end(b@, s as int, e as int) == slash_end(b@, k as int, e as int),
        decreases e - k,
    {
        k = k + 1;
    }
    match parse_usize_at(b, s, k) {
        Some(v) => if v >= 1 && (v as u64) <= (u32::MAX as u64) {
            Some((v - 1) as u32)
        } else {
            None
        },
        None => None,
    }
}

/// The vertex indices of the face tokens `ts[1..]` of a line.
fn line_faces(b: &[u8], ts: &Vec<(usize, usize)>) -> (r: Option<Vec<u32>>)
    requires
        ts@.len() >= 1,
        forall|m: int| 0 <= m < ts@.len() ==> (#[trigger] ts@[m]).0 <= ts@[m].1 <= b@.len(),
    ensures
        match face_indices(b@, ts@.skip(1)) {
            Some(ix) => r matches Some(v) && v@ == ix,
            None => r is None,
        },
{
    let ghost faces = ts@.skip(1);
    let mut v: Vec<u32> = Vec::new();
    let mut j: usize = 1;
    while j < ts.len()
        invariant
            1 <= j <= ts@.len(),
            faces == ts@.skip(1),
            forall|m: int| 0 <= m < ts@.len() ==> (#[trigger] ts@[m]).0 <= ts@[m].1 <= b@.len(),
            v@.len() == j - 1,
            forall|m: int| 0 <= m < j - 1 ==> (#[trigger] face_index(b@, faces[m])) == Some(v@[m]),
        decreases ts@.len() - j,
    {
        let (s, t) = ts[j];
        assert(faces[j - 1] == ts@[j as int]);
        match face_index_of(b, s, t) {
            Some(ix) => {
                v.push(ix);
            },
            None => {
                assert(face_index(b@, faces[j - 1]) is None);
                return None;
            },
        }
        j = j + 1;
    }
    assert forall|m: int| 0 <= m < faces.len() implies (#[trigger] face_index(b@, faces[m])) is Some by {}
    assert(v@ =~= Seq::new(faces.len(), |m: int| face_index(b@, faces[m])->0));
    Some(v)
}

/// Reads OBJ text. None when a "v" or "vn" line has fewer than three
/// coordinates, or a face names no valid vertex index.
pub fn parse_obj(content: &[u8]) -> (r: Option<ObjText>)
    ensures
        match obj_from(content@, 0) {
            Some(p) => r matches Some(t) && t.positions@ == p.0 && t.normals@ == p.1 && t.indices@ == p.2,
            None => r is None,
        },
{
    let b = content;
    let mut positions: Vec<(usize, usize)> = Vec::new();
    let mut normals: Vec<(usize, usize)> = Vec::new();
    let mut indices: Vec<u32> = Vec::new();
    let mut pos: usize = 0;
    if b.len() == 0 {
        assert(obj_from(b@, 0) == Some(no_parts()));
        return Some(ObjText { positions, normals, indices });
    }
    assert(obj_from(b@, 0) matches Some(p) ==> (positions@ + p.0, normals@ + p.1, indices@ + p.2) =~= p);
    while pos < b.len()
        invariant
            b@ == content@,
            pos <= b@.len(),
            match obj_from(b@, pos as int) {
                None => obj_from(b@, 0) is None,
                Some(rest) => obj_from(b@, 0) == Some(
                    (positions@ + rest.0, normals@ + rest.1, indices@ + rest.2),
                ),
            },
        decreases b@.len() - pos,
    {
        let e = line_end(b, pos);
        proof {
            if b@[pos as int] != 10 {
                lemma_line_end_bounds(b@, pos + 1);
            }
        }
        let ts = line_tokens(b, pos, e);
        proof {
            lemma_token_ranges_bounds(b@, pos as int, e as int);
        }
        let ghost line = line_parts(b@, ts@);
        let ghost (p0, n0, i0) = (positions@, normals@, indices@);
        if ts.len() > 0 {
            let (s0, e0) = ts[0];
            assert(pos <= s0 < e0 <= e);
            let is_v = e0 - s0 == 1 && b[s0] == 118;
            let is_vn = e0 - s0 == 2 && b[s0] == 118 && b[s0 + 1] == 110;
            let is_f = e0 - s0 == 1 && b[s0] == 102;
            proof {
                let t = token(b@, ts@[0]);
                assert(t.len() == e0 - s0);
                assert(t[0] == b@[s0 as int]);
                if e0 - s0 >= 2 {
                    assert(t[1] == b@[s0 + 1]);
                }
                if t == seq![118u8] {
                    assert(seq![118u8][0] == 118);
                } else if e0 - s0 == 1 && b@[s0 as int] == 118 {
                    assert(t =~= seq![118u8]);
                }
                if t == seq![102u8] {
                    assert(seq![102u8][0] == 102);
                } else if e0 - s0 == 1 && b@[s0 as int] == 102 {
                    assert(t =~= seq![102u8]);
                }
                if t == seq![118u8, 110u8] {
                    assert(seq![118u8, 110u8][0] == 118);
                    assert(seq![118u8, 110u8][1] == 110);
                } else if e0 - s0 == 2 && b@[s0 as int] == 118 && b@[s0 + 1] == 110 {
                    assert(t =~= seq![118u8, 110u8]);
                }
                assert(is_v == (t == seq![118u8]));
                assert(is_vn == (t == seq![118u8, 110u8]));
                assert(is_f == (t == seq![102u8]));
            }
            if is_v || is_vn {
                if ts.len() < 4 {
                    assert(line is None);
                    assert(obj_from(b@, pos as int) is None);
                    return None;
                }
                if is_v {
                    positions.push(ts[1]);
                    positions.push(ts[2]);
                    positions.push(ts[3]);
                    assert(line == Some((ts@.subrange(1, 4), Seq::<(usize, usize)>::empty(), Seq::<u32>::empty())));
                    assert(positions@ =~= p0 + ts@.subrange(1, 4));
                } else {
                    normals.push(ts[1]);
                    normals.push(ts[2]);
                    normals.push(ts[3]);
                    assert(normals@ =~= n0 + ts@.subrange(1, 4));
                }
            } else if is_f {
                match line_faces(b, &ts) {
                    Some(mut v) => {
                        indices.append(&mut v);
                    },
                    None => {
                        assert(line is None);
                        assert(obj_from(b@, pos as int) is None);
                            return None;
                    },
                }
            }
        } else {
            assert(line == Some(no_parts()));
        }
        proof {
            assert(line matches Some(l) && positions@ == p0 + l.0 && normals@ == n0 + l.1 && indices@ == i0 + l.2);
            let l = line->0;
            match obj_from(b@, e as int) {
                None => {}
                Some(rest) => {
                    assert(obj_from(b@, pos as int) == Some((l.0 + rest.0, l.1 + rest.1, l.2 + rest.2)));
                    assert(p0 + (l.0 + rest.0) =~= positions@ + rest.0);
                    assert(n0 + (l.1 + rest.1) =~= normals@ + rest.1);
                    assert(i0 + (l.2 + rest.2) =~= indices@ + rest.2);
                }
            }
        }
        pos = e;
    }
    proof {
        let rest = obj_from(b@, pos as int)->0;
        assert(positions@ + rest.0 =~= positions@);
        assert(normals@ + rest.1 =~= normals@);
        assert(indices@ + rest.2 =~= indices@);
    }
    Some(ObjText { positions, normals, indices })
}

} // verus!
