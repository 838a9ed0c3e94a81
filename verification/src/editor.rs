//! Editor rules: how the UI names objects and gizmo modes, and how the
//! selection follows a deletion.

use vstd::prelude::*;
use crate::gizmo::{Gizmo, GizmoMode, GizmoTarget};
use crate::text::str_eq;
use crate::data_objects::SplatObject;

verus! {

/// The target that the UI's object kind and index name.
pub open spec fn spec_parse_target(kind: Seq<char>, idx: usize) -> GizmoTarget {
    if kind == "mesh"@ {
        GizmoTarget::Mesh(idx)
    } else {
        GizmoTarget::Splat(idx)
    }
}

/// The gizmo mode a UI name selects; unknown names select translation.
pub open spec fn mode_from_name(name: Seq<char>) -> GizmoMode {
    if name == "rotate"@ {
        GizmoMode::Rotate
    } else if name == "scale"@ {
        GizmoMode::Scale
    } else {
        GizmoMode::Translate
    }
}

/// The UI name of a gizmo mode.
pub open spec fn mode_name(mode: GizmoMode) -> Seq<char> {
    match mode {
        GizmoMode::Rotate => "rotate"@,
        GizmoMode::Scale => "scale"@,
        GizmoMode::Translate => "translate"@,
    }
}

/// The selection after object `deleted` was removed: a selection of the
/// deleted object is dropped, one of a later object of the same kind moves
/// down by one, any other stays.
pub open spec fn spec_target_after_delete(target: Option<GizmoTarget>, deleted: GizmoTarget) -> Option<GizmoTarget> {
    match (target, deleted) {
        (Some(GizmoTarget::Splat(s)), GizmoTarget::Splat(i)) => if s == i {
            None
        } else if s > i {
            Some(GizmoTarget::Splat((s - 1) as usize))
        } else {
            target
        },
        (Some(GizmoTarget::Mesh(s)), GizmoTarget::Mesh(i)) => if s == i {
            None
        } else if s > i {
            Some(GizmoTarget::Mesh((s - 1) as usize))
        } else {
            target
        },
        _ => target,
    }
}

/// "mesh" names a mesh object; any other kind names a splat object.
pub fn parse_target(kind: &str, idx: usize) -> (r: GizmoTarget)
    ensures
        r == spec_parse_target(kind@, idx),
{
    if str_eq(kind, "mesh") {
        GizmoTarget::Mesh(idx)
    } else {
        GizmoTarget::Splat(idx)
    }
}

/// Switches the gizmo between "translate", "rotate" and "scale".
pub fn editor_set_gizmo_mode(gizmo: &mut Gizmo, mode: &str)
    ensures
        final(gizmo).mode == mode_from_name(mode@),
        final(gizmo).target_object == old(gizmo).target_object,
        final(gizmo).is_dragging == old(gizmo).is_dragging,
        final(gizmo).drag == old(gizmo).drag,
{
    gizmo.mode = if str_eq(mode, "rotate") {
        GizmoMode::Rotate
    } else if str_eq(mode, "scale") {
        GizmoMode::Scale
    } else {
        GizmoMode::Translate
    };
}

/// The UI name of the gizmo's mode.
pub fn editor_get_gizmo_mode(gizmo: &Gizmo) -> (r: String)
    ensures
        r@ == mode_name(gizmo.mode),
{
    match gizmo.mode {
        GizmoMode::Rotate => String::from_str("rotate"),
        GizmoMode::Scale => String::from_str("scale"),
        GizmoMode::Translate => String::from_str("translate"),
    }
}

/// Reading a mode's name back selects that mode.
pub proof fn lemma_mode_name_roundtrip(mode: GizmoMode)
    ensures
        mode_from_name(mode_name(mode)) == mode,
{
    reveal_strlit("rotate");
    reveal_strlit("scale");
    reveal_strlit("translate");
    assert("rotate"@.len() == 6);
    assert("scale"@.len() == 5);
    assert("translate"@.len() == 9);
    assert("rotate"@ != "scale"@);
}

/// Object `target` may be deleted: it exists, and a splat object is not the
/// last one left.
pub open spec fn spec_can_delete(target: GizmoTarget, splat_objects: usize, meshes: usize) -> bool {
    match target {
        GizmoTarget::Splat(i) => splat_objects > 1 && i < splat_objects,
        GizmoTarget::Mesh(i) => i < meshes,
    }
}

/// Whether object `target` may be deleted, given how many splat objects and
/// meshes there are.
pub fn can_delete(target: GizmoTarget, splat_objects: usize, meshes: usize) -> (r: bool)
    ensures
        r == spec_can_delete(target, splat_objects, meshes),
{
    match target {
        GizmoTarget::Splat(i) => splat_objects > 1 && i < splat_objects,
        GizmoTarget::Mesh(i) => i < meshes,
    }
}

/// The selection after object `deleted` was removed.
pub fn target_after_delete(target: Option<GizmoTarget>, deleted: GizmoTarget) -> (r: Option<GizmoTarget>)
    ensures
        r == spec_target_after_delete(target, deleted),
{
    match (target, deleted) {
        (Some(GizmoTarget::Splat(s)), GizmoTarget::Splat(i)) => if s == i {
            None
        } else if s > i {
            Some(GizmoTarget::Splat(s - 1))
        } else {
            target
        },
        (Some(GizmoTarget::Mesh(s)), GizmoTarget::Mesh(i)) => if s == i {
            None
        } else if s > i {
            Some(GizmoTarget::Mesh(s - 1))
        } else {
            target
        },
        _ => target,
    }
}

/// After a deletion the selection still names the object it named before,
/// at its new index: an object of another kind keeps its index, a later
/// one of the same kind moves down by one.
pub proof fn lemma_target_follows_object(target: GizmoTarget, deleted: GizmoTarget)
    requires
        target != deleted,
    ensures
        spec_target_after_delete(Some(target), deleted) is Some,
        match (target, deleted, spec_target_after_delete(Some(target), deleted)) {
            (GizmoTarget::Splat(s), GizmoTarget::Splat(i), Some(GizmoTarget::Splat(t))) => t == if s > i { s - 1 } else { s as int },
            (GizmoTarget::Mesh(s), GizmoTarget::Mesh(i), Some(GizmoTarget::Mesh(t))) => t == if s > i { s - 1 } else { s as int },
            (GizmoTarget::Splat(s), GizmoTarget::Mesh(_), Some(t)) => t == target,
            (GizmoTarget::Mesh(s), GizmoTarget::Splat(_), Some(t)) => t == target,
            _ => false,
        },
{
}

/// One row of the editor's object list.
#[derive(Debug, Clone, Copy, PartialEq, Eq, Structural)]
pub struct ListedObject {
    /// The object the row stands for.
    pub target: GizmoTarget,
    /// Its splats, or its mesh vertices.
    pub count: u64,
    pub hidden: bool,
    /// The object is the current selection.
    pub selected: bool,
}

/// The row of splat object `i`; `hidden[i]`, where it exists, says whether
/// the object is hidden.
pub open spec fn splat_row(objects: Seq<SplatObject>, hidden: Seq<bool>, selected: Option<GizmoTarget>, i: int) -> ListedObject {
    ListedObject {
        target: GizmoTarget::Splat(i as usize),
        count: (objects[i].end - objects[i].start + 1) as u64,
        hidden: i < hidden.len() && hidden[i],
        selected: selected == Some(GizmoTarget::Splat(i as usize)),
    }
}

/// The rows of the first `n` splat objects; an emptied object (its end
/// below its start) gets none.
pub open spec fn splat_rows(objects: Seq<SplatObject>, hidden: Seq<bool>, selected: Option<GizmoTarget>, n: int) -> Seq<ListedObject>
    decreases n,
{
    if n <= 0 {
        Seq::empty()
    } else {
        let before = splat_rows(objects, hidden, selected, n - 1);
        if objects[n - 1].end < objects[n - 1].start {
            before
        } else {
            before.push(splat_row(objects, hidden, selected, n - 1))
        }
    }
}

/// The row of mesh `i`, given its vertex coordinate count and whether it
/// is hidden: three coordinates make a vertex.
pub open spec fn mesh_row(meshes: Seq<(usize, bool)>, selected: Option<GizmoTarget>, i: int) -> ListedObject {
    ListedObject {
        target: GizmoTarget::Mesh(i as usize),
        count: (meshes[i].0 / 3) as u64,
        hidden: meshes[i].1,
        selected: selected == Some(GizmoTarget::Mesh(i as usize)),
    }
}

/// The object list: the splat objects that hold splats, then every mesh.
pub open spec fn spec_listed_objects(
    objects: Seq<SplatObject>,
    hidden: Seq<bool>,
    meshes: Seq<(usize, bool)>,
    selected: Option<GizmoTarget>,
) -> Seq<ListedObject> {
    splat_rows(objects, hidden, selected, objects.len() as int) + Seq::new(
        meshes.len(),
        |i: int| mesh_row(meshes, selected, i),
    )
}

/// The editor's object list. `hidden[i]` says whether splat object `i` is
/// hidden (objects past its end are shown); each mesh comes as its vertex
/// coordinate count and whether it is hidden.
pub fn listed_objects(
    objects: &[SplatObject],
    hidden: &[bool],
    meshes: &[(usize, bool)],
    selected: Option<GizmoTarget>,
) -> (r: Vec<ListedObject>)
    ensures
        r@ == spec_listed_objects(objects@, hidden@, meshes@, selected),
{
    let mut r: Vec<ListedObject> = Vec::new();
    let mut i: usize = 0;
    while i < objects.len()
        invariant
            i <= objects@.len(),
            r@ == splat_rows(objects@, hidden@, selected, i as int),
        decreases objects@.len() - i,
    {
        let o = objects[i];
        if !(o.end < o.start) {
            let count: u64 = (o.end - o.start) as u64 + 1;
            let is_hidden = i < hidden.len() && hidden[i];
            let is_selected = match selected {
                Some(GizmoTarget::Splat(s)) => s == i,
                _ => false,
            };
            r.push(ListedObject { target: GizmoTarget::Splat(i), count, hidden: is_hidden, selected: is_selected });
        }
        i = i + 1;
    }
    let ghost splats = r@;
    let mut m: usize = 0;
    while m < meshes.len()
        invariant
            m <= meshes@.len(),
            splats == splat_rows(objects@, hidden@, selected, objects@.len() as int),
            r@ == splats + Seq::new(m as nat, |k: int| mesh_row(meshes@, selected, k)),
        decreases meshes@.len() - m,
    {
        let (len, is_hidden) = meshes[m];
        let is_selected = match selected {
            Some(GizmoTarget::Mesh(s)) => s == m,
            _ => false,
        };
        r.push(ListedObject { target: GizmoTarget::Mesh(m), count: (len / 3) as u64, hidden: is_hidden, selected: is_selected });
        m = m + 1;
        assert(r@ =~= splats + Seq::new(m as nat, |k: int| mesh_row(meshes@, selected, k)));
    }
    r
}

/// The splat object a slice cuts: the selected splat object when slicing
/// is limited to the selection (the first object when a mesh or nothing
/// is selected), else the first object; none when that object does not
/// exist.
pub open spec fn spec_slice_target(selected_only: bool, selected: Option<GizmoTarget>, objects: usize) -> Option<usize> {
    let t: usize = if selected_only {
        match selected {
            Some(GizmoTarget::Splat(i)) => i,
            _ => 0,
        }
    } else {
        0
    };
    if t < objects {
        Some(t)
    } else {
        None
    }
}

/// The splat object that a slice cuts, among `objects` splat objects.
pub fn slice_target(selected_only: bool, selected: Option<GizmoTarget>, objects: usize) -> (r: Option<usize>)
    ensures
        r == spec_slice_target(selected_only, selected, objects),
{
    let t: usize = if selected_only {
        match selected {
            Some(GizmoTarget::Splat(i)) => i,
            _ => 0,
        }
    } else {
        0
    };
    if t < objects {
        Some(t)
    } else {
        None
    }
}

/// Object `target` exists among `meshes` meshes and `splat_objects` splat
/// objects.
pub open spec fn target_exists(target: GizmoTarget, meshes: usize, splat_objects: usize) -> bool {
    match target {
        GizmoTarget::Mesh(i) => i < meshes,
        GizmoTarget::Splat(i) => i < splat_objects,
    }
}

/// Selects `target` when it exists. Returns whether the selection was
/// something else before (tint previews are then dropped) and whether
/// `target` is now selected (the gizmo then moves to it).
pub fn select_target(gizmo: &mut Gizmo, target: GizmoTarget, meshes: usize, splat_objects: usize) -> (r: (bool, bool))
    ensures
        r.0 == (old(gizmo).target_object != Some(target)),
        r.1 == target_exists(target, meshes, splat_objects),
        final(gizmo).target_object == if r.1 { Some(target) } else { old(gizmo).target_object },
        final(gizmo).mode == old(gizmo).mode,
        final(gizmo).is_dragging == old(gizmo).is_dragging,
        final(gizmo).drag == old(gizmo).drag,
{
    let changed = match gizmo.target_object {
        Some(t) => !(t == target),
        None => true,
    };
    let exists = match target {
        GizmoTarget::Mesh(i) => i < meshes,
        GizmoTarget::Splat(i) => i < splat_objects,
    };
    if exists {
        gizmo.target_object = Some(target);
    }
    (changed, exists)
}

/// The object a gizmo drag would move: the selection, when it exists.
pub fn drag_target(gizmo: &Gizmo, meshes: usize, splat_objects: usize) -> (r: Option<GizmoTarget>)
    ensures
        r == match gizmo.target_object {
            Some(t) => if target_exists(t, meshes, splat_objects) {
                Some(t)
            } else {
                None
            },
            None => None,
        },
{
    match gizmo.target_object {
        Some(t) => {
            let exists = match t {
                GizmoTarget::Mesh(i) => i < meshes,
                GizmoTarget::Splat(i) => i < splat_objects,
            };
            if exists {
                Some(t)
            } else {
                None
            }
        },
        None => None,
    }
}

/// An object may be deleted exactly when it exists, and, for a splat
/// object, when it is not the only one: any splat object, the first
/// included, may go while at least two exist.
pub proof fn lemma_can_delete_rule(i: usize, splat_objects: usize, meshes: usize)
    ensures
        spec_can_delete(GizmoTarget::Splat(i), splat_objects, meshes) <==> (splat_objects >= 2 && i
            < splat_objects),
        spec_can_delete(GizmoTarget::Mesh(i), splat_objects, meshes) <==> i < meshes,
        splat_objects >= 2 ==> spec_can_delete(GizmoTarget::Splat(0), splat_objects, meshes),
        splat_objects <= 1 ==> !spec_can_delete(GizmoTarget::Splat(i), splat_objects, meshes),
{
}

proof fn lemma_splat_rows_selected(
    objects: Seq<SplatObject>,
    hidden: Seq<bool>,
    selected: Option<GizmoTarget>,
    n: int,
)
    requires
        0 <= n <= objects.len(),
        objects.len() <= usize::MAX,
    ensures
        forall|k: int|
            0 <= k < splat_rows(objects, hidden, selected, n).len() ==> {
                let row = #[trigger] splat_rows(objects, hidden, selected, n)[k];
                &&& row.selected == (selected == Some(row.target))
                &&& row.target matches GizmoTarget::Splat(i) && i < n
            },
    decreases n,
{
    if n > 0 {
        lemma_splat_rows_selected(objects, hidden, selected, n - 1);
        let before = splat_rows(objects, hidden, selected, n - 1);
        let now = splat_rows(objects, hidden, selected, n);
        assert forall|k: int| 0 <= k < now.len() implies {
            let row = #[trigger] now[k];
            &&& row.selected == (selected == Some(row.target))
            &&& row.target matches GizmoTarget::Splat(i) && i < n
        } by {
            if k < before.len() {
                assert(now[k] == before[k]);
            }
        }
    }
}

/// Each row of the object list is marked selected exactly when the
/// selection is that row's own object: a splat row by its splat object, a
/// mesh row by its mesh. Splat rows come first and name splat objects,
/// mesh `m` is row `m` after them.
pub proof fn lemma_listed_rows_selected(
    objects: Seq<SplatObject>,
    hidden: Seq<bool>,
    meshes: Seq<(usize, bool)>,
    selected: Option<GizmoTarget>,
)
    requires
        objects.len() <= usize::MAX,
        meshes.len() <= usize::MAX,
    ensures
        forall|k: int|
            0 <= k < spec_listed_objects(objects, hidden, meshes, selected).len() ==> (#[trigger] spec_listed_objects(
                objects,
                hidden,
                meshes,
                selected,
            )[k]).selected == (selected == Some(spec_listed_objects(objects, hidden, meshes, selected)[k].target)),
        ({
            let rows = spec_listed_objects(objects, hidden, meshes, selected);
            let first = rows.len() - meshes.len();
            &&& first >= 0
            &&& forall|m: int|
                0 <= m < meshes.len() ==> (#[trigger] rows[first + m]).target == GizmoTarget::Mesh(
                    m as usize,
                ) && rows[first + m].selected == (selected == Some(GizmoTarget::Mesh(m as usize)))
        }),
{
    let n = objects.len() as int;
    lemma_splat_rows_selected(objects, hidden, selected, n);
    let sp = splat_rows(objects, hidden, selected, n);
    let ms = Seq::new(meshes.len(), |i: int| mesh_row(meshes, selected, i));
    let rows = spec_listed_objects(objects, hidden, meshes, selected);
    assert(rows == sp + ms);
    assert forall|k: int| 0 <= k < rows.len() implies (#[trigger] rows[k]).selected == (selected == Some(
        rows[k].target,
    )) by {
        if k < sp.len() {
            assert(rows[k] == sp[k]);
        } else {
            assert(rows[k] == ms[k - sp.len()]);
        }
    }
    assert forall|m: int| 0 <= m < meshes.len() implies (#[trigger] rows[sp.len() + m]).target
        == GizmoTarget::Mesh(m as usize) && rows[sp.len() + m].selected == (selected == Some(
        GizmoTarget::Mesh(m as usize),
    )) by {
        assert(rows[sp.len() + m] == ms[m]);
    }
}

} // verus!
