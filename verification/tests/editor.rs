use gs_rust::data_objects::SplatObject;
use gs_rust::editor::{
    can_delete, drag_target, select_target, editor_get_gizmo_mode, editor_set_gizmo_mode, listed_objects, parse_target,
    slice_target, target_after_delete, ListedObject,
};
use gs_rust::gizmo::{Gizmo, GizmoMode, GizmoTarget};
use gs_rust::text::str_eq;

#[test]
fn mesh_kind_names_a_mesh_anything_else_a_splat_object() {
    assert_eq!(parse_target("mesh", 3), GizmoTarget::Mesh(3));
    assert_eq!(parse_target("splat", 3), GizmoTarget::Splat(3));
    assert_eq!(parse_target("Mesh", 1), GizmoTarget::Splat(1));
    assert_eq!(parse_target("", 0), GizmoTarget::Splat(0));
}

#[test]
fn gizmo_mode_names() {
    let mut g = Gizmo::new();
    editor_set_gizmo_mode(&mut g, "rotate");
    assert_eq!(g.mode, GizmoMode::Rotate);
    assert_eq!(editor_get_gizmo_mode(&g), "rotate");
    editor_set_gizmo_mode(&mut g, "scale");
    assert_eq!(g.mode, GizmoMode::Scale);
    assert_eq!(editor_get_gizmo_mode(&g), "scale");
    editor_set_gizmo_mode(&mut g, "spin");
    assert_eq!(g.mode, GizmoMode::Translate);
    assert_eq!(editor_get_gizmo_mode(&g), "translate");
}

#[test]
fn mode_name_read_back_selects_the_mode() {
    for m in [GizmoMode::Translate, GizmoMode::Rotate, GizmoMode::Scale] {
        let mut g = Gizmo::new();
        g.mode = m;
        let name = editor_get_gizmo_mode(&g);
        let mut h = Gizmo::new();
        h.mode = GizmoMode::Rotate;
        editor_set_gizmo_mode(&mut h, &name);
        assert_eq!(h.mode, m);
    }
}

#[test]
fn setting_the_mode_keeps_the_selection() {
    let mut g = Gizmo::new();
    g.target_object = Some(GizmoTarget::Mesh(4));
    editor_set_gizmo_mode(&mut g, "scale");
    assert_eq!(g.target_object, Some(GizmoTarget::Mesh(4)));
}

#[test]
fn last_splat_object_cannot_be_deleted() {
    assert!(!can_delete(GizmoTarget::Splat(0), 1, 0));
    assert!(can_delete(GizmoTarget::Splat(1), 2, 0));
    assert!(!can_delete(GizmoTarget::Splat(2), 2, 0));
    assert!(can_delete(GizmoTarget::Mesh(0), 1, 1));
    assert!(!can_delete(GizmoTarget::Mesh(1), 1, 1));
}

#[test]
fn selection_follows_a_deletion() {
    let d = GizmoTarget::Splat(2);
    assert_eq!(target_after_delete(Some(GizmoTarget::Splat(2)), d), None);
    assert_eq!(target_after_delete(Some(GizmoTarget::Splat(5)), d), Some(GizmoTarget::Splat(4)));
    assert_eq!(target_after_delete(Some(GizmoTarget::Splat(1)), d), Some(GizmoTarget::Splat(1)));
    assert_eq!(target_after_delete(Some(GizmoTarget::Mesh(5)), d), Some(GizmoTarget::Mesh(5)));
    assert_eq!(target_after_delete(None, d), None);
    let m = GizmoTarget::Mesh(0);
    assert_eq!(target_after_delete(Some(GizmoTarget::Mesh(0)), m), None);
    assert_eq!(target_after_delete(Some(GizmoTarget::Mesh(3)), m), Some(GizmoTarget::Mesh(2)));
    assert_eq!(target_after_delete(Some(GizmoTarget::Splat(3)), m), Some(GizmoTarget::Splat(3)));
}

#[test]
fn object_list_skips_emptied_objects_and_lists_meshes() {
    let objects = [
        SplatObject { start: 0, end: 9 },
        SplatObject { start: 10, end: 5 },
        SplatObject { start: 10, end: 10 },
    ];
    let hidden = [false, false];
    let meshes = [(24usize, true), (9usize, false)];
    let rows = listed_objects(&objects, &hidden, &meshes, Some(GizmoTarget::Splat(2)));
    assert_eq!(
        rows,
        vec![
            ListedObject { target: GizmoTarget::Splat(0), count: 10, hidden: false, selected: false },
            ListedObject { target: GizmoTarget::Splat(2), count: 1, hidden: false, selected: true },
            ListedObject { target: GizmoTarget::Mesh(0), count: 8, hidden: true, selected: false },
            ListedObject { target: GizmoTarget::Mesh(1), count: 3, hidden: false, selected: false },
        ]
    );
    let rows = listed_objects(&objects[..1], &[true], &[], Some(GizmoTarget::Mesh(0)));
    assert_eq!(
        rows,
        vec![ListedObject { target: GizmoTarget::Splat(0), count: 10, hidden: true, selected: false }]
    );
}

#[test]
fn object_of_the_whole_index_range_counts_all() {
    let rows = listed_objects(&[SplatObject { start: 0, end: u32::MAX }], &[], &[], None);
    assert_eq!(rows[0].count, 1u64 << 32);
}

#[test]
fn slice_cuts_the_selection_or_the_first_object() {
    assert_eq!(slice_target(true, Some(GizmoTarget::Splat(2)), 3), Some(2));
    assert_eq!(slice_target(true, Some(GizmoTarget::Splat(3)), 3), None);
    assert_eq!(slice_target(true, Some(GizmoTarget::Mesh(2)), 3), Some(0));
    assert_eq!(slice_target(true, None, 3), Some(0));
    assert_eq!(slice_target(false, Some(GizmoTarget::Splat(2)), 3), Some(0));
    assert_eq!(slice_target(false, None, 0), None);
}

#[test]
fn strings_compare_by_characters() {
    assert!(str_eq("mesh", "mesh"));
    assert!(!str_eq("mesh", "meshes"));
    assert!(!str_eq("é", "e"));
    assert!(str_eq("", ""));
}

#[test]
fn selecting_an_existing_object() {
    let mut g = Gizmo::new();
    assert_eq!(select_target(&mut g, GizmoTarget::Mesh(1), 2, 1), (true, true));
    assert_eq!(g.target_object, Some(GizmoTarget::Mesh(1)));
    assert_eq!(select_target(&mut g, GizmoTarget::Mesh(1), 2, 1), (false, true));
    assert_eq!(select_target(&mut g, GizmoTarget::Splat(1), 2, 1), (true, false));
    assert_eq!(g.target_object, Some(GizmoTarget::Mesh(1)));
    assert_eq!(drag_target(&g, 2, 1), Some(GizmoTarget::Mesh(1)));
    assert_eq!(drag_target(&g, 1, 1), None);
    g.target_object = None;
    assert_eq!(drag_target(&g, 2, 1), None);
}
