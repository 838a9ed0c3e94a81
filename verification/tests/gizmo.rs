use gs_rust::gizmo::{Gizmo, GizmoAxis, GizmoMode, GizmoTarget};

#[test]
fn axis_indices_follow_the_handles() {
    assert_eq!(GizmoAxis::X.index(), 0);
    assert_eq!(GizmoAxis::Y.index(), 1);
    assert_eq!(GizmoAxis::Z.index(), 2);
    assert_eq!(GizmoAxis::Uniform.index(), 3);
}

#[test]
fn new_gizmo_translates_nothing() {
    let g = Gizmo::new();
    assert_eq!(g.mode, GizmoMode::Translate);
    assert_eq!(g.target_object, None);
    assert!(!g.is_dragging);
    assert_eq!(g.drag_axis(), None);
}

#[test]
fn center_handle_exists_only_when_scaling() {
    let mut g = Gizmo::new();
    assert_eq!(g.axis_from_pick_index(0), Some(GizmoAxis::X));
    assert_eq!(g.axis_from_pick_index(1), Some(GizmoAxis::Y));
    assert_eq!(g.axis_from_pick_index(2), Some(GizmoAxis::Z));
    assert_eq!(g.axis_from_pick_index(3), None);
    assert_eq!(g.axis_from_pick_index(4), None);
    g.mode = GizmoMode::Scale;
    assert_eq!(g.axis_from_pick_index(3), Some(GizmoAxis::Uniform));
    assert_eq!(g.axis_from_pick_index(4), None);
}

#[test]
fn pick_index_of_an_axis_names_it_again() {
    let mut g = Gizmo::new();
    g.mode = GizmoMode::Scale;
    for a in [GizmoAxis::X, GizmoAxis::Y, GizmoAxis::Z, GizmoAxis::Uniform] {
        assert_eq!(g.axis_from_pick_index(a.index() as u32), Some(a));
    }
}

#[test]
fn drag_starts_and_ends() {
    let mut g = Gizmo::new();
    g.start_drag(GizmoAxis::Y, GizmoTarget::Splat(2), true);
    assert!(g.is_dragging);
    assert_eq!(g.drag_axis(), Some(GizmoAxis::Y));
    assert_eq!(g.target_object, Some(GizmoTarget::Splat(2)));
    g.end_drag();
    assert!(!g.is_dragging);
    assert_eq!(g.drag_axis(), None);
    assert_eq!(g.target_object, Some(GizmoTarget::Splat(2)));
}

#[test]
fn drag_of_a_target_off_screen_does_not_start() {
    let mut g = Gizmo::new();
    g.target_object = Some(GizmoTarget::Mesh(1));
    g.start_drag(GizmoAxis::X, GizmoTarget::Splat(0), false);
    assert!(!g.is_dragging);
    assert_eq!(g.drag_axis(), None);
    assert_eq!(g.target_object, Some(GizmoTarget::Mesh(1)));
}
