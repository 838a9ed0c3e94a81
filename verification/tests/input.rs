use gs_rust::gizmo::GizmoAxis;
use gs_rust::input::{
    camera_steps, MoveKeys,
    toggle_for_key, FrameAction, PointerState, PressAction, ReleaseAction, ScreenPoint, Toggle, ViewToggles,
    CLICK_RADIUS_SQUARED,
};

#[test]
fn short_click_on_empty_space_picks() {
    let mut s = PointerState::new();
    assert!(!s.mouse_down(100, 50, 0, false));
    assert_eq!(s.pressed_on(0, false, false), PressAction::Nothing);
    assert_eq!(s.mouse_move(103, 54, false), None);
    let r = s.mouse_up(103, 55, false, false, false);
    assert_eq!(r, ReleaseAction { pick: true, slice_from: None });
    assert!(!s.dragging);
}

#[test]
fn drag_is_no_click() {
    let mut s = PointerState::new();
    s.mouse_down(100, 50, 0, false);
    let r = s.mouse_up(107, 50, false, false, false);
    assert!(!r.pick);
    assert_eq!(CLICK_RADIUS_SQUARED, 36);
    s.mouse_down(100, 50, 0, false);
    assert!(s.mouse_up(106, 50, false, false, false).pick);
}

#[test]
fn click_on_an_object_or_with_keys_does_not_pick() {
    let mut s = PointerState::new();
    s.mouse_down(10, 10, 0, false);
    assert_eq!(s.pressed_on(3, false, true), PressAction::SelectMesh(3));
    assert!(!s.mouse_up(10, 10, false, false, false).pick);
    s.mouse_down(10, 10, 0, false);
    assert!(!s.mouse_up(10, 10, true, false, false).pick);
    s.mouse_down(10, 10, 0, false);
    assert!(!s.mouse_up(10, 10, false, true, false).pick);
}

#[test]
fn gizmo_handles_start_drags() {
    let mut s = PointerState::new();
    s.mouse_down(1, 1, 0, false);
    assert_eq!(s.pressed_on(1, true, true), PressAction::StartGizmoDrag(GizmoAxis::Y));
    assert_eq!(s.pressed_on(3, true, true), PressAction::Nothing);
    assert!(s.down_hit);
}

#[test]
fn cutting_line_with_p_held_slices() {
    let mut s = PointerState::new();
    assert!(s.mouse_down(5, 6, 0, true));
    assert_eq!(s.line_start, Some(ScreenPoint { x: 5, y: 6 }));
    assert_eq!(
        s.mouse_move(50, 60, true),
        Some((ScreenPoint { x: 5, y: 6 }, ScreenPoint { x: 50, y: 60 }))
    );
    let r = s.mouse_up(50, 60, false, false, true);
    assert_eq!(r, ReleaseAction { pick: false, slice_from: Some(ScreenPoint { x: 5, y: 6 }) });
    assert_eq!(s.line_start, None);
}

#[test]
fn releasing_p_first_cancels_the_slice() {
    let mut s = PointerState::new();
    s.mouse_down(5, 6, 0, true);
    let r = s.mouse_up(50, 60, false, false, false);
    assert_eq!(r.slice_from, None);
    assert_eq!(s.line_start, None);
}

#[test]
fn hints_follow_keys_and_drags_follow_the_cursor() {
    let mut s = PointerState::new();
    assert_eq!(s.frame(true, false, false), FrameAction { slice_mode: Some(true), delete_mode: None, drag_to: None });
    assert_eq!(s.frame(true, true, false), FrameAction { slice_mode: None, delete_mode: Some(true), drag_to: None });
    assert_eq!(s.frame(false, false, false), FrameAction { slice_mode: Some(false), delete_mode: Some(false), drag_to: None });
    s.mouse_down(3, 4, 0, false);
    s.mouse_move(8, 9, false);
    assert_eq!(s.frame(false, false, true).drag_to, Some(ScreenPoint { x: 8, y: 9 }));
    s.mouse_up(8, 9, true, false, false);
    assert_eq!(s.frame(false, false, true).drag_to, None);
    assert!(!s.clicked);
}

#[test]
fn keys_toggle_settings() {
    assert_eq!(toggle_for_key("o"), Some(Toggle::ShowOcttree));
    assert_eq!(toggle_for_key("_"), Some(Toggle::MoveDown));
    assert_eq!(toggle_for_key("r"), Some(Toggle::RestrictGizmoMovement));
    assert_eq!(toggle_for_key("x"), None);
    assert_eq!(toggle_for_key("oo"), None);
    let start = ViewToggles::new();
    assert!(start.do_sorting && start.do_blending && start.use_octtree_for_splat_removal);
    assert!(!start.show_octtree);
    let mut t = start;
    t.toggle(Toggle::DoSorting);
    assert!(!t.get(Toggle::DoSorting));
    assert!(t.get(Toggle::DoBlending));
    t.toggle(Toggle::DoSorting);
    assert_eq!(t, start);
}

#[test]
fn camera_keys_move_and_alt_freezes() {
    let none = MoveKeys { forward: false, back: false, left: false, right: false, down: false, up: false, alt: false };
    assert_eq!(camera_steps(none), Some((0, 0, 0)));
    assert_eq!(camera_steps(MoveKeys { forward: true, left: true, ..none }), Some((1, 0, 1)));
    assert_eq!(camera_steps(MoveKeys { back: true, right: true, down: true, ..none }), Some((-1, -1, -1)));
    assert_eq!(camera_steps(MoveKeys { forward: true, back: true, up: true, ..none }), Some((0, 1, 0)));
    assert_eq!(camera_steps(MoveKeys { forward: true, alt: true, ..none }), None);
}
