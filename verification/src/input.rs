//! The viewer's input handling as a state machine: mouse and keyboard
//! events come in, the state changes, and the actions the host performs
//! (picking, selecting, dragging the gizmo, slicing, showing mode hints)
//! come out.

use vstd::prelude::*;
use crate::gizmo::GizmoAxis;
use crate::text::str_eq;

verus! {

/// A press and release this close (squared distance in pixels) is a click
/// rather than a drag.
pub const CLICK_RADIUS_SQUARED: i64 = 36;

/// A cursor position in canvas pixels.
#[derive(Debug, Clone, Copy, PartialEq, Eq, Structural)]
pub struct ScreenPoint {
    pub x: i32,
    pub y: i32,
}

/// Mouse and mode-hint state.
#[derive(Debug, Clone, Copy, PartialEq, Eq, Structural)]
pub struct PointerState {
    /// A button went down since the last frame, or is held while moving.
    pub clicked: bool,
    /// A button is held.
    pub dragging: bool,
    /// Last known cursor position.
    pub x: i32,
    pub y: i32,
    pub button: i16,
    /// Where the button went down, and whether that press hit an object.
    pub down_x: i32,
    pub down_y: i32,
    pub down_hit: bool,
    /// Start of the cutting line, while one is drawn.
    pub line_start: Option<ScreenPoint>,
    /// The slice-mode and delete-mode hints are showing.
    pub slice_mode_shown: bool,
    pub delete_mode_shown: bool,
}

/// What a press that hit something does.
#[derive(Debug, Clone, Copy, PartialEq, Eq, Structural)]
pub enum PressAction {
    Nothing,
    /// Select mesh object `index` (ending any gizmo drag).
    SelectMesh(u32),
    /// Start dragging a gizmo handle.
    StartGizmoDrag(GizmoAxis),
}

/// What a release does.
#[derive(Debug, Clone, Copy, PartialEq, Eq, Structural)]
pub struct ReleaseAction {
    /// The press was a click on empty space: pick the splat object under
    /// the cursor, or deselect.
    pub pick: bool,
    /// A cutting line was drawn from this point to the cursor: slice.
    pub slice_from: Option<ScreenPoint>,
}

/// Mode hints to show (`Some(true)`), hide (`Some(false)`) or leave.
#[derive(Debug, Clone, Copy, PartialEq, Eq, Structural)]
pub struct FrameAction {
    pub slice_mode: Option<bool>,
    pub delete_mode: Option<bool>,
    /// Move the gizmo drag to this cursor position.
    pub drag_to: Option<ScreenPoint>,
}

/// The handle of the picking index of a press; only the three axis
/// handles start a drag this way.
pub open spec fn press_axis(index: u32) -> Option<GizmoAxis> {
    if index == 0 {
        Some(GizmoAxis::X)
    } else if index == 1 {
        Some(GizmoAxis::Y)
    } else if index == 2 {
        Some(GizmoAxis::Z)
    } else {
        None
    }
}

/// What a press does, given what picking found under the cursor.
pub open spec fn spec_press_action(index: u32, is_gizmo: bool, hit: bool) -> PressAction {
    if !hit {
        PressAction::Nothing
    } else if !is_gizmo {
        PressAction::SelectMesh(index)
    } else {
        match press_axis(index) {
            Some(a) => PressAction::StartGizmoDrag(a),
            None => PressAction::Nothing,
        }
    }
}

/// A release at (`x`, `y`) ends a click: it lies within the click radius
/// of the press.
pub open spec fn is_click(down_x: i32, down_y: i32, x: i32, y: i32) -> bool {
    (x - down_x) * (x - down_x) + (y - down_y) * (y - down_y) <= CLICK_RADIUS_SQUARED
}

/// How a hint follows its key: shown when the key goes down, hidden when
/// it comes up.
pub open spec fn hint_change(held: bool, shown: bool) -> Option<bool> {
    if held && !shown {
        Some(true)
    } else if !held && shown {
        Some(false)
    } else {
        None
    }
}

impl PointerState {
    /// Nothing pressed, no hints shown.
    pub fn new() -> (r: Self)
        ensures
            !r.clicked && !r.dragging && !r.down_hit,
            r.x == 0 && r.y == 0 && r.button == 0 && r.down_x == 0 && r.down_y == 0,
            r.line_start is None,
            !r.slice_mode_shown && !r.delete_mode_shown,
    {
        PointerState {
            clicked: false,
            dragging: false,
            x: 0,
            y: 0,
            button: 0,
            down_x: 0,
            down_y: 0,
            down_hit: false,
            line_start: None,
            slice_mode_shown: false,
            delete_mode_shown: false,
        }
    }

    /// A button goes down at (`x`, `y`). With "p" held a cutting line
    /// starts there; the result says whether to stop the camera from
    /// rotating (it does, while a line is drawn).
    pub fn mouse_down(&mut self, x: i32, y: i32, button: i16, p_held: bool) -> (stop_camera: bool)
        ensures
            stop_camera == p_held,
            *final(self) == (PointerState {
                clicked: true,
                dragging: true,
                x,
                y,
                button,
                down_x: x,
                down_y: y,
                down_hit: false,
                line_start: if p_held { Some(ScreenPoint { x, y }) } else { old(self).line_start },
                ..*old(self)
            }),
    {
        self.clicked = true;
        self.dragging = true;
        self.x = x;
        self.y = y;
        self.button = button;
        self.down_x = x;
        self.down_y = y;
        self.down_hit = false;
        if p_held {
            self.line_start = Some(ScreenPoint { x, y });
        }
        p_held
    }

    /// What picking found under a press: a mesh object is selected, an
    /// axis handle starts a drag.
    pub fn pressed_on(&mut self, index: u32, is_gizmo: bool, hit: bool) -> (r: PressAction)
        ensures
            r == spec_press_action(index, is_gizmo, hit),
            *final(self) == (PointerState { down_hit: old(self).down_hit || hit, ..*old(self) }),
    {
        if !hit {
            return PressAction::Nothing;
        }
        self.down_hit = true;
        if !is_gizmo {
            return PressAction::SelectMesh(index);
        }
        if index == 0 {
            PressAction::StartGizmoDrag(GizmoAxis::X)
        } else if index == 1 {
            PressAction::StartGizmoDrag(GizmoAxis::Y)
        } else if index == 2 {
            PressAction::StartGizmoDrag(GizmoAxis::Z)
        } else {
            PressAction::Nothing
        }
    }

    /// The cursor moves to (`x`, `y`). While a cutting line is drawn with
    /// "p" held, the result is the line to show.
    pub fn mouse_move(&mut self, x: i32, y: i32, p_held: bool) -> (line: Option<(ScreenPoint, ScreenPoint)>)
        ensures
            *final(self) == (PointerState { x, y, clicked: old(self).clicked || old(self).dragging, ..*old(self) }),
            line == (if old(self).dragging && p_held && old(self).line_start is Some {
                Some((old(self).line_start.unwrap(), ScreenPoint { x, y }))
            } else {
                None
            }),
    {
        self.x = x;
        self.y = y;
        if !self.dragging {
            return None;
        }
        self.clicked = true;
        if p_held {
            match self.line_start {
                Some(start) => Some((start, ScreenPoint { x, y })),
                None => None,
            }
        } else {
            None
        }
    }

    /// The button comes up at (`x`, `y`). A click that did not hit an
    /// object or the gizmo, with neither "Alt" nor "p" held, picks; a
    /// cutting line drawn with "p" still held slices. The line ends either
    /// way.
    pub fn mouse_up(&mut self, x: i32, y: i32, was_dragging_gizmo: bool, alt_held: bool, p_held: bool) -> (r: ReleaseAction)
        ensures
            *final(self) == (PointerState { dragging: false, line_start: None, ..*old(self) }),
            r.pick == (is_click(old(self).down_x, old(self).down_y, x, y) && !was_dragging_gizmo
                && !old(self).down_hit && !alt_held && !p_held),
            r.slice_from == (if p_held { old(self).line_start } else { None }),
    {
        self.dragging = false;
        let dx: i128 = x as i128 - self.down_x as i128;
        let dy: i128 = y as i128 - self.down_y as i128;
        assert(0 <= dx * dx <= 0x1_0000_0000_0000_0000 && 0 <= dy * dy <= 0x1_0000_0000_0000_0000) by (nonlinear_arith)
            requires
                -0x1_0000_0000 <= dx <= 0x1_0000_0000,
                -0x1_0000_0000 <= dy <= 0x1_0000_0000,
        ;
        let pick = dx * dx + dy * dy <= CLICK_RADIUS_SQUARED as i128 && !was_dragging_gizmo && !self.down_hit
            && !alt_held && !p_held;
        let start = self.line_start;
        self.line_start = None;
        let slice_from = if p_held {
            start
        } else {
            None
        };
        ReleaseAction { pick, slice_from }
    }

    /// Once per frame: the mode hints follow the "p" (slice) and "Alt"
    /// (erase) keys; a press that was released is done with, and a held
    /// press moves the gizmo drag when one is under way.
    pub fn frame(&mut self, p_held: bool, alt_held: bool, gizmo_dragging: bool) -> (r: FrameAction)
        ensures
            r.slice_mode == hint_change(p_held, old(self).slice_mode_shown),
            r.delete_mode == hint_change(alt_held, old(self).delete_mode_shown),
            r.drag_to == (if old(self).clicked && old(self).dragging && gizmo_dragging {
                Some(ScreenPoint { x: old(self).x, y: old(self).y })
            } else {
                None
            }),
            *final(self) == (PointerState {
                slice_mode_shown: p_held,
                delete_mode_shown: alt_held,
                clicked: old(self).clicked && old(self).dragging,
                ..*old(self)
            }),
    {
        let slice_mode = if p_held && !self.slice_mode_shown {
            Some(true)
        } else if !p_held && self.slice_mode_shown {
            Some(false)
        } else {
            None
        };
        self.slice_mode_shown = p_held;
        let delete_mode = if alt_held && !self.delete_mode_shown {
            Some(true)
        } else if !alt_held && self.delete_mode_shown {
            Some(false)
        } else {
            None
        };
        self.delete_mode_shown = alt_held;
        let mut drag_to: Option<ScreenPoint> = None;
        if self.clicked {
            if !self.dragging {
                self.clicked = false;
            } else if gizmo_dragging {
                drag_to = Some(ScreenPoint { x: self.x, y: self.y });
            }
        }
        FrameAction { slice_mode, delete_mode, drag_to }
    }
}

/// A release where the button went down is a click; one more than six
/// pixels away along an axis is not.
pub proof fn lemma_click_radius(x: i32, y: i32, dx: i32)
    requires
        dx > 6 || dx < -6,
        x + dx >= i32::MIN && x + dx <= i32::MAX,
    ensures
        is_click(x, y, x, y),
        !is_click(x, y, (x + dx) as i32, y),
{
    assert(dx * dx > 36) by (nonlinear_arith)
        requires
            dx > 6 || dx < -6,
    ;
}

/// The click test is the Euclidean disc of radius 6 around the press: a
/// release is a click exactly when its squared distance from the press is
/// at most 36. So it treats both axes alike, and a release more than six
/// pixels away along either axis is no click.
pub proof fn lemma_click_is_disc(x0: i32, y0: i32, x: i32, y: i32)
    ensures
        is_click(x0, y0, x, y) <==> (x - x0) * (x - x0) + (y - y0) * (y - y0) <= 36,
        is_click(x0, y0, x, y) == is_click(y0, x0, y, x),
        is_click(x0, y0, x, y) == is_click(x, y, x0, y0),
        (x - x0 > 6 || x0 - x > 6 || y - y0 > 6 || y0 - y > 6) ==> !is_click(x0, y0, x, y),
        (-4 <= x - x0 <= 4 && -4 <= y - y0 <= 4) ==> is_click(x0, y0, x, y),
{
    let dx = x - x0;
    let dy = y - y0;
    assert(dx * dx >= 0 && dy * dy >= 0) by (nonlinear_arith);
    assert((dx > 6 || dx < -6) ==> dx * dx > 36) by (nonlinear_arith);
    assert((dy > 6 || dy < -6) ==> dy * dy > 36) by (nonlinear_arith);
    assert((-4 <= dx <= 4) ==> dx * dx <= 16) by (nonlinear_arith);
    assert((-4 <= dy <= 4) ==> dy * dy <= 16) by (nonlinear_arith);
    assert((x0 - x) * (x0 - x) == dx * dx) by (nonlinear_arith)
        requires
            dx == x - x0,
    ;
    assert((y0 - y) * (y0 - y) == dy * dy) by (nonlinear_arith)
        requires
            dy == y - y0,
    ;
}

/// After a frame the hints show exactly while their keys are held, and a
/// second frame with the same keys changes no hint.
pub proof fn lemma_hints_follow_keys(shown: bool, held: bool)
    ensures
        hint_change(held, shown) matches Some(v) ==> v == held,
        hint_change(held, shown) is None ==> shown == held,
        hint_change(held, held) is None,
{
}

/// The settings that keys toggle.
#[derive(Debug, Clone, Copy, PartialEq, Eq, Structural)]
pub struct ViewToggles {
    pub show_octtree: bool,
    pub only_show_clicks: bool,
    pub use_octtree_for_splat_removal: bool,
    pub view_individual_splats: bool,
    pub do_sorting: bool,
    pub do_blending: bool,
    pub move_down: bool,
    pub restrict_gizmo_movement: bool,
}

/// One of the toggled settings.
#[derive(Debug, Clone, Copy, PartialEq, Eq, Structural)]
pub enum Toggle {
    ShowOcttree,
    OnlyShowClicks,
    UseOcttreeForSplatRemoval,
    ViewIndividualSplats,
    DoSorting,
    DoBlending,
    MoveDown,
    RestrictGizmoMovement,
}

/// The setting a key toggles: "o", "c", "f", "v", "m", "b", "_", "r".
pub open spec fn spec_toggle_for_key(key: Seq<char>) -> Option<Toggle> {
    if key == "o"@ {
        Some(Toggle::ShowOcttree)
    } else if key == "c"@ {
        Some(Toggle::OnlyShowClicks)
    } else if key == "f"@ {
        Some(Toggle::UseOcttreeForSplatRemoval)
    } else if key == "v"@ {
        Some(Toggle::ViewIndividualSplats)
    } else if key == "m"@ {
        Some(Toggle::DoSorting)
    } else if key == "b"@ {
        Some(Toggle::DoBlending)
    } else if key == "_"@ {
        Some(Toggle::MoveDown)
    } else if key == "r"@ {
        Some(Toggle::RestrictGizmoMovement)
    } else {
        None
    }
}

/// The setting that `key` toggles, if any.
pub fn toggle_for_key(key: &str) -> (r: Option<Toggle>)
    ensures
        r == spec_toggle_for_key(key@),
{
    if str_eq(key, "o") {
        Some(Toggle::ShowOcttree)
    } else if str_eq(key, "c") {
        Some(Toggle::OnlyShowClicks)
    } else if str_eq(key, "f") {
        Some(Toggle::UseOcttreeForSplatRemoval)
    } else if str_eq(key, "v") {
        Some(Toggle::ViewIndividualSplats)
    } else if str_eq(key, "m") {
        Some(Toggle::DoSorting)
    } else if str_eq(key, "b") {
        Some(Toggle::DoBlending)
    } else if str_eq(key, "_") {
        Some(Toggle::MoveDown)
    } else if str_eq(key, "r") {
        Some(Toggle::RestrictGizmoMovement)
    } else {
        None
    }
}

/// `v` with setting `t` flipped.
pub open spec fn spec_toggled(v: ViewToggles, t: Toggle) -> ViewToggles {
    match t {
        Toggle::ShowOcttree => ViewToggles { show_octtree: !v.show_octtree, ..v },
        Toggle::OnlyShowClicks => ViewToggles { only_show_clicks: !v.only_show_clicks, ..v },
        Toggle::UseOcttreeForSplatRemoval => ViewToggles {
            use_octtree_for_splat_removal: !v.use_octtree_for_splat_removal,
            ..v
        },
        Toggle::ViewIndividualSplats => ViewToggles { view_individual_splats: !v.view_individual_splats, ..v },
        Toggle::DoSorting => ViewToggles { do_sorting: !v.do_sorting, ..v },
        Toggle::DoBlending => ViewToggles { do_blending: !v.do_blending, ..v },
        Toggle::MoveDown => ViewToggles { move_down: !v.move_down, ..v },
        Toggle::RestrictGizmoMovement => ViewToggles { restrict_gizmo_movement: !v.restrict_gizmo_movement, ..v },
    }
}

/// The value of setting `t`.
pub open spec fn spec_get(v: ViewToggles, t: Toggle) -> bool {
    match t {
        Toggle::ShowOcttree => v.show_octtree,
        Toggle::OnlyShowClicks => v.only_show_clicks,
        Toggle::UseOcttreeForSplatRemoval => v.use_octtree_for_splat_removal,
        Toggle::ViewIndividualSplats => v.view_individual_splats,
        Toggle::DoSorting => v.do_sorting,
        Toggle::DoBlending => v.do_blending,
        Toggle::MoveDown => v.move_down,
        Toggle::RestrictGizmoMovement => v.restrict_gizmo_movement,
    }
}

impl ViewToggles {
    /// The viewer's start-up settings: octree editing, sorting and blending
    /// on, the rest off.
    pub fn new() -> (r: Self)
        ensures
            r == (ViewToggles {
                show_octtree: false,
                only_show_clicks: false,
                use_octtree_for_splat_removal: true,
                view_individual_splats: false,
                do_sorting: true,
                do_blending: true,
                move_down: false,
                restrict_gizmo_movement: false,
            }),
    {
        ViewToggles {
            show_octtree: false,
            only_show_clicks: false,
            use_octtree_for_splat_removal: true,
            view_individual_splats: false,
            do_sorting: true,
            do_blending: true,
            move_down: false,
            restrict_gizmo_movement: false,
        }
    }

    /// The value of setting `t`.
    pub fn get(&self, t: Toggle) -> (r: bool)
        ensures
            r == spec_get(*self, t),
    {
        match t {
            Toggle::ShowOcttree => self.show_octtree,
            Toggle::OnlyShowClicks => self.only_show_clicks,
            Toggle::UseOcttreeForSplatRemoval => self.use_octtree_for_splat_removal,
            Toggle::ViewIndividualSplats => self.view_individual_splats,
            Toggle::DoSorting => self.do_sorting,
            Toggle::DoBlending => self.do_blending,
            Toggle::MoveDown => self.move_down,
            Toggle::RestrictGizmoMovement => self.restrict_gizmo_movement,
        }
    }

    /// Flips setting `t` and leaves the others.
    pub fn toggle(&mut self, t: Toggle)
        ensures
            *final(self) == spec_toggled(*old(self), t),
    {
        match t {
            Toggle::ShowOcttree => self.show_octtree = !self.show_octtree,
            Toggle::OnlyShowClicks => self.only_show_clicks = !self.only_show_clicks,
            Toggle::UseOcttreeForSplatRemoval => self.use_octtree_for_splat_removal = !self.use_octtree_for_splat_removal,
            Toggle::ViewIndividualSplats => self.view_individual_splats = !self.view_individual_splats,
            Toggle::DoSorting => self.do_sorting = !self.do_sorting,
            Toggle::DoBlending => self.do_blending = !self.do_blending,
            Toggle::MoveDown => self.move_down = !self.move_down,
            Toggle::RestrictGizmoMovement => self.restrict_gizmo_movement = !self.restrict_gizmo_movement,
        }
    }
}

/// Toggling flips exactly the setting toggled, and toggling it again
/// gives the settings back.
pub proof fn lemma_toggle_twice(v: ViewToggles, t: Toggle)
    ensures
        spec_get(spec_toggled(v, t), t) == !spec_get(v, t),
        forall|u: Toggle| u != t ==> spec_get(spec_toggled(v, t), u) == spec_get(v, u),
        spec_toggled(spec_toggled(v, t), t) == v,
{
}

/// The movement keys held: forward "w", back "s", left "a", right "d",
/// down " ", up "Shift"; "Alt" (the eraser) freezes the camera.
#[derive(Debug, Clone, Copy, PartialEq, Eq, Structural)]
pub struct MoveKeys {
    pub forward: bool,
    pub back: bool,
    pub left: bool,
    pub right: bool,
    pub down: bool,
    pub up: bool,
    pub alt: bool,
}

/// `a` counts +1, `b` counts -1.
pub open spec fn step(a: bool, b: bool) -> i8 {
    ((if a { 1int } else { 0int }) - (if b { 1int } else { 0int })) as i8
}

/// Camera-space steps (x, y, z) of one frame: +z forward, +x for "a",
/// +y for "Shift"; keys of opposite directions cancel. None while "Alt"
/// is held: the camera neither moves nor turns then.
pub open spec fn spec_camera_steps(k: MoveKeys) -> Option<(i8, i8, i8)> {
    if k.alt {
        None
    } else {
        Some((step(k.left, k.right), step(k.up, k.down), step(k.forward, k.back)))
    }
}

/// The camera's movement for the keys held.
pub fn camera_steps(k: MoveKeys) -> (r: Option<(i8, i8, i8)>)
    ensures
        r == spec_camera_steps(k),
{
    if k.alt {
        return None;
    }
    let x: i8 = (if k.left { 1i8 } else { 0i8 }) - (if k.right { 1i8 } else { 0i8 });
    let y: i8 = (if k.up { 1i8 } else { 0i8 }) - (if k.down { 1i8 } else { 0i8 });
    let z: i8 = (if k.forward { 1i8 } else { 0i8 }) - (if k.back { 1i8 } else { 0i8 });
    Some((x, y, z))
}

} // verus!
