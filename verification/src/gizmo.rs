//! The transform gizmo's discrete state: what it points at, which kind of
//! handles it shows, and which axis is being dragged.

use vstd::prelude::*;

verus! {

/// What the gizmo (and the editor selection) points at: a triangle-mesh
/// object or a gaussian-splat object, by index.
#[derive(Debug, Clone, Copy, PartialEq, Eq, Structural)]
pub enum GizmoTarget {
    Mesh(usize),
    Splat(usize),
}

/// Which handles the gizmo shows.
#[derive(Debug, Clone, Copy, PartialEq, Eq, Structural)]
pub enum GizmoMode {
    Translate,
    Rotate,
    Scale,
}

/// A handle of the gizmo.
#[derive(Debug, Clone, Copy, PartialEq, Eq, Structural)]
pub enum GizmoAxis {
    X,
    Y,
    Z,
    /// Center handle: uniform scale.
    Uniform,
}

/// Picking index of each handle (0 = X, 1 = Y, 2 = Z, 3 = center cube).
pub open spec fn axis_index(a: GizmoAxis) -> usize {
    match a {
        GizmoAxis::X => 0,
        GizmoAxis::Y => 1,
        GizmoAxis::Z => 2,
        GizmoAxis::Uniform => 3,
    }
}

/// The handle that picking index `index` names in mode `mode`: the
/// center cube exists only among the scale handles.
pub open spec fn axis_at(mode: GizmoMode, index: u32) -> Option<GizmoAxis> {
    if index == 0 {
        Some(GizmoAxis::X)
    } else if index == 1 {
        Some(GizmoAxis::Y)
    } else if index == 2 {
        Some(GizmoAxis::Z)
    } else if index == 3 && mode == GizmoMode::Scale {
        Some(GizmoAxis::Uniform)
    } else {
        None
    }
}

impl GizmoAxis {
    /// Picking index of this handle.
    pub fn index(&self) -> (r: usize)
        ensures
            r == axis_index(*self),
    {
        match self {
            GizmoAxis::X => 0,
            GizmoAxis::Y => 1,
            GizmoAxis::Z => 2,
            GizmoAxis::Uniform => 3,
        }
    }
}

/// The gizmo's selection and drag state.
pub struct Gizmo {
    pub mode: GizmoMode,
    pub target_object: Option<GizmoTarget>,
    pub is_dragging: bool,
    /// The handle being dragged, while a drag is under way.
    pub drag: Option<GizmoAxis>,
}

impl Gizmo {
    /// A translate gizmo with nothing selected.
    pub fn new() -> (r: Self)
        ensures
            r.mode == GizmoMode::Translate,
            r.target_object is None,
            !r.is_dragging,
            r.drag is None,
    {
        Gizmo { mode: GizmoMode::Translate, target_object: None, is_dragging: false, drag: None }
    }

    /// The handle with picking index `index` among the current mode's
    /// handles.
    pub fn axis_from_pick_index(&self, index: u32) -> (r: Option<GizmoAxis>)
        ensures
            r == axis_at(self.mode, index),
    {
        if index == 0 {
            Some(GizmoAxis::X)
        } else if index == 1 {
            Some(GizmoAxis::Y)
        } else if index == 2 {
            Some(GizmoAxis::Z)
        } else if index == 3 && self.mode == GizmoMode::Scale {
            Some(GizmoAxis::Uniform)
        } else {
            None
        }
    }

    /// Starts dragging `axis` of `target`, when the target's center lies
    /// on screen: `center_projects` says whether it does (its clip-space w
    /// is not within 1e-6 of zero), which the caller finds in floats.
    /// Otherwise the gizmo stays as it is.
    pub fn start_drag(&mut self, axis: GizmoAxis, target: GizmoTarget, center_projects: bool)
        ensures
            center_projects ==> final(self).mode == old(self).mode && final(self).target_object == Some(target)
                && final(self).is_dragging && final(self).drag == Some(axis),
            !center_projects ==> *final(self) == *old(self),
    {
        if !center_projects {
            return;
        }
        self.target_object = Some(target);
        self.is_dragging = true;
        self.drag = Some(axis);
    }

    /// The handle being dragged.
    pub fn drag_axis(&self) -> (r: Option<GizmoAxis>)
        ensures
            r == self.drag,
    {
        self.drag
    }

    /// Ends the drag; the selection stays.
    pub fn end_drag(&mut self)
        ensures
            final(self).mode == old(self).mode,
            final(self).target_object == old(self).target_object,
            !final(self).is_dragging,
            final(self).drag is None,
    {
        self.is_dragging = false;
        self.drag = None;
    }
}

} // verus!
