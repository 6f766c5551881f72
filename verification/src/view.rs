//! View state the panels share: the selection, the trail and object display
//! modes, the coordinate gizmo's arming, the side panels and banners.

use vstd::prelude::*;

verus! {

/// Current selection: at most one of the two is set.
pub struct Selection {
    pub object: Option<String>,
    pub speaker: Option<usize>,
}

/// How object trails are drawn.
#[derive(Clone, Copy, Debug, PartialEq, Eq, Structural)]
pub enum TrailMode {
    Diffuse,
    Line,
}

impl TrailMode {
    pub fn label(self) -> (r: &'static str)
        ensures
            r@ == match self {
                TrailMode::Diffuse => "Diffuse"@,
                TrailMode::Line => "Line"@,
            },
    {
        match self {
            TrailMode::Diffuse => "Diffuse",
            TrailMode::Line => "Line",
        }
    }
}

/// Which coordinate mode the editor is in.
#[derive(Clone, Copy, Debug, Default, PartialEq, Eq, Structural)]
pub enum EditMode {
    #[default]
    Polar,
    Cartesian,
}

/// The gizmo's state, as the editor sets it.
#[derive(Clone, Copy, Debug, Default, PartialEq, Eq, Structural)]
pub struct GizmoState {
    pub mode: EditMode,
    /// Armed by the editor's "3D Edit" button, one mode at a time.
    pub polar_armed: bool,
    pub cartesian_armed: bool,
}

impl GizmoState {
    pub open spec fn armed_spec(&self, wanted: EditMode) -> bool {
        self.mode == wanted && match wanted {
            EditMode::Cartesian => self.cartesian_armed,
            EditMode::Polar => self.polar_armed,
        }
    }

    /// Whether the "3D Edit" toggle of the mode being edited shows as on.
    pub fn is_armed(&self, wanted: EditMode) -> (r: bool)
        ensures
            r == self.armed_spec(wanted),
    {
        self.mode == wanted && match wanted {
            EditMode::Cartesian => self.cartesian_armed,
            EditMode::Polar => self.polar_armed,
        }
    }

    /// A press on the "3D Edit" toggle of `wanted`: the gizmo switches to that
    /// mode, that mode's arming flips, and the other mode is disarmed.
    pub fn press(&mut self, wanted: EditMode)
        ensures
            final(self).mode == wanted,
            final(self).armed_spec(wanted) == !old(self).armed_spec(wanted),
            wanted == EditMode::Cartesian ==> !final(self).polar_armed,
            wanted == EditMode::Polar ==> !final(self).cartesian_armed,
    {
        let armed = self.is_armed(wanted);
        self.mode = wanted;
        match wanted {
            EditMode::Cartesian => {
                self.cartesian_armed = !armed;
                self.polar_armed = false;
            },
            EditMode::Polar => {
                self.polar_armed = !armed;
                self.cartesian_armed = false;
            },
        }
    }
}

/// Only one mode is ever armed: two sets of handles on one target would be
/// two answers to the same question. Whatever the state before, after a
/// press at most one of the two modes is armed.
pub proof fn lemma_one_mode_armed(g: GizmoState, wanted: EditMode, after: GizmoState)
    requires
        after.mode == wanted,
        after.armed_spec(wanted) == !g.armed_spec(wanted),
        wanted == EditMode::Cartesian ==> !after.polar_armed,
        wanted == EditMode::Polar ==> !after.cartesian_armed,
    ensures
        !(after.polar_armed && after.cartesian_armed),
{
}

/// A side panel.
#[derive(Clone, Copy, Debug, PartialEq, Eq, Structural)]
pub enum Side {
    Left,
    Right,
}

/// Severity of a banner row.
#[derive(Clone, Copy, Debug, PartialEq, Eq, Structural)]
pub enum Severity {
    Info,
    Warning,
    Error,
}

/// Texel data to upload: `n³` RGBA half floats, `i + n*(j + n*k)` layout
/// (i = depth/x, j = height/y, k = width/z).
pub struct VolumeData {
    pub n: u32,
    pub texels: Vec<u16>,
}

} // verus!
