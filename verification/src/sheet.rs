//! The object-test placement sheet's structure: three orthographic views of
//! the room laid out as a CAD sheet, and the single-axis sliders living in
//! the gutters between them. Which view shows which axes, and which axis each
//! slider drives, is decided here; the geometry is drawn elsewhere.

use vstd::prelude::*;

verus! {

/// The three axes of the space the sheet is drawn in.
#[derive(Clone, Copy, Debug, PartialEq, Eq, Structural)]
pub enum Axis {
    Lateral,
    Depth,
    Height,
}

impl Axis {
    /// The ADM component this room axis corresponds to.
    pub fn adm_index(self) -> (r: usize)
        ensures
            r == match self {
                Axis::Lateral => 0usize,
                Axis::Depth => 1usize,
                Axis::Height => 2usize,
            },
    {
        match self {
            Axis::Lateral => 0,
            Axis::Depth => 1,
            Axis::Height => 2,
        }
    }
}

#[derive(Clone, Copy, Debug, PartialEq, Eq, Structural)]
pub enum FaceId {
    Floor,
    Front,
    Side,
}

/// One of a view's axes, and whether it runs against the screen direction.
#[derive(Clone, Copy, Debug, PartialEq, Eq, Structural)]
pub struct AxisRef {
    pub axis: Axis,
    pub invert: bool,
}

/// Which of a face's two axes carries depth, when one of them does.
#[derive(Clone, Copy, Debug, PartialEq, Eq, Structural)]
pub enum Which {
    H,
    V,
}

/// One view of the sheet.
#[derive(Clone, Copy, Debug)]
pub struct Face {
    pub id: FaceId,
    pub label_key: &'static str,
    pub h: AxisRef,
    pub v: AxisRef,
    /// Depth is the only direction a reader cannot guess, so it is the only
    /// one labelled.
    pub depth_ends: Option<Which>,
}

impl Face {
    pub open spec fn axis_spec(&self, which: Which) -> AxisRef {
        match which {
            Which::H => self.h,
            Which::V => self.v,
        }
    }

    pub fn axis(&self, which: Which) -> (r: AxisRef)
        ensures
            r == self.axis_spec(which),
    {
        match which {
            Which::H => self.h,
            Which::V => self.v,
        }
    }
}

/// The axes of each view: the plan is lateral by depth (depth running up the
/// screen), the front view lateral by height, the side view depth by height.
pub open spec fn face_axes(id: FaceId) -> (AxisRef, AxisRef, Option<Which>) {
    match id {
        FaceId::Floor => (
            AxisRef { axis: Axis::Lateral, invert: false },
            AxisRef { axis: Axis::Depth, invert: true },
            Some(Which::V),
        ),
        FaceId::Front => (
            AxisRef { axis: Axis::Lateral, invert: false },
            AxisRef { axis: Axis::Height, invert: true },
            None,
        ),
        FaceId::Side => (
            AxisRef { axis: Axis::Depth, invert: false },
            AxisRef { axis: Axis::Height, invert: true },
            Some(Which::H),
        ),
    }
}

pub open spec fn face_matches(f: Face) -> bool {
    &&& f.h == face_axes(f.id).0
    &&& f.v == face_axes(f.id).1
    &&& f.depth_ends == face_axes(f.id).2
}

/// The three views: plan, front, side.
pub fn faces() -> (r: [Face; 3])
    ensures
        r@[0].id == FaceId::Floor,
        r@[1].id == FaceId::Front,
        r@[2].id == FaceId::Side,
        r@[0].label_key@ == "objectTest.facePlan"@,
        r@[1].label_key@ == "objectTest.faceFront"@,
        r@[2].label_key@ == "objectTest.faceSide"@,
        forall|i: int| 0 <= i < 3 ==> face_matches(#[trigger] r@[i]),
{
    [
        Face {
            id: FaceId::Floor,
            label_key: "objectTest.facePlan",
            h: AxisRef { axis: Axis::Lateral, invert: false },
            v: AxisRef { axis: Axis::Depth, invert: true },
            depth_ends: Some(Which::V),
        },
        Face {
            id: FaceId::Front,
            label_key: "objectTest.faceFront",
            h: AxisRef { axis: Axis::Lateral, invert: false },
            v: AxisRef { axis: Axis::Height, invert: true },
            depth_ends: None,
        },
        Face {
            id: FaceId::Side,
            label_key: "objectTest.faceSide",
            h: AxisRef { axis: Axis::Depth, invert: false },
            v: AxisRef { axis: Axis::Height, invert: true },
            depth_ends: Some(Which::H),
        },
    ]
}

/// Where a slider lies relative to its view.
#[derive(Clone, Copy, Debug, PartialEq, Eq, Structural)]
pub enum Lane {
    Below,
    Left,
}

/// A single-axis slider: it lies beside the view whose axis it drives and
/// runs parallel to that axis in that view.
#[derive(Clone, Copy, Debug)]
pub struct Slider {
    face: FaceId,
    use_axis: Which,
    lane: Lane,
    pub label_key: &'static str,
}

/// The axis a slider of `face` driving the view's `which` axis moves.
pub open spec fn slider_axis(face: FaceId, which: Which) -> AxisRef {
    match which {
        Which::H => face_axes(face).0,
        Which::V => face_axes(face).1,
    }
}

impl Slider {
    pub closed spec fn face_spec(&self) -> FaceId {
        self.face
    }

    pub closed spec fn use_axis_spec(&self) -> Which {
        self.use_axis
    }

    pub closed spec fn lane_spec(&self) -> Lane {
        self.lane
    }

    pub closed spec fn label_spec(&self) -> Seq<char> {
        self.label_key@
    }

    /// The axis the slider drives: its view's axis along the slider.
    pub fn axis(&self) -> (r: AxisRef)
        ensures
            r == slider_axis(self.face_spec(), self.use_axis_spec()),
    {
        let all = faces();
        let mut i: usize = 0;
        while i < 3
            invariant
                i <= 3,
                forall|k: int| 0 <= k < 3 ==> face_matches(#[trigger] all@[k]),
                all@[0].id == FaceId::Floor,
                all@[1].id == FaceId::Front,
                all@[2].id == FaceId::Side,
                forall|k: int| 0 <= k < i ==> all@[k].id != self.face,
            decreases 3 - i,
        {
            if all[i].id == self.face {
                assert(face_matches(all@[i as int]));
                return all[i].axis(self.use_axis);
            }
            i = i + 1;
        }
        assert(all@[0].id != self.face && all@[1].id != self.face && all@[2].id != self.face);
        all[0].axis(self.use_axis)
    }
}

/// One slider per gutter: lateral below the front view, height left of the
/// front view, and depth twice, below the side view and left of the plan,
/// because two views show it.
pub fn sliders() -> (r: [Slider; 4])
    ensures
        r@[0].face_spec() == FaceId::Front && r@[0].use_axis_spec() == Which::H
            && r@[0].lane_spec() == Lane::Below,
        r@[1].face_spec() == FaceId::Front && r@[1].use_axis_spec() == Which::V
            && r@[1].lane_spec() == Lane::Left,
        r@[2].face_spec() == FaceId::Side && r@[2].use_axis_spec() == Which::H
            && r@[2].lane_spec() == Lane::Below,
        r@[3].face_spec() == FaceId::Floor && r@[3].use_axis_spec() == Which::V
            && r@[3].lane_spec() == Lane::Left,
        r@[0].label_spec() == "objectTest.sliderX"@,
        r@[1].label_spec() == "objectTest.sliderZ"@,
        r@[2].label_spec() == "objectTest.sliderY"@,
        r@[3].label_spec() == "objectTest.sliderY"@,
{
    [
        Slider {
            face: FaceId::Front,
            use_axis: Which::H,
            lane: Lane::Below,
            label_key: "objectTest.sliderX",
        },
        Slider {
            face: FaceId::Front,
            use_axis: Which::V,
            lane: Lane::Left,
            label_key: "objectTest.sliderZ",
        },
        Slider {
            face: FaceId::Side,
            use_axis: Which::H,
            lane: Lane::Below,
            label_key: "objectTest.sliderY",
        },
        Slider {
            face: FaceId::Floor,
            use_axis: Which::V,
            lane: Lane::Left,
            label_key: "objectTest.sliderY",
        },
    ]
}

/// The layout of the sliders: each slider drives an axis that its own view
/// shows, every axis has a slider, and depth, shown by two views, has two.
/// The two depth sliders are the ones sharing the `sliderY` label.
pub proof fn lemma_sliders_cover_the_axes(s: Seq<Slider>)
    requires
        s.len() == 4,
        s[0].face_spec() == FaceId::Front && s[0].use_axis_spec() == Which::H,
        s[1].face_spec() == FaceId::Front && s[1].use_axis_spec() == Which::V,
        s[2].face_spec() == FaceId::Side && s[2].use_axis_spec() == Which::H,
        s[3].face_spec() == FaceId::Floor && s[3].use_axis_spec() == Which::V,
    ensures
        slider_axis(s[0].face_spec(), s[0].use_axis_spec()).axis == Axis::Lateral,
        slider_axis(s[1].face_spec(), s[1].use_axis_spec()).axis == Axis::Height,
        slider_axis(s[2].face_spec(), s[2].use_axis_spec()).axis == Axis::Depth,
        slider_axis(s[3].face_spec(), s[3].use_axis_spec()).axis == Axis::Depth,
{
}

/// What a gesture is locked to for its whole duration.
#[derive(Clone, Copy, Debug, PartialEq, Eq, Structural)]
pub enum Target {
    Face(FaceId),
    /// Index into [`sliders`].
    Slider(usize),
}

} // verus!
