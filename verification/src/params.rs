//! The two parameter types of the slide generator: the movement axis and
//! the animation kind, plus the spec-level step vector and shift formula
//! they induce.

use vstd::prelude::*;
use vstd::string::StringExecFns;

verus! {

/// The direction in which slid content travels, one pixel per output frame.
#[derive(Clone, Copy, Debug, PartialEq, Eq, Structural)]
pub enum Direction {
    Top,
    Left,
    Bottom,
    Right,
}

/// Whether a slide run reveals its source (content arrives in place by the
/// last frame) or hides it (content is in place on the first frame and has
/// fully left by the last).
#[derive(Clone, Copy, Debug, PartialEq, Eq, Structural)]
pub enum SlideAnimation {
    SlideIn,
    SlideOut,
}

impl Direction {
    /// Horizontal component of the unit displacement applied per pixel of
    /// travel.
    pub open spec fn step_dx(self) -> int {
        match self {
            Direction::Top => 0,
            Direction::Left => -1,
            Direction::Bottom => 0,
            Direction::Right => 1,
        }
    }

    /// Vertical component of the unit displacement applied per pixel of
    /// travel.
    pub open spec fn step_dy(self) -> int {
        match self {
            Direction::Top => -1,
            Direction::Left => 0,
            Direction::Bottom => 1,
            Direction::Right => 0,
        }
    }

    pub open spec fn label_spec(self) -> Seq<char> {
        match self {
            Direction::Top => "Top"@,
            Direction::Left => "Left"@,
            Direction::Bottom => "Bottom"@,
            Direction::Right => "Right"@,
        }
    }

    /// A human-readable name for the direction.
    pub fn label(&self) -> (r: String)
        ensures
            r@ == self.label_spec(),
    {
        match self {
            Direction::Top => String::from_str("Top"),
            Direction::Left => String::from_str("Left"),
            Direction::Bottom => String::from_str("Bottom"),
            Direction::Right => String::from_str("Right"),
        }
    }

    /// Every direction, in a fixed order.
    pub fn iter() -> (r: Vec<Direction>)
        ensures
            r@ == seq![Direction::Top, Direction::Left, Direction::Bottom, Direction::Right],
    {
        let mut v: Vec<Direction> = Vec::new();
        v.push(Direction::Top);
        v.push(Direction::Left);
        v.push(Direction::Bottom);
        v.push(Direction::Right);
        proof {
            assert(v@ =~= seq![
                Direction::Top,
                Direction::Left,
                Direction::Bottom,
                Direction::Right,
            ]);
        }
        v
    }
}

impl SlideAnimation {
    /// Travel, in pixels, of the output frame at `offset` within a run of
    /// `len` frames: a slide-in starts fully displaced and arrives by the
    /// last frame, a slide-out starts in place and departs.
    pub open spec fn shift_at(self, len: int, offset: int) -> int {
        match self {
            SlideAnimation::SlideIn => len - offset - 1,
            SlideAnimation::SlideOut => offset,
        }
    }

    pub open spec fn label_spec(self) -> Seq<char> {
        match self {
            SlideAnimation::SlideIn => "Slide in"@,
            SlideAnimation::SlideOut => "Slide out"@,
        }
    }

    /// A human-readable name for the animation kind.
    pub fn label(&self) -> (r: String)
        ensures
            r@ == self.label_spec(),
    {
        match self {
            SlideAnimation::SlideIn => String::from_str("Slide in"),
            SlideAnimation::SlideOut => String::from_str("Slide out"),
        }
    }

    /// Both animation kinds, in a fixed order.
    pub fn iter() -> (r: Vec<SlideAnimation>)
        ensures
            r@ == seq![SlideAnimation::SlideIn, SlideAnimation::SlideOut],
    {
        let mut v: Vec<SlideAnimation> = Vec::new();
        v.push(SlideAnimation::SlideIn);
        v.push(SlideAnimation::SlideOut);
        proof {
            assert(v@ =~= seq![SlideAnimation::SlideIn, SlideAnimation::SlideOut]);
        }
        v
    }
}

} // verus!
