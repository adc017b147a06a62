//! The path of the demonstration: a shape that travels along a row of the
//! panel and turns round at either end.
//!
//! Only the decisions live here. Drawing the shape and pausing between
//! frames is the caller's part: it asks for the next position, draws there
//! and presents the frame.

use vstd::prelude::*;
use crate::frame::on_panel;
use crate::geometry::Point;

verus! {

/// The leftmost position of the path: here the shape turns to the right.
pub const LEFT_TURN: i32 = 1;

/// The rightmost position of the path: here the shape turns to the left.
pub const RIGHT_TURN: i32 = 10;

/// The row of the panel in which the top edge of the shape lies.
pub const SHAPE_TOP: i32 = 4;

/// The width and the height of the shape in pixels.
pub const SHAPE_SIZE: u32 = 5;

/// Whether `point` lies in the square that holds the shape when its left
/// edge is at `position`.
pub open spec fn in_shape(position: int, point: Point) -> bool {
    &&& position <= point.x < position + SHAPE_SIZE
    &&& SHAPE_TOP <= point.y < SHAPE_TOP + SHAPE_SIZE
}

/// Whether `state`, a position and a step, lies on the path: the position
/// between the two turns, the step one pixel to either side.
pub open spec fn on_course(state: (int, int)) -> bool {
    LEFT_TURN <= state.0 <= RIGHT_TURN && (state.1 == 1 || state.1 == -1)
}

/// The step taken from `state`: to the right at or before the left turn, to
/// the left at or beyond the right turn, and as before in between.
pub open spec fn next_step(state: (int, int)) -> int {
    if state.0 <= LEFT_TURN {
        1
    } else if state.0 >= RIGHT_TURN {
        -1
    } else {
        state.1
    }
}

/// The state that follows `state`: one step further along the path.
pub open spec fn advanced(state: (int, int)) -> (int, int) {
    (state.0 + next_step(state), next_step(state))
}

/// A state on the path is followed by a state on the path.
pub proof fn lemma_advanced_stays_on_course(state: (int, int))
    requires
        on_course(state),
    ensures
        on_course(advanced(state)),
{
}

/// Anywhere on the path the whole shape lies on the panel, so that drawing
/// it rejects no pixel.
pub proof fn lemma_shape_stays_on_panel(state: (int, int), point: Point)
    requires
        on_course(state),
        in_shape(state.0, point),
    ensures
        on_panel(point),
{
}

/// Where the shape is and which way it is heading.
#[derive(Clone, Copy, Debug)]
pub struct Bounce {
    position: i32,
    step: i32,
}

impl View for Bounce {
    type V = (int, int);

    /// The position and the step, as integers.
    closed spec fn view(&self) -> (int, int) {
        (self.position as int, self.step as int)
    }
}

impl Bounce {
    #[verifier::type_invariant]
    spec fn stays_on_course(self) -> bool {
        on_course(self@)
    }

    /// The start of the path: at the left turn, heading right.
    pub fn new() -> (bounce: Self)
        ensures
            bounce@ == (LEFT_TURN as int, 1int),
            on_course(bounce@),
    {
        Bounce { position: LEFT_TURN, step: 1 }
    }

    /// The current position, which never leaves the path.
    pub fn position(&self) -> (position: i32)
        ensures
            position == self@.0,
            on_course(self@),
    {
        proof {
            use_type_invariant(self);
        }
        self.position
    }

    /// The top-left corner of the square that holds the shape.
    pub fn anchor(&self) -> (corner: Point)
        ensures
            corner == (Point { x: self@.0 as i32, y: SHAPE_TOP }),
            in_shape(self@.0, corner),
            on_course(self@),
    {
        proof {
            use_type_invariant(self);
        }
        Point::new(self.position, SHAPE_TOP)
    }

    /// Takes one step and gives the position reached, where the next frame
    /// shows the shape.
    pub fn advance(&mut self) -> (position: i32)
        ensures
            final(self)@ == advanced(old(self)@),
            on_course(final(self)@),
            position == final(self)@.0,
    {
        proof {
            use_type_invariant(&*self);
        }
        if self.position <= LEFT_TURN {
            self.step = 1;
        } else if self.position >= RIGHT_TURN {
            self.step = -1;
        }
        self.position = self.position + self.step;
        self.position
    }
}

} // verus!
