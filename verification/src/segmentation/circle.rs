//! Circles, and what the refinement of a spot gives.
use vstd::prelude::*;
use crate::fixed::{round_div, COORD_MAX};

verus! {

/// A circle: centre and radius, in millionths of a pixel.
#[derive(Debug, Clone, Copy, PartialEq, Eq, Structural)]
pub struct Circle {
    pub x: i64,
    pub y: i64,
    pub radius: i64,
}

impl Circle {
    /// Centre and radius are of a size that the library computes with.
    pub open spec fn wf(&self) -> bool {
        &&& -COORD_MAX <= self.x <= COORD_MAX
        &&& -COORD_MAX <= self.y <= COORD_MAX
        &&& 0 <= 2 * self.radius <= COORD_MAX
    }

    pub fn is_wf(&self) -> (ok: bool)
        ensures
            ok == self.wf(),
    {
        -COORD_MAX <= self.x && self.x <= COORD_MAX && -COORD_MAX <= self.y && self.y <= COORD_MAX
            && 0 <= self.radius && self.radius <= COORD_MAX / 2
    }
}

/// What the refinement of a spot gives: a circle that was fitted to its
/// boundary, or, where no boundary was found, the circle to fall back on.
#[derive(Debug, Clone, Copy, PartialEq, Eq, Structural)]
pub enum Refinement {
    Fitted(Circle),
    Fallback(Circle),
}

impl Refinement {
    pub open spec fn circle(&self) -> Circle {
        match *self {
            Refinement::Fitted(c) => c,
            Refinement::Fallback(c) => c,
        }
    }
}

/// The radius of the circle to fall back on: six tenths of half the pitch.
pub open spec fn default_radius(pitch: int) -> int {
    round_div(3 * pitch, 10)
}

/// The circle to fall back on for a spot at `(x, y)`.
pub open spec fn fallback_circle(x: i64, y: i64, pitch: int) -> Circle {
    Circle { x, y, radius: default_radius(pitch) as i64 }
}

} // verus!
