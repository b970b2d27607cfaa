//! Points of the plane.
use crate::binary64::Binary64;
use vstd::prelude::*;

verus! {

/// A point, or a step, of the plane.
#[derive(Clone, Copy, Debug)]
pub struct Vec2 {
    pub x: Binary64,
    pub y: Binary64,
}

impl Vec2 {
    /// The point with the given coordinates.
    pub fn new(x: Binary64, y: Binary64) -> (point: Vec2)
        ensures
            point.x == x,
            point.y == y,
    {
        Vec2 { x, y }
    }
}

} // verus!
