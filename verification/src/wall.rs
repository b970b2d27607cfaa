//! What a cell of the map holds.
use crate::binary64::Binary64;
use vstd::prelude::*;

verus! {

/// The state of one cell.
#[derive(Clone, Copy, Debug, PartialEq, Eq, Structural)]
pub enum Wall {
    Empty,
    Wall,
}

impl Wall {
    /// The cell that a numeric code stands for: zero for an empty cell, one for a
    /// wall, and no cell for any other code.
    pub open spec fn of_code(code: Binary64) -> Option<Wall> {
        if code.holds(0) {
            Some(Wall::Empty)
        } else if code.holds(1) {
            Some(Wall::Wall)
        } else {
            None
        }
    }

    /// Reads a numeric cell code. Only exactly zero and exactly one are codes.
    pub fn try_from(code: Binary64) -> (r: Result<Wall, ()>)
        ensures
            r is Ok <==> Wall::of_code(code) is Some,
            r matches Ok(wall) ==> Wall::of_code(code) == Some(wall),
    {
        if code.is_zero() {
            Ok(Wall::Empty)
        } else if code.is_one() {
            Ok(Wall::Wall)
        } else {
            Err(())
        }
    }
}

} // verus!
