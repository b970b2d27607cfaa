//! The decisions of a ray's march through the grid.
//!
//! A ray leaves its origin at an angle and crosses the grid one cell border at a
//! time. For each axis the march keeps how far along the ray the next border of
//! that axis lies; it crosses the nearer one, adds that distance to the distance
//! travelled and moves to the tile beyond. It ends at the first tile where a wall
//! stands, or once it has travelled beyond the depth of field.
//!
//! The sums, differences and trigonometry of the march are the caller's. What is
//! decided on their results is decided here: the way an angle is brought into
//! range, the direction of the steps, the border to cross next, and the end.
use crate::binary64::{lemma_unit_patterns, Binary64, MINUS_ONE, ONE};
use crate::tile_map::TileMap;
use crate::vec2::Vec2;
use crate::wall::Wall;
use vstd::prelude::*;

verus! {

/// The bit pattern of the double-precision value of a quarter turn, pi / 2.
pub const QUARTER_TURN: u64 = 0x3FF9_21FB_5444_2D18;

/// The bit pattern of the double-precision value of a half turn, pi.
pub const HALF_TURN: u64 = 0x4009_21FB_5444_2D18;

/// The bit pattern of the double-precision value of three quarter turns, 3 pi / 2.
pub const THREE_QUARTER_TURN: u64 = 0x4012_D97C_7F33_21D2;

/// The bit pattern of the double-precision value of a full turn, 2 pi. The value
/// lies just under the real 2 pi, so the angles above it are those that have
/// reached a full turn.
pub const FULL_TURN: u64 = 0x4019_21FB_5444_2D18;

/// How an angle is brought one step nearer to the range from zero to a full turn.
#[derive(Clone, Copy, Debug, PartialEq, Eq, Structural)]
pub enum Turn {
    /// The angle lies in the range, or is not a number.
    Keep,
    /// The angle is above the range: a full turn is taken off.
    Back,
    /// The angle is below zero: a full turn is added.
    Forward,
}

/// The axis along which a ray crosses its next cell border.
#[derive(Clone, Copy, Debug, PartialEq, Eq, Structural)]
pub enum Axis {
    X,
    Y,
}

/// A ray on its way: the tile it has reached, for each axis the distance along
/// the ray to the next border, and the distance travelled so far.
#[derive(Clone, Copy, Debug)]
pub struct March {
    pub tile: Vec2,
    pub pending: Vec2,
    pub travelled: Binary64,
}

/// The step that brings an angle nearer to the range from zero to a full turn.
pub open spec fn turn_of(angle: Binary64) -> Turn {
    if (Binary64 { bits: FULL_TURN }).below(angle) {
        Turn::Back
    } else if angle.below(Binary64 { bits: 0 }) {
        Turn::Forward
    } else {
        Turn::Keep
    }
}

/// A ray at this angle runs towards smaller `x`: the angle lies between a
/// quarter turn and three quarter turns.
pub open spec fn leftward(angle: Binary64) -> bool {
    (Binary64 { bits: QUARTER_TURN }).below(angle) && angle.below(
        Binary64 { bits: THREE_QUARTER_TURN },
    )
}

/// A ray at this angle runs towards smaller `y`: the angle lies between zero
/// and a half turn.
pub open spec fn upward(angle: Binary64) -> bool {
    (Binary64 { bits: 0 }).below(angle) && angle.below(Binary64 { bits: HALF_TURN })
}

/// No ray is cast to this depth: it is not a number above zero.
pub open spec fn degenerate(depth_of_field: Binary64) -> bool {
    !(Binary64 { bits: 0 }).below(depth_of_field)
}

/// Says how to bring an angle one step nearer to the range from zero to a full
/// turn. The caller adds or takes off the full turn and asks again until the
/// answer is [`Turn::Keep`].
pub fn turn(angle: Binary64) -> (turn: Turn)
    ensures
        turn == turn_of(angle),
{
    if Binary64::from_bits(FULL_TURN).lt(angle) {
        Turn::Back
    } else if angle.lt(Binary64::from_bits(0)) {
        Turn::Forward
    } else {
        Turn::Keep
    }
}

/// The direction of the steps of a ray at an angle in range: on each axis
/// minus one where the ray runs towards smaller coordinates, and one where it
/// does not.
pub fn direction(angle: Binary64) -> (direction: Vec2)
    ensures
        direction.x.bits == (if leftward(angle) { MINUS_ONE } else { ONE }),
        direction.y.bits == (if upward(angle) { MINUS_ONE } else { ONE }),
        direction.x.holds(if leftward(angle) { -1int } else { 1int }),
        direction.y.holds(if upward(angle) { -1int } else { 1int }),
{
    proof {
        lemma_unit_patterns();
    }
    let x = if Binary64::from_bits(QUARTER_TURN).lt(angle) && angle.lt(
        Binary64::from_bits(THREE_QUARTER_TURN),
    ) {
        MINUS_ONE
    } else {
        ONE
    };
    let y = if Binary64::from_bits(0).lt(angle) && angle.lt(Binary64::from_bits(HALF_TURN)) {
        MINUS_ONE
    } else {
        ONE
    };
    Vec2 { x: Binary64::from_bits(x), y: Binary64::from_bits(y) }
}

/// The result of a cast that ends before its first step: for a depth of field
/// that is not above zero, that depth and an empty cell. `None` where the ray
/// is to be marched.
pub fn begin(depth_of_field: Binary64) -> (r: Option<(Binary64, Wall)>)
    ensures
        r == (if degenerate(depth_of_field) {
            Some((depth_of_field, Wall::Empty))
        } else {
            None
        }),
{
    if Binary64::from_bits(0).lt(depth_of_field) {
        None
    } else {
        Some((depth_of_field, Wall::Empty))
    }
}

impl March {
    /// The axis of the nearer border; the x axis where both are equally near.
    pub open spec fn axis_of(self) -> Axis {
        if self.pending.x.at_most(self.pending.y) {
            Axis::X
        } else {
            Axis::Y
        }
    }

    /// What the cast returns once the ray has reached this point, if it ends
    /// here: beyond the depth of field, that depth and an empty cell; else, at a
    /// wall, the distance travelled and the wall. `None` where the march goes on.
    pub open spec fn result(self, map: TileMap, depth_of_field: Binary64) -> Option<
        (Binary64, Wall),
    > {
        if depth_of_field.below(self.travelled) {
            Some((depth_of_field, Wall::Empty))
        } else if map.is_wall(self.tile) {
            Some((self.travelled, map.wall_at(self.tile)))
        } else {
            None
        }
    }

    /// The axis along which the ray crosses its next border.
    pub fn axis(&self) -> (axis: Axis)
        ensures
            axis == self.axis_of(),
    {
        if self.pending.x.le(self.pending.y) {
            Axis::X
        } else {
            Axis::Y
        }
    }

    /// Decides, after a step, whether the cast ends here and with what.
    pub fn check(&self, map: &TileMap, depth_of_field: Binary64) -> (r: Option<(Binary64, Wall)>)
        ensures
            r == self.result(*map, depth_of_field),
    {
        if depth_of_field.lt(self.travelled) {
            Some((depth_of_field, Wall::Empty))
        } else if map.is_wall_at_position(self.tile) {
            Some((self.travelled, map.get_wall_at_position(self.tile)))
        } else {
            None
        }
    }

    /// In a map without walls a ray ends only by running out of depth: wherever
    /// the march stands, the cast either goes on or returns the depth of field
    /// and an empty cell.
    pub proof fn lemma_empty_map_never_hit(self, map: TileMap, depth_of_field: Binary64)
        requires
            map.wf(),
            map.all_empty(),
        ensures
            self.result(map, depth_of_field) is None || self.result(map, depth_of_field) == Some(
                (depth_of_field, Wall::Empty),
            ),
    {
        map.lemma_all_empty_has_no_wall(self.tile);
    }
}

/// What a cast to a depth of field returns for a ray that reaches the given
/// points one after the other: for a depth that is not above zero, that depth
/// and an empty cell; else what the first point gives at which the cast ends.
/// `None` where the ray is still on its way after the last of them.
pub open spec fn cast_result(points: Seq<March>, map: TileMap, depth_of_field: Binary64) -> Option<
    (Binary64, Wall),
>
    decreases points.len(),
{
    if degenerate(depth_of_field) {
        Some((depth_of_field, Wall::Empty))
    } else if points.len() == 0 {
        None
    } else if points.first().result(map, depth_of_field) is Some {
        points.first().result(map, depth_of_field)
    } else {
        cast_result(points.drop_first(), map, depth_of_field)
    }
}

/// In a map without walls every cast that returns, returns the depth of field
/// and an empty cell, whatever the viewpoint, the angle and the depth, and
/// whatever way the ray takes.
pub proof fn lemma_empty_map_casts_run_out(
    points: Seq<March>,
    map: TileMap,
    depth_of_field: Binary64,
)
    requires
        map.wf(),
        map.all_empty(),
    ensures
        cast_result(points, map, depth_of_field) is None || cast_result(
            points,
            map,
            depth_of_field,
        ) == Some((depth_of_field, Wall::Empty)),
    decreases points.len(),
{
    if !degenerate(depth_of_field) && points.len() > 0 {
        points.first().lemma_empty_map_never_hit(map, depth_of_field);
        if points.first().result(map, depth_of_field) is None {
            lemma_empty_map_casts_run_out(points.drop_first(), map, depth_of_field);
        }
    }
}

} // verus!
