//! Positions and velocities in fixed point, and the arena they live in.
//!
//! Lengths are counted in thousandths of an arena unit. The machine sees
//! positions quantised to a base unit of half an arena unit.

use vstd::prelude::*;

verus! {

/// Fixed-point steps per arena unit.
pub const SCALE: i64 = 1000;

/// Fixed-point steps per quantum of the machine's input and output.
pub const BASE_UNIT: i64 = 500;

/// A point of the arena, the origin at its centre.
#[derive(Clone, Copy, Debug, PartialEq, Eq, Structural)]
pub struct Position {
    pub x: i64,
    pub y: i64,
}

/// Fixed-point steps per second along each axis.
#[derive(Clone, Copy, Debug, PartialEq, Eq, Structural)]
pub struct Velocity {
    pub x: i128,
    pub y: i128,
}

/// A rectangle of whole arena units centred on the origin.
#[derive(Clone, Copy, Debug, PartialEq, Eq, Structural)]
pub struct Arena {
    pub width: usize,
    pub height: usize,
}

/// The largest arena side, in units: it keeps the number of placement-grid
/// cells, at most `MAX_SIDE * MAX_SIDE`, within a 32-bit `usize`.
pub const MAX_SIDE: usize = 60000;

impl Arena {
    pub open spec fn wf(&self) -> bool {
        &&& 0 < self.width <= MAX_SIDE
        &&& 0 < self.height <= MAX_SIDE
    }

    /// Half the width, in fixed point.
    pub open spec fn half_width(&self) -> int {
        (self.width / 2) as int * SCALE
    }

    /// Half the height, in fixed point.
    pub open spec fn half_height(&self) -> int {
        (self.height / 2) as int * SCALE
    }
}

/// The quantum count of a coordinate, saturating at both ends of `usize`.
pub open spec fn unit_of(val: int) -> int {
    if val < 0 {
        0
    } else if val / BASE_UNIT as int > usize::MAX {
        usize::MAX as int
    } else {
        val / BASE_UNIT as int
    }
}

pub fn convert_to_unit(val: i64) -> (r: usize)
    ensures
        r == unit_of(val as int),
{
    if val < 0 {
        0
    } else {
        let q = (val / BASE_UNIT) as u64;
        if q > usize::MAX as u64 {
            usize::MAX
        } else {
            q as usize
        }
    }
}

pub fn convert_from_unit(unit: usize) -> (r: i128)
    ensures
        r == unit * BASE_UNIT,
{
    (unit as i128) * (BASE_UNIT as i128)
}

pub fn convert_vec2_to_unit(p: Position) -> (r: (usize, usize))
    ensures
        r.0 == unit_of(p.x as int),
        r.1 == unit_of(p.y as int),
{
    (convert_to_unit(p.x), convert_to_unit(p.y))
}

/// Lies on or outside the arena's edge.
pub open spec fn out_of_box(arena: Arena, p: Position) -> bool {
    !(-arena.half_width() < p.x < arena.half_width() && -arena.half_height() < p.y
        < arena.half_height())
}

pub fn is_out_of_box(arena: Arena, p: Position) -> (r: bool)
    requires
        arena.wf(),
    ensures
        r == out_of_box(arena, p),
{
    let max_x = (arena.width / 2) as i64 * SCALE;
    let max_y = (arena.height / 2) as i64 * SCALE;
    !(-max_x < p.x && p.x < max_x && -max_y < p.y && p.y < max_y)
}

} // verus!
