//! Units and coordinates.
//!
//! The board is measured exactly. Time is counted in twelve-thousandths of a
//! second and distance in twelve-millionths of a tile, so that a speed in
//! thousandths of a tile per second times a time is a whole number of distance
//! units. Every rate and every duration of the game is a whole number of these
//! units, so nothing on the board is ever rounded and replaying an input lands
//! in the same place on both ends of the wire.

use vstd::prelude::*;

verus! {

/// Simulation rate. Fixed, and shared by server and client.
pub const TICK_HZ: i64 = 30;

/// Time units in one second.
pub const SECOND: i64 = 12_000;

/// Time units in one millisecond.
pub const MILLISECOND: i64 = 12;

/// One simulation step, a thirtieth of a second.
pub const TICK_DT: i64 = 400;

/// Distance units across one tile: what one tile per second covers in a second.
pub const TILE_UNITS: i64 = 12_000_000;

/// A tile coordinate, or a step between two. `y` grows downward.
#[derive(Debug, Clone, Copy, PartialEq, Eq, Hash, Structural)]
pub struct IVec2 {
    pub x: i32,
    pub y: i32,
}

impl IVec2 {
    #[verifier::allow_in_spec]
    pub fn new(x: i32, y: i32) -> IVec2
        returns
            (IVec2 { x, y }),
    {
        IVec2 { x, y }
    }

    /// The sum of two coordinates. Past the last number it goes on with the first.
    pub open spec fn spec_plus(self, other: IVec2) -> IVec2 {
        IVec2 { x: rolled_over(self.x + other.x), y: rolled_over(self.y + other.y) }
    }

    pub fn plus(self, other: IVec2) -> (sum: IVec2)
        ensures
            sum == self.spec_plus(other),
    {
        IVec2 { x: self.x.wrapping_add(other.x), y: self.y.wrapping_add(other.y) }
    }
}

/// The coordinate a sum of two comes to.
pub open spec fn rolled_over(sum: int) -> i32 {
    if sum > i32::MAX {
        (sum - 0x1_0000_0000) as i32
    } else if sum < i32::MIN {
        (sum + 0x1_0000_0000) as i32
    } else {
        sum as i32
    }
}

/// A point on the board, in distance units.
#[derive(Debug, Clone, Copy, PartialEq, Eq, Hash, Structural)]
pub struct WorldPoint {
    pub x: i64,
    pub y: i64,
}

impl WorldPoint {
    #[verifier::allow_in_spec]
    pub fn new(x: i64, y: i64) -> WorldPoint
        returns
            (WorldPoint { x, y }),
    {
        WorldPoint { x, y }
    }
}

/// How far two integers lie apart.
pub open spec fn gap(a: int, b: int) -> int {
    if a >= b {
        a - b
    } else {
        b - a
    }
}

/// The larger of two integers.
pub open spec fn larger(a: int, b: int) -> int {
    if a >= b {
        a
    } else {
        b
    }
}

/// Chebyshev distance, as a mathematical integer.
pub open spec fn tile_distance(a: IVec2, b: IVec2) -> int {
    larger(gap(a.x as int, b.x as int), gap(a.y as int, b.y as int))
}

/// Chebyshev distance, the natural metric on a grid where diagonal steps do not
/// exist but proximity should still be measured as a square.
pub fn chebyshev(a: IVec2, b: IVec2) -> (d: i32)
    requires
        tile_distance(a, b) <= i32::MAX,
    ensures
        d == tile_distance(a, b),
{
    let dx: i32 = if a.x >= b.x {
        a.x - b.x
    } else {
        b.x - a.x
    };
    let dy: i32 = if a.y >= b.y {
        a.y - b.y
    } else {
        b.y - a.y
    };
    if dx >= dy {
        dx
    } else {
        dy
    }
}

/// Two tiles lie within a distance of each other exactly when both their columns
/// and their rows do.
pub proof fn law_distance_is_a_square(a: IVec2, b: IVec2, d: int)
    ensures
        tile_distance(a, b) <= d <==> -d <= a.x - b.x <= d && -d <= a.y - b.y <= d,
        tile_distance(a, b) == tile_distance(b, a),
        tile_distance(a, b) >= 0,
{
}

} // verus!
