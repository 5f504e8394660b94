//! Integer points on the puzzle grid.

use vstd::prelude::*;

verus! {

/// Coordinates are kept well inside the range of `i32`, so that a step in any direction and
/// the differences used by the game never overflow.
pub open spec fn coord_ok(v: int) -> bool {
    -1_000_000_000 <= v <= 1_000_000_000
}

/// A position (or a direction) on the grid.
#[derive(Clone, Copy, Debug, PartialEq, Eq, Hash, Structural)]
pub struct Point {
    pub x: i32,
    pub y: i32,
}

impl Point {
    /// Create a point.
    pub fn new(x: i32, y: i32) -> (p: Point)
        ensures
            p.x == x,
            p.y == y,
    {
        Point { x, y }
    }

    /// The origin.
    pub fn origin() -> (p: Point)
        ensures
            p.x == 0,
            p.y == 0,
    {
        Point { x: 0, y: 0 }
    }

    /// True if both coordinates are in the safe range.
    pub open spec fn in_range(self) -> bool {
        coord_ok(self.x as int) && coord_ok(self.y as int)
    }

    /// The sum of two points.
    pub open spec fn add_spec(self, other: Point) -> Point {
        Point { x: (self.x + other.x) as i32, y: (self.y + other.y) as i32 }
    }

    /// The sum of two points.
    pub fn add(self, other: Point) -> (p: Point)
        requires
            self.in_range(),
            other.in_range(),
        ensures
            p.x == self.x + other.x,
            p.y == self.y + other.y,
            p == self.add_spec(other),
    {
        Point { x: self.x + other.x, y: self.y + other.y }
    }

    /// The point reflected through the origin.
    pub fn neg(self) -> (p: Point)
        requires
            self.in_range(),
        ensures
            p.x == -self.x,
            p.y == -self.y,
    {
        Point { x: -self.x, y: -self.y }
    }
}

} // verus!
