//! Points and displacements in the plane, in ticks.
use crate::scalar::{in_world, isqrt, saturate};
use vstd::prelude::*;

verus! {

/// A point or a displacement, each component a number of ticks.
#[derive(Clone, Copy, Debug, PartialEq, Eq, Structural)]
pub struct Vec2 {
    pub x: i64,
    pub y: i64,
}

/// The mathematical value of a `Vec2`: a pair of unbounded integers.
pub struct Vector {
    pub x: int,
    pub y: int,
}

impl View for Vec2 {
    type V = Vector;

    open spec fn view(&self) -> Vector {
        Vector { x: self.x as int, y: self.y as int }
    }
}

impl Vector {
    /// The zero displacement.
    pub open spec fn zero() -> Vector {
        Vector { x: 0, y: 0 }
    }

    /// Component-wise sum.
    pub open spec fn plus(self, other: Vector) -> Vector {
        Vector { x: self.x + other.x, y: self.y + other.y }
    }

    /// Component-wise difference.
    pub open spec fn minus(self, other: Vector) -> Vector {
        Vector { x: self.x - other.x, y: self.y - other.y }
    }

    /// The square of the Euclidean length.
    pub open spec fn length_squared(self) -> int {
        self.x * self.x + self.y * self.y
    }

    /// The Euclidean length, rounded down to a whole tick.
    pub open spec fn length(self) -> int {
        isqrt(self.length_squared())
    }

    /// Whether both components are coordinates inside the world.
    pub open spec fn in_world(self) -> bool {
        in_world(self.x) && in_world(self.y)
    }

    /// Both components saturated at the edge of the world.
    pub open spec fn saturated(self) -> Vector {
        Vector { x: saturate(self.x), y: saturate(self.y) }
    }
}

impl Vec2 {
    /// The vector with the given components.
    pub fn new(x: i64, y: i64) -> (v: Vec2)
        ensures
            v@ == (Vector { x: x as int, y: y as int }),
    {
        Vec2 { x, y }
    }

    /// The zero vector.
    pub fn zero() -> (v: Vec2)
        ensures
            v@ == Vector::zero(),
    {
        Vec2 { x: 0, y: 0 }
    }
}

} // verus!
