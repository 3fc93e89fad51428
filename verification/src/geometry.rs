//! Fixed-point coordinates and their mathematical model.
//!
//! A coordinate is a whole number of units; the caller fixes the unit (a
//! micrometre, say) and keeps to it. A position holds 32-bit coordinates, so
//! that the difference of two positions, and the difference of two such
//! differences, are exact in 64 bits.

use vstd::prelude::*;

verus! {

/// A point, or a difference of points, with unbounded coordinates: the model
/// over which the detectors are specified.
pub struct Vector {
    pub x: int,
    pub y: int,
    pub z: int,
}

impl Vector {
    /// The origin, and the zero displacement.
    pub open spec fn zero() -> Vector {
        Vector { x: 0, y: 0, z: 0 }
    }

    /// Componentwise difference `self - other`.
    pub open spec fn minus(self, other: Vector) -> Vector {
        Vector { x: self.x - other.x, y: self.y - other.y, z: self.z - other.z }
    }

    /// Componentwise sum `self + other`.
    pub open spec fn plus(self, other: Vector) -> Vector {
        Vector { x: self.x + other.x, y: self.y + other.y, z: self.z + other.z }
    }

    /// Every coordinate `factor` times.
    pub open spec fn times(self, factor: int) -> Vector {
        Vector { x: self.x * factor, y: self.y * factor, z: self.z * factor }
    }

    /// The inner product of two vectors.
    pub open spec fn dot(self, other: Vector) -> int {
        self.x * other.x + self.y * other.y + self.z * other.z
    }

    /// The vector product of two vectors: zero where they are parallel.
    pub open spec fn cross(self, other: Vector) -> Vector {
        Vector {
            x: self.y * other.z - self.z * other.y,
            y: self.z * other.x - self.x * other.z,
            z: self.x * other.y - self.y * other.x,
        }
    }

    /// Every coordinate lies in `[-bound, bound]`.
    pub open spec fn within(self, bound: int) -> bool {
        &&& -bound <= self.x <= bound
        &&& -bound <= self.y <= bound
        &&& -bound <= self.z <= bound
    }
}

/// A world position of a tracked body.
#[derive(Clone, Copy, Debug, PartialEq, Eq, Structural)]
pub struct Position {
    pub x: i32,
    pub y: i32,
    pub z: i32,
}

impl View for Position {
    type V = Vector;

    open spec fn view(&self) -> Vector {
        Vector { x: self.x as int, y: self.y as int, z: self.z as int }
    }
}

/// A difference of positions, or of such differences.
#[derive(Clone, Copy, Debug, PartialEq, Eq, Structural)]
pub struct Displacement {
    pub x: i64,
    pub y: i64,
    pub z: i64,
}

impl View for Displacement {
    type V = Vector;

    open spec fn view(&self) -> Vector {
        Vector { x: self.x as int, y: self.y as int, z: self.z as int }
    }
}

/// The largest magnitude that a coordinate of the difference of two positions
/// can have.
pub open spec fn span() -> int {
    0xffff_ffff
}

impl Position {
    /// The origin.
    pub fn origin() -> (r: Position)
        ensures
            r@ == Vector::zero(),
    {
        Position { x: 0, y: 0, z: 0 }
    }

    /// The displacement that leads from `from` to `self`.
    pub fn since(&self, from: &Position) -> (r: Displacement)
        ensures
            r@ == self@.minus(from@),
            r@.within(span()),
    {
        Displacement {
            x: self.x as i64 - from.x as i64,
            y: self.y as i64 - from.y as i64,
            z: self.z as i64 - from.z as i64,
        }
    }
}

impl Displacement {
    /// The zero displacement.
    pub fn zero() -> (r: Displacement)
        ensures
            r@ == Vector::zero(),
    {
        Displacement { x: 0, y: 0, z: 0 }
    }

    /// The change from `from` to `self`, for two differences of positions.
    pub(crate) fn since(&self, from: &Displacement) -> (r: Displacement)
        requires
            self@.within(span()),
            from@.within(span()),
        ensures
            r@ == self@.minus(from@),
    {
        Displacement { x: self.x - from.x, y: self.y - from.y, z: self.z - from.z }
    }
}

} // verus!
