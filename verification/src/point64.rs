//! Points and directions in space.

use vstd::prelude::*;
use crate::axis::AxisAlignment;
use crate::scalar::{is_number, magnitude, Scalar, EPSILON};

verus! {

/// A point or a direction: one scalar for each axis.
#[derive(Clone, Copy, Debug, PartialEq, Eq, Structural)]
pub struct Point64 {
    pub x: Scalar,
    pub y: Scalar,
    pub z: Scalar,
}

impl Point64 {
    /// The coordinate along `axis`.
    pub open spec fn along(self, axis: AxisAlignment) -> Scalar {
        match axis {
            AxisAlignment::X => self.x,
            AxisAlignment::Y => self.y,
            AxisAlignment::Z => self.z,
        }
    }

    /// The coordinate in place `index` of the triple (x, y, z).
    pub open spec fn at(self, index: int) -> Scalar {
        if index == 0 {
            self.x
        } else if index == 1 {
            self.y
        } else {
            self.z
        }
    }

    /// Whether the magnitude of every coordinate lies below the tolerance.
    pub open spec fn negligible(self) -> bool {
        &&& magnitude(self.x as int) < EPSILON
        &&& magnitude(self.y as int) < EPSILON
        &&& magnitude(self.z as int) < EPSILON
    }

    /// Whether every coordinate stands for a number.
    pub open spec fn numeric(self) -> bool {
        is_number(self.x) && is_number(self.y) && is_number(self.z)
    }

    /// Whether every coordinate has an opposite (the least integer has none).
    pub open spec fn reversible(self) -> bool {
        self.x > i64::MIN && self.y > i64::MIN && self.z > i64::MIN
    }

    /// The point with every coordinate replaced by its opposite.
    pub open spec fn opposite(self) -> Point64 {
        Point64 { x: (-self.x) as i64, y: (-self.y) as i64, z: (-self.z) as i64 }
    }

    pub fn new(x: Scalar, y: Scalar, z: Scalar) -> (point: Point64)
        ensures
            point == (Point64 { x, y, z }),
    {
        Point64 { x, y, z }
    }

    pub fn x(&self) -> (x: Scalar)
        ensures
            x == self.x,
    {
        self.x
    }

    pub fn y(&self) -> (y: Scalar)
        ensures
            y == self.y,
    {
        self.y
    }

    pub fn z(&self) -> (z: Scalar)
        ensures
            z == self.z,
    {
        self.z
    }

    /// The coordinate along `axis`.
    pub fn coordinate(&self, axis: AxisAlignment) -> (c: Scalar)
        ensures
            c == self.along(axis),
            c == self.at(axis.index()),
    {
        match axis {
            AxisAlignment::X => self.x,
            AxisAlignment::Y => self.y,
            AxisAlignment::Z => self.z,
        }
    }

    /// The coordinate in place `index` of the triple (x, y, z).
    pub fn get(&self, index: usize) -> (c: Scalar)
        requires
            index < 3,
        ensures
            c == self.at(index as int),
    {
        if index == 0 {
            self.x
        } else if index == 1 {
            self.y
        } else {
            self.z
        }
    }

    /// Whether the direction is as good as none: the magnitude of every
    /// coordinate lies below the tolerance.
    pub fn near_zero(&self) -> (negligible: bool)
        ensures
            negligible == self.negligible(),
    {
        -EPSILON < self.x && self.x < EPSILON && -EPSILON < self.y && self.y < EPSILON && -EPSILON
            < self.z && self.z < EPSILON
    }

    /// The opposite direction.
    pub fn neg(self) -> (reversed: Point64)
        requires
            self.reversible(),
        ensures
            reversed == self.opposite(),
            reversed.reversible(),
            reversed.opposite() == self,
    {
        Point64 { x: -self.x, y: -self.y, z: -self.z }
    }
}

} // verus!
