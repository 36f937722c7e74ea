//! Triangles: whether the place where a ray crosses a triangle's plane lies
//! on the triangle.

use vstd::prelude::*;
use crate::scalar::{
    abs_scalar, at_most, is_at_most, is_less, is_strictly_inside, less, magnitude,
    strictly_inside, Scalar, EPSILON, ONE, ZERO,
};

verus! {

/// Where a ray crosses the plane of a triangle, in the triangle's own
/// coordinates.
///
/// `determinant` measures how steeply the ray crosses the plane. `u` and `v`
/// are the weights of the second and third corner at the crossing, `sum` is
/// `u + v`, and `value` is the ray parameter of the crossing.
#[derive(Clone, Copy, Debug, PartialEq, Eq, Structural)]
pub struct Crossing {
    pub determinant: Scalar,
    pub u: Scalar,
    pub v: Scalar,
    pub sum: Scalar,
    pub value: Scalar,
}

impl Crossing {
    /// The ray runs along the plane, or as good as: the determinant is
    /// nearer to nothing than the tolerance.
    pub open spec fn parallel(self) -> bool {
        less(magnitude(self.determinant as int), EPSILON as int)
    }

    /// The crossing lies on the triangle: neither weight is negative, and
    /// together they are no more than 1. Weights that are no numbers lie
    /// nowhere.
    pub open spec fn on_triangle(self) -> bool {
        &&& at_most(ZERO as int, self.u as int)
        &&& at_most(self.u as int, ONE as int)
        &&& at_most(ZERO as int, self.v as int)
        &&& at_most(self.sum as int, ONE as int)
    }

    /// The ray meets the triangle inside the window from `min_value` to
    /// `max_value`, ends excluded.
    pub open spec fn meets(self, min_value: Scalar, max_value: Scalar) -> bool {
        !self.parallel() && self.on_triangle() && strictly_inside(
            self.value as int,
            min_value as int,
            max_value as int,
        )
    }

    /// Whether the ray meets the triangle inside the window.
    pub fn is_hit_by(&self, min_value: Scalar, max_value: Scalar) -> (hit: bool)
        requires
            self.determinant > i64::MIN,
        ensures
            hit == self.meets(min_value, max_value),
    {
        if is_less(abs_scalar(self.determinant), EPSILON) {
            return false;
        }
        if !(is_at_most(ZERO, self.u) && is_at_most(self.u, ONE)) {
            return false;
        }
        if !(is_at_most(ZERO, self.v) && is_at_most(self.sum, ONE)) {
            return false;
        }
        is_strictly_inside(self.value, min_value, max_value)
    }
}

} // verus!
