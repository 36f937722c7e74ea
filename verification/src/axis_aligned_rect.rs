//! Rectangles that lie in a plane perpendicular to one axis.

use vstd::prelude::*;
use crate::aabb::AxisAlignedBoundingBox;
use crate::axis::AxisAlignment;
use crate::point64::Point64;
use crate::scalar::{
    at_most, is_strictly_inside, is_within, strictly_inside, within, Scalar, ONE, ZERO,
};

verus! {

/// A rectangle in the plane where the coordinate along `axis_alignment` is
/// `axis_value`.
///
/// `min` and `max` bound it along the other two axes, taken in the order of
/// the triple (x, y, z): for X they are (y, z), for Y (x, z), for Z (x, y).
/// `material` is the number of its material in the scene's table.
#[derive(Clone, Copy, Debug, PartialEq, Eq)]
pub struct AxisAlignedRect {
    pub material: usize,
    pub min: (Scalar, Scalar),
    pub max: (Scalar, Scalar),
    pub axis_value: Scalar,
    pub axis_alignment: AxisAlignment,
}

impl AxisAlignedRect {
    /// The two axes that span the rectangle's plane, in the order of `min`
    /// and `max`.
    pub open spec fn spanning(self) -> (AxisAlignment, AxisAlignment) {
        match self.axis_alignment {
            AxisAlignment::X => (AxisAlignment::Y, AxisAlignment::Z),
            AxisAlignment::Y => (AxisAlignment::X, AxisAlignment::Z),
            AxisAlignment::Z => (AxisAlignment::X, AxisAlignment::Y),
        }
    }

    /// The point of space with `along` on the rectangle's own axis and `c1`,
    /// `c2` on the axes that span it.
    pub open spec fn place(self, along: Scalar, c1: Scalar, c2: Scalar) -> Point64 {
        match self.axis_alignment {
            AxisAlignment::X => Point64 { x: along, y: c1, z: c2 },
            AxisAlignment::Y => Point64 { x: c1, y: along, z: c2 },
            AxisAlignment::Z => Point64 { x: c1, y: c2, z: along },
        }
    }

    /// Whether the plane point (`c1`, `c2`) lies on the rectangle: at or
    /// beyond `min` and before `max`, on both axes.
    pub open spec fn covers(self, c1: Scalar, c2: Scalar) -> bool {
        within(c1 as int, self.min.0 as int, self.max.0 as int) && within(
            c2 as int,
            self.min.1 as int,
            self.max.1 as int,
        )
    }

    /// The part of space that the rectangle takes up: a box without
    /// thickness.
    pub open spec fn extent(self) -> AxisAlignedBoundingBox {
        self.slice(self.axis_value, self.axis_value)
    }

    /// The box that reaches as far as the rectangle in its plane, and from
    /// `below` to `above` along its own axis.
    pub open spec fn slice(self, below: Scalar, above: Scalar) -> AxisAlignedBoundingBox {
        AxisAlignedBoundingBox {
            minimum: self.place(below, self.min.0, self.min.1),
            maximum: self.place(above, self.max.0, self.max.1),
        }
    }

    /// The normal of the rectangle that counts as pointing outward: the
    /// unit vector along the rectangle's own axis.
    pub fn outward_normal(&self) -> (normal: Point64)
        ensures
            normal == self.place(ONE, ZERO, ZERO),
            normal.reversible(),
    {
        match self.axis_alignment {
            AxisAlignment::X => Point64::new(ONE, ZERO, ZERO),
            AxisAlignment::Y => Point64::new(ZERO, ONE, ZERO),
            AxisAlignment::Z => Point64::new(ZERO, ZERO, ONE),
        }
    }

    /// The two axes that span the rectangle's plane.
    pub fn plane_axes(&self) -> (axes: (AxisAlignment, AxisAlignment))
        ensures
            axes == self.spanning(),
            axes.0 != self.axis_alignment,
            axes.1 != self.axis_alignment,
            axes.0.index() < axes.1.index(),
    {
        match self.axis_alignment {
            AxisAlignment::X => (AxisAlignment::Y, AxisAlignment::Z),
            AxisAlignment::Y => (AxisAlignment::X, AxisAlignment::Z),
            AxisAlignment::Z => (AxisAlignment::X, AxisAlignment::Y),
        }
    }

    /// The rectangle's bounding box. A rectangle has no thickness, so the box
    /// is given some: it reaches from `below` to `above` along the
    /// rectangle's own axis, two values that the caller places a little to
    /// either side of `axis_value`.
    pub fn bounding_box(&self, below: Scalar, above: Scalar) -> (around: Option<
        AxisAlignedBoundingBox,
    >)
        ensures
            around == Some(self.slice(below, above)),
            at_most(below as int, above as int) && at_most(
                self.min.0 as int,
                self.max.0 as int,
            ) && at_most(self.min.1 as int, self.max.1 as int) ==> self.slice(below, above).wf(),
            below <= self.axis_value <= above ==> self.slice(below, above).encloses(self.extent()),
    {
        match self.axis_alignment {
            AxisAlignment::X => Some(
                AxisAlignedBoundingBox {
                    minimum: Point64::new(below, self.min.0, self.min.1),
                    maximum: Point64::new(above, self.max.0, self.max.1),
                },
            ),
            AxisAlignment::Y => Some(
                AxisAlignedBoundingBox {
                    minimum: Point64::new(self.min.0, below, self.min.1),
                    maximum: Point64::new(self.max.0, above, self.max.1),
                },
            ),
            AxisAlignment::Z => Some(
                AxisAlignedBoundingBox {
                    minimum: Point64::new(self.min.0, self.min.1, below),
                    maximum: Point64::new(self.max.0, self.max.1, above),
                },
            ),
        }
    }

    /// Whether a ray that crosses the rectangle's plane at parameter `t`, in
    /// the plane point (`c1`, `c2`), meets the rectangle inside the window:
    /// `t` must lie strictly between `min_value` and `max_value`, and the
    /// point on the rectangle.
    pub fn is_hit_by(
        &self,
        t: Scalar,
        c1: Scalar,
        c2: Scalar,
        min_value: Scalar,
        max_value: Scalar,
    ) -> (hit: bool)
        ensures
            hit == (strictly_inside(t as int, min_value as int, max_value as int) && self.covers(
                c1,
                c2,
            )),
    {
        if !is_strictly_inside(t, min_value, max_value) {
            return false;
        }
        if !is_within(c1, self.min.0, self.max.0) || !is_within(c2, self.min.1, self.max.1) {
            return false;
        }
        true
    }
}

} // verus!
