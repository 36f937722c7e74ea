//! Boxes made of six rectangles.

use vstd::prelude::*;
use crate::aabb::AxisAlignedBoundingBox;
use crate::axis::AxisAlignment;
use crate::axis_aligned_rect::AxisAlignedRect;
use crate::hittable_vec::Scan;
use crate::point64::Point64;
use crate::scalar::Scalar;

verus! {

/// A box between two opposite corners, as the list of its six faces.
pub struct Cuboid {
    pub cuboid_min: Point64,
    pub cuboid_max: Point64,
    pub sides: Vec<AxisAlignedRect>,
}

/// The face of the box between `low` and `high` that is perpendicular to
/// `axis`, on the side of `high` if `far` and on the side of `low` if not.
pub open spec fn face(low: Point64, high: Point64, material: usize, axis: AxisAlignment, far: bool)
    -> AxisAlignedRect {
    let (min, max) = match axis {
        AxisAlignment::X => ((low.y, low.z), (high.y, high.z)),
        AxisAlignment::Y => ((low.x, low.z), (high.x, high.z)),
        AxisAlignment::Z => ((low.x, low.y), (high.x, high.y)),
    };
    AxisAlignedRect {
        material,
        min,
        max,
        axis_value: if far {
            high.along(axis)
        } else {
            low.along(axis)
        },
        axis_alignment: axis,
    }
}

/// The six faces of a box: for x, then y, then z, first the far face and then
/// the near one.
pub open spec fn faces(low: Point64, high: Point64, material: usize) -> Seq<AxisAlignedRect> {
    seq![
        face(low, high, material, AxisAlignment::X, true),
        face(low, high, material, AxisAlignment::X, false),
        face(low, high, material, AxisAlignment::Y, true),
        face(low, high, material, AxisAlignment::Y, false),
        face(low, high, material, AxisAlignment::Z, true),
        face(low, high, material, AxisAlignment::Z, false),
    ]
}

impl Cuboid {
    /// The cuboid has the six faces of the box between its corners.
    pub open spec fn wf(self) -> bool {
        exists|material: usize| self.sides@ == faces(self.cuboid_min, self.cuboid_max, material)
    }

    /// The box between `cuboid_min` and `cuboid_max`, every face of it made
    /// of `material`.
    pub fn new(cuboid_min: Point64, cuboid_max: Point64, material: usize) -> (cuboid: Cuboid)
        ensures
            cuboid.cuboid_min == cuboid_min,
            cuboid.cuboid_max == cuboid_max,
            cuboid.sides@ == faces(cuboid_min, cuboid_max, material),
            cuboid.wf(),
    {
        let sides = vec![
            AxisAlignedRect {
                material,
                min: (cuboid_min.y(), cuboid_min.z()),
                max: (cuboid_max.y(), cuboid_max.z()),
                axis_value: cuboid_max.x(),
                axis_alignment: AxisAlignment::X,
            },
            AxisAlignedRect {
                material,
                min: (cuboid_min.y(), cuboid_min.z()),
                max: (cuboid_max.y(), cuboid_max.z()),
                axis_value: cuboid_min.x(),
                axis_alignment: AxisAlignment::X,
            },
            AxisAlignedRect {
                material,
                min: (cuboid_min.x(), cuboid_min.z()),
                max: (cuboid_max.x(), cuboid_max.z()),
                axis_value: cuboid_max.y(),
                axis_alignment: AxisAlignment::Y,
            },
            AxisAlignedRect {
                material,
                min: (cuboid_min.x(), cuboid_min.z()),
                max: (cuboid_max.x(), cuboid_max.z()),
                axis_value: cuboid_min.y(),
                axis_alignment: AxisAlignment::Y,
            },
            AxisAlignedRect {
                material,
                min: (cuboid_min.x(), cuboid_min.y()),
                max: (cuboid_max.x(), cuboid_max.y()),
                axis_value: cuboid_max.z(),
                axis_alignment: AxisAlignment::Z,
            },
            AxisAlignedRect {
                material,
                min: (cuboid_min.x(), cuboid_min.y()),
                max: (cuboid_max.x(), cuboid_max.y()),
                axis_value: cuboid_min.z(),
                axis_alignment: AxisAlignment::Z,
            },
        ];
        assert(sides@ =~= faces(cuboid_min, cuboid_max, material));
        Cuboid { cuboid_min, cuboid_max, sides }
    }

    /// The box between the cuboid's two corners.
    pub open spec fn outline(self) -> AxisAlignedBoundingBox {
        AxisAlignedBoundingBox { minimum: self.cuboid_min, maximum: self.cuboid_max }
    }

    /// The cuboid's bounding box: the box between its two corners.
    pub fn bounding_box(&self) -> (around: Option<AxisAlignedBoundingBox>)
        ensures
            around == Some(self.outline()),
    {
        Some(AxisAlignedBoundingBox { minimum: self.cuboid_min, maximum: self.cuboid_max })
    }

    /// Starts the search of the faces for the nearest meeting of a ray
    /// strictly between `min_value` and `max_value`. The faces are asked in
    /// the order of `sides`.
    pub fn is_hit_by(&self, min_value: Scalar, max_value: Scalar) -> (scan: Scan)
        ensures
            scan == Scan::start(self.sides@.len() as usize, min_value, max_value),
    {
        Scan::begin(self.sides.len(), min_value, max_value)
    }

    /// A well-formed cuboid has six faces, and each of them lies in the
    /// cuboid's bounding box.
    pub proof fn lemma_faces_lie_in_box(self, side: int)
        requires
            self.wf(),
            self.outline().wf(),
            0 <= side < 6,
        ensures
            self.sides@.len() == 6,
            self.outline().encloses(self.sides@[side].extent()),
    {
    }
}

} // verus!
