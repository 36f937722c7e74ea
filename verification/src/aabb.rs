//! Axis-aligned bounding boxes: enclosure, union, and the slab test.

use vstd::prelude::*;
use crate::point64::Point64;
use crate::scalar::{
    at_most, greater, is_at_most, is_less, is_number, less, lesser, max_scalar, min_scalar,
    number, Scalar, INFINITY,
};

verus! {

/// Where a ray crosses the two planes that bound a box along one axis.
///
/// `t0` is the ray parameter at the plane of the box's minimum, `t1` the one
/// at the plane of its maximum, and `inverse_direction` is 1 divided by the
/// ray's direction along the axis. A ray that runs along the planes has its
/// crossings at infinity, and one that runs in one of the planes has a
/// crossing that is no number; such a crossing sets no bound.
#[derive(Clone, Copy, Debug, PartialEq, Eq, Structural)]
pub struct Slab {
    pub t0: Scalar,
    pub t1: Scalar,
    pub inverse_direction: Scalar,
}

impl Slab {
    /// The ray runs against the axis, so that it meets the plane of the
    /// maximum first: the inverse of its direction is less than nothing.
    pub open spec fn reversed(self) -> bool {
        less(self.inverse_direction as int, 0)
    }

    /// The parameter at which the ray enters the slab.
    pub open spec fn enter(self) -> int {
        if self.reversed() {
            self.t1 as int
        } else {
            self.t0 as int
        }
    }

    /// The parameter at which the ray leaves the slab.
    pub open spec fn leave(self) -> int {
        if self.reversed() {
            self.t0 as int
        } else {
            self.t1 as int
        }
    }
}

/// Where a ray crosses the six planes that bound a box: one slab for each
/// axis.
#[derive(Clone, Copy, Debug, PartialEq, Eq, Structural)]
pub struct Slabs {
    pub x: Slab,
    pub y: Slab,
    pub z: Slab,
}

impl Slabs {
    /// The latest of the window's start and the three entries.
    pub open spec fn latest_entry(self, t_min: int) -> int {
        greater(greater(greater(t_min, self.x.enter()), self.y.enter()), self.z.enter())
    }

    /// The earliest of the window's end and the three exits.
    pub open spec fn earliest_exit(self, t_max: int) -> int {
        lesser(lesser(lesser(t_max, self.x.leave()), self.y.leave()), self.z.leave())
    }

    /// The slab test in closed form: the ray is inside all three slabs and
    /// inside the window over a stretch that is not empty.
    pub open spec fn intersect(self, t_min: int, t_max: int) -> bool {
        self.latest_entry(t_min) < self.earliest_exit(t_max)
    }

    /// The slab test, axis by axis: the window is cut down to the part of it
    /// inside the slab of x, then of y, then of z, and after no cut is its
    /// end known to be at or before its start. With a window between two
    /// numbers this is the test in closed form.
    pub open spec fn overlap(self, t_min: int, t_max: int) -> bool {
        let after_x = (greater(t_min, self.x.enter()), lesser(t_max, self.x.leave()));
        let after_y = (greater(after_x.0, self.y.enter()), lesser(after_x.1, self.y.leave()));
        let after_z = (greater(after_y.0, self.z.enter()), lesser(after_y.1, self.z.leave()));
        &&& !at_most(after_x.1, after_x.0)
        &&& !at_most(after_y.1, after_y.0)
        &&& !at_most(after_z.1, after_z.0)
    }

    /// With a window between two numbers, the test axis by axis and the test
    /// in closed form agree.
    pub proof fn lemma_overlap_is_intersection(self, t_min: int, t_max: int)
        requires
            -INFINITY <= t_min <= INFINITY,
            -INFINITY <= t_max <= INFINITY,
        ensures
            self.overlap(t_min, t_max) == self.intersect(t_min, t_max),
    {
    }
}

/// A box with faces parallel to the coordinate planes, given by two opposite
/// corners.
#[derive(Clone, Copy, Debug, PartialEq, Eq, Structural)]
pub struct AxisAlignedBoundingBox {
    pub minimum: Point64,
    pub maximum: Point64,
}

impl AxisAlignedBoundingBox {
    /// Every coordinate is a number, and the minimum corner is nowhere
    /// beyond the maximum corner.
    pub open spec fn wf(self) -> bool {
        &&& at_most(self.minimum.x as int, self.maximum.x as int)
        &&& at_most(self.minimum.y as int, self.maximum.y as int)
        &&& at_most(self.minimum.z as int, self.maximum.z as int)
    }

    /// Every coordinate of the two corners stands for a number.
    pub open spec fn numeric(self) -> bool {
        self.minimum.numeric() && self.maximum.numeric()
    }

    /// Whether `point` lies in the box, faces included.
    pub open spec fn contains(self, point: Point64) -> bool {
        &&& self.minimum.x <= point.x <= self.maximum.x
        &&& self.minimum.y <= point.y <= self.maximum.y
        &&& self.minimum.z <= point.z <= self.maximum.z
    }

    /// Whether all of `inner` lies in the box.
    pub open spec fn encloses(self, inner: AxisAlignedBoundingBox) -> bool {
        &&& self.minimum.x <= inner.minimum.x && inner.maximum.x <= self.maximum.x
        &&& self.minimum.y <= inner.minimum.y && inner.maximum.y <= self.maximum.y
        &&& self.minimum.z <= inner.minimum.z && inner.maximum.z <= self.maximum.z
    }

    /// The smallest box around both boxes: on each axis the lesser of the
    /// minima and the greater of the maxima. A coordinate that is no number
    /// gives way to the other box's.
    pub open spec fn union(self, other: AxisAlignedBoundingBox) -> AxisAlignedBoundingBox {
        AxisAlignedBoundingBox {
            minimum: Point64 {
                x: lesser(self.minimum.x as int, other.minimum.x as int) as i64,
                y: lesser(self.minimum.y as int, other.minimum.y as int) as i64,
                z: lesser(self.minimum.z as int, other.minimum.z as int) as i64,
            },
            maximum: Point64 {
                x: greater(self.maximum.x as int, other.maximum.x as int) as i64,
                y: greater(self.maximum.y as int, other.maximum.y as int) as i64,
                z: greater(self.maximum.z as int, other.maximum.z as int) as i64,
            },
        }
    }

    /// Whether every coordinate of the two corners stands for a number.
    pub fn is_numeric(&self) -> (numeric: bool)
        ensures
            numeric == self.numeric(),
    {
        number(self.minimum.x) && number(self.minimum.y) && number(self.minimum.z) && number(
            self.maximum.x,
        ) && number(self.maximum.y) && number(self.maximum.z)
    }

    /// The smallest box around this box and `other`.
    pub fn surrounding_box_with(self, other: &AxisAlignedBoundingBox) -> (around:
        AxisAlignedBoundingBox)
        ensures
            around == self.union(*other),
    {
        AxisAlignedBoundingBox {
            minimum: Point64 {
                x: min_scalar(self.minimum.x, other.minimum.x),
                y: min_scalar(self.minimum.y, other.minimum.y),
                z: min_scalar(self.minimum.z, other.minimum.z),
            },
            maximum: Point64 {
                x: max_scalar(self.maximum.x, other.maximum.x),
                y: max_scalar(self.maximum.y, other.maximum.y),
                z: max_scalar(self.maximum.z, other.maximum.z),
            },
        }
    }

    /// The slab test: whether a ray is inside the box somewhere within the
    /// window from `t_min` to `t_max`, ends excluded.
    ///
    /// `slabs` holds the ray's crossings of the box's three pairs of planes.
    /// The window is narrowed axis by axis, and the test gives up as soon as
    /// nothing is left of it. With a window between two numbers the answer
    /// is that of the test in closed form, which intersects the three slabs
    /// and the window all at once.
    pub fn is_hit_by(slabs: &Slabs, t_min: Scalar, t_max: Scalar) -> (hit: bool)
        ensures
            hit == slabs.overlap(t_min as int, t_max as int),
            is_number(t_min) && is_number(t_max) ==> hit == slabs.intersect(
                t_min as int,
                t_max as int,
            ),
    {
        proof {
            if is_number(t_min) && is_number(t_max) {
                slabs.lemma_overlap_is_intersection(t_min as int, t_max as int);
            }
        }
        let (low, high): (Scalar, Scalar) = narrow(slabs.x, t_min, t_max);
        if is_at_most(high, low) {
            return false;
        }
        let (low, high): (Scalar, Scalar) = narrow(slabs.y, low, high);
        if is_at_most(high, low) {
            return false;
        }
        let (low, high): (Scalar, Scalar) = narrow(slabs.z, low, high);
        !is_at_most(high, low)
    }

    /// The eight corners of the box. Corner `4 i + 2 j + k` takes its x from
    /// the maximum corner if `i` is 1 and from the minimum corner if `i` is 0,
    /// and likewise its y by `j` and its z by `k`.
    pub fn corners(&self) -> (corners: [Point64; 8])
        ensures
            forall|i: int, j: int, k: int|
                0 <= i < 2 && 0 <= j < 2 && 0 <= k < 2 ==> #[trigger] corners[4 * i + 2 * j + k]
                    == self.corner(i, j, k),
    {
        let low = self.minimum;
        let high = self.maximum;
        let corners = [
            Point64 { x: low.x, y: low.y, z: low.z },
            Point64 { x: low.x, y: low.y, z: high.z },
            Point64 { x: low.x, y: high.y, z: low.z },
            Point64 { x: low.x, y: high.y, z: high.z },
            Point64 { x: high.x, y: low.y, z: low.z },
            Point64 { x: high.x, y: low.y, z: high.z },
            Point64 { x: high.x, y: high.y, z: low.z },
            Point64 { x: high.x, y: high.y, z: high.z },
        ];
        assert forall|i: int, j: int, k: int|
            0 <= i < 2 && 0 <= j < 2 && 0 <= k < 2 implies #[trigger] corners[4 * i + 2 * j + k]
                == self.corner(i, j, k) by {
            let n = 4 * i + 2 * j + k;
            assert(n == 0 || n == 1 || n == 2 || n == 3 || n == 4 || n == 5 || n == 6 || n == 7);
        }
        corners
    }

    /// The corner picked by three choices between minimum (0) and maximum (1).
    pub open spec fn corner(self, i: int, j: int, k: int) -> Point64 {
        Point64 {
            x: if i == 1 {
                self.maximum.x
            } else {
                self.minimum.x
            },
            y: if j == 1 {
                self.maximum.y
            } else {
                self.minimum.y
            },
            z: if k == 1 {
                self.maximum.z
            } else {
                self.minimum.z
            },
        }
    }

    /// The box that is nothing but `point`.
    pub open spec fn about(point: Point64) -> AxisAlignedBoundingBox {
        AxisAlignedBoundingBox { minimum: point, maximum: point }
    }

    /// The union of the boxes about each of the `points`, taken in turn.
    pub open spec fn enclosure(points: Seq<Point64>) -> AxisAlignedBoundingBox
        decreases points.len(),
    {
        if points.len() <= 1 {
            Self::about(points[0])
        } else {
            Self::enclosure(points.drop_last()).union(Self::about(points.last()))
        }
    }

    /// Every one of the `points` has numbers for coordinates.
    pub open spec fn all_numeric(points: Seq<Point64>) -> bool {
        forall|n: int| 0 <= n < points.len() ==> (#[trigger] points[n]).numeric()
    }

    /// The smallest box that contains all the `points`, of which there must
    /// be at least one: on every axis it reaches from the least coordinate
    /// among them to the greatest. Coordinates that are no numbers are left
    /// out of account where there are numbers beside them.
    pub fn enclosing(points: &[Point64]) -> (around: AxisAlignedBoundingBox)
        requires
            points@.len() > 0,
        ensures
            around == Self::enclosure(points@),
            Self::all_numeric(points@) ==> {
                &&& around.wf()
                &&& forall|n: int| 0 <= n < points@.len() ==> around.contains(#[trigger] points@[n])
                &&& exists|n: int|
                    0 <= n < points@.len() && (#[trigger] points@[n]).x == around.minimum.x
                &&& exists|n: int|
                    0 <= n < points@.len() && (#[trigger] points@[n]).y == around.minimum.y
                &&& exists|n: int|
                    0 <= n < points@.len() && (#[trigger] points@[n]).z == around.minimum.z
                &&& exists|n: int|
                    0 <= n < points@.len() && (#[trigger] points@[n]).x == around.maximum.x
                &&& exists|n: int|
                    0 <= n < points@.len() && (#[trigger] points@[n]).y == around.maximum.y
                &&& exists|n: int|
                    0 <= n < points@.len() && (#[trigger] points@[n]).z == around.maximum.z
            },
    {
        let first = points[0];
        let mut around = AxisAlignedBoundingBox { minimum: first, maximum: first };
        let mut done: usize = 1;
        let ghost numbers = Self::all_numeric(points@);
        proof {
            assert(points@.take(1).len() == 1 && points@.take(1)[0] == first);
            if numbers {
                assert(points@[0].numeric());
            }
        }
        while done < points.len()
            invariant
                1 <= done <= points@.len(),
                numbers == Self::all_numeric(points@),
                around == Self::enclosure(points@.take(done as int)),
                numbers ==> around.wf(),
                numbers ==> forall|n: int| 0 <= n < done ==> around.contains(#[trigger] points@[n]),
                numbers ==> exists|n: int|
                    0 <= n < done && (#[trigger] points@[n]).x == around.minimum.x,
                numbers ==> exists|n: int|
                    0 <= n < done && (#[trigger] points@[n]).y == around.minimum.y,
                numbers ==> exists|n: int|
                    0 <= n < done && (#[trigger] points@[n]).z == around.minimum.z,
                numbers ==> exists|n: int|
                    0 <= n < done && (#[trigger] points@[n]).x == around.maximum.x,
                numbers ==> exists|n: int|
                    0 <= n < done && (#[trigger] points@[n]).y == around.maximum.y,
                numbers ==> exists|n: int|
                    0 <= n < done && (#[trigger] points@[n]).z == around.maximum.z,
            decreases points@.len() - done,
        {
            let point = points[done];
            let ghost before = around;
            around = around.surrounding_box_with(&AxisAlignedBoundingBox {
                minimum: point,
                maximum: point,
            });
            proof {
                let ghost k = done as int;
                let ghost all = points@;
                assert(all[k] == point);
                let ghost upto = all.take(k + 1);
                assert(upto.drop_last() =~= all.take(k));
                assert(upto.last() == point);
                if numbers {
                    assert(all[k].numeric());
                    let ax = choose|n: int| 0 <= n < done && (#[trigger] all[n]).x == before.minimum.x;
                    let ay = choose|n: int| 0 <= n < done && (#[trigger] all[n]).y == before.minimum.y;
                    let az = choose|n: int| 0 <= n < done && (#[trigger] all[n]).z == before.minimum.z;
                    let bx = choose|n: int| 0 <= n < done && (#[trigger] all[n]).x == before.maximum.x;
                    let by = choose|n: int| 0 <= n < done && (#[trigger] all[n]).y == before.maximum.y;
                    let bz = choose|n: int| 0 <= n < done && (#[trigger] all[n]).z == before.maximum.z;
                    assert(all[if point.x < before.minimum.x { k } else { ax }].x == around.minimum.x);
                    assert(all[if point.y < before.minimum.y { k } else { ay }].y == around.minimum.y);
                    assert(all[if point.z < before.minimum.z { k } else { az }].z == around.minimum.z);
                    assert(all[if before.maximum.x < point.x { k } else { bx }].x == around.maximum.x);
                    assert(all[if before.maximum.y < point.y { k } else { by }].y == around.maximum.y);
                    assert(all[if before.maximum.z < point.z { k } else { bz }].z == around.maximum.z);
                    assert forall|n: int| 0 <= n < done + 1 implies around.contains(
                        #[trigger] all[n],
                    ) by {
                        if n < done {
                            assert(before.contains(all[n]));
                        }
                    }
                }
            }
            done = done + 1;
        }
        assert(points@.take(done as int) =~= points@);
        around
    }

    /// The union of two boxes is again a box, it contains both, and every
    /// box that contains both contains it.
    pub proof fn lemma_union_is_least(self, other: AxisAlignedBoundingBox, any:
        AxisAlignedBoundingBox)
        requires
            self.wf(),
            other.wf(),
        ensures
            self.union(other).wf(),
            self.union(other).encloses(self),
            self.union(other).encloses(other),
            any.encloses(self) && any.encloses(other) ==> any.encloses(self.union(other)),
            self.union(other) == other.union(self),
    {
    }
}

/// One step of the slab test: the window from `low` to `high`, cut down to
/// the part of it that lies inside `slab`.
pub fn narrow(slab: Slab, low: Scalar, high: Scalar) -> (window: (Scalar, Scalar))
    ensures
        window.0 == greater(low as int, slab.enter()),
        window.1 == lesser(high as int, slab.leave()),
{
    let (entry, exit): (Scalar, Scalar) = if is_less(slab.inverse_direction, 0) {
        (slab.t1, slab.t0)
    } else {
        (slab.t0, slab.t1)
    };
    (max_scalar(low, entry), min_scalar(high, exit))
}

} // verus!
