use pathtracer::aabb::{AxisAlignedBoundingBox, Slab, Slabs};
use pathtracer::axis::AxisAlignment;
use pathtracer::point64::Point64;

fn slabs(x: Slab, y: Slab, z: Slab) -> Slabs {
    Slabs { x, y, z }
}

fn cube(low: i64, high: i64) -> AxisAlignedBoundingBox {
    AxisAlignedBoundingBox {
        minimum: Point64::new(low, low, low),
        maximum: Point64::new(high, high, high),
    }
}

#[test]
fn axes_are_numbered_in_order() {
    assert_eq!(AxisAlignment::X.to_usize(), 0);
    assert_eq!(AxisAlignment::Y.to_usize(), 1);
    assert_eq!(AxisAlignment::Z.to_usize(), 2);
}

#[test]
fn union_takes_least_minimum_and_greatest_maximum() {
    let a = AxisAlignedBoundingBox {
        minimum: Point64::new(0, 5, -3),
        maximum: Point64::new(4, 9, 0),
    };
    let b = AxisAlignedBoundingBox {
        minimum: Point64::new(-2, 6, -1),
        maximum: Point64::new(3, 12, 7),
    };
    let around = a.surrounding_box_with(&b);
    assert_eq!(around.minimum, Point64::new(-2, 5, -3));
    assert_eq!(around.maximum, Point64::new(4, 12, 7));
    assert_eq!(b.surrounding_box_with(&a), around);
    assert_eq!(a.surrounding_box_with(&a), a);
}

#[test]
fn slab_test_accepts_a_ray_through_the_box() {
    let s = Slab { t0: 2, t1: 6, inverse_direction: 1 };
    assert!(AxisAlignedBoundingBox::is_hit_by(&slabs(s, s, s), 0, 100));
    assert!(AxisAlignedBoundingBox::is_hit_by(&slabs(s, s, s), 5, 100));
    assert!(!AxisAlignedBoundingBox::is_hit_by(&slabs(s, s, s), 6, 100));
    assert!(!AxisAlignedBoundingBox::is_hit_by(&slabs(s, s, s), 0, 2));
}

#[test]
fn slab_test_swaps_crossings_of_a_reversed_ray() {
    let forward = Slab { t0: 2, t1: 6, inverse_direction: 1 };
    let backward = Slab { t0: 6, t1: 2, inverse_direction: -1 };
    assert!(AxisAlignedBoundingBox::is_hit_by(&slabs(forward, backward, forward), 0, 100));
    let unswapped = Slab { t0: 6, t1: 2, inverse_direction: 1 };
    assert!(!AxisAlignedBoundingBox::is_hit_by(&slabs(forward, unswapped, forward), 0, 100));
}

#[test]
fn slab_test_needs_one_stretch_common_to_all_axes() {
    let early = Slab { t0: 1, t1: 3, inverse_direction: 1 };
    let late = Slab { t0: 4, t1: 8, inverse_direction: 1 };
    let wide = Slab { t0: 0, t1: 10, inverse_direction: 1 };
    assert!(!AxisAlignedBoundingBox::is_hit_by(&slabs(early, late, wide), 0, 100));
    assert!(!AxisAlignedBoundingBox::is_hit_by(&slabs(wide, early, late), 0, 100));
    assert!(AxisAlignedBoundingBox::is_hit_by(&slabs(wide, wide, late), 0, 100));
    let touching = Slab { t0: 3, t1: 5, inverse_direction: 1 };
    assert!(!AxisAlignedBoundingBox::is_hit_by(&slabs(early, touching, wide), 0, 100));
}

#[test]
fn corners_are_listed_with_z_changing_fastest() {
    let b = AxisAlignedBoundingBox {
        minimum: Point64::new(1, 2, 3),
        maximum: Point64::new(10, 20, 30),
    };
    let c = b.corners();
    assert_eq!(c[0], Point64::new(1, 2, 3));
    assert_eq!(c[1], Point64::new(1, 2, 30));
    assert_eq!(c[2], Point64::new(1, 20, 3));
    assert_eq!(c[4], Point64::new(10, 2, 3));
    assert_eq!(c[7], Point64::new(10, 20, 30));
}

#[test]
fn enclosing_box_of_three_points_reaches_the_least_and_the_greatest() {
    let points = [Point64::new(0, 10, 0), Point64::new(-10, 0, 0), Point64::new(10, 0, -3)];
    let around = AxisAlignedBoundingBox::enclosing(&points);
    assert_eq!(around.minimum, Point64::new(-10, 0, -3));
    assert_eq!(around.maximum, Point64::new(10, 10, 0));
    let single = AxisAlignedBoundingBox::enclosing(&points[..1]);
    assert_eq!((single.minimum, single.maximum), (points[0], points[0]));
}

#[test]
fn a_coordinate_that_is_no_number_gives_way_in_a_union() {
    let nan: i64 = 0x7FF8_0000_0000_0000;
    let mut marred = cube(0, 1);
    marred.minimum.x = nan;
    marred.maximum.z = -nan;
    let around = marred.surrounding_box_with(&cube(-4, 9));
    assert_eq!(around, cube(-4, 9));
    let kept = cube(-4, 9).surrounding_box_with(&marred);
    assert_eq!(kept, cube(-4, 9));
    let points = [Point64::new(nan, 5, 5), Point64::new(1, 2, 3), Point64::new(0, -nan, 9)];
    let enclosing = AxisAlignedBoundingBox::enclosing(&points);
    assert_eq!(enclosing.minimum, Point64::new(0, 2, 3));
    assert_eq!(enclosing.maximum, Point64::new(1, 5, 9));
}

#[test]
fn enclosing_box_of_corners_is_the_box() {
    let b = cube(-4, 9);
    assert_eq!(AxisAlignedBoundingBox::enclosing(&b.corners()), b);
    let mut turned = b.corners();
    turned.reverse();
    assert_eq!(AxisAlignedBoundingBox::enclosing(&turned), b);
}

#[test]
fn a_box_with_a_corner_beyond_infinity_is_not_numeric() {
    let infinity: i64 = 0x7FF0_0000_0000_0000;
    assert!(cube(-4, 9).is_numeric());
    assert!(cube(-infinity, infinity).is_numeric());
    assert!(!cube(-4, infinity + 1).is_numeric());
    assert!(!cube(-infinity - 1, 9).is_numeric());
    let mut skewed = cube(0, 1);
    skewed.maximum.y = 0x7FF8_0000_0000_0000;
    assert!(!skewed.is_numeric());
}

#[test]
fn a_crossing_that_is_no_number_sets_no_bound() {
    let infinity: i64 = 0x7FF0_0000_0000_0000;
    let open = Slab { t0: 0x7FF8_0000_0000_0000, t1: infinity, inverse_direction: 1 };
    let through = Slab { t0: 2, t1: 6, inverse_direction: 1 };
    assert!(AxisAlignedBoundingBox::is_hit_by(&slabs(through, open, through), 0, 100));
    let open_end = Slab { t0: -infinity, t1: -0x7FF8_0000_0000_0000, inverse_direction: 1 };
    assert!(AxisAlignedBoundingBox::is_hit_by(&slabs(through, open_end, through), 0, 100));
    let outside = Slab { t0: infinity, t1: infinity, inverse_direction: 1 };
    assert!(!AxisAlignedBoundingBox::is_hit_by(&slabs(through, outside, through), 0, 100));
    let behind = Slab { t0: -infinity, t1: -infinity, inverse_direction: -1 };
    assert!(!AxisAlignedBoundingBox::is_hit_by(&slabs(through, behind, through), 0, 100));
    let alongside = Slab { t0: -infinity, t1: infinity, inverse_direction: 1 };
    assert!(AxisAlignedBoundingBox::is_hit_by(&slabs(alongside, alongside, through), 0, 100));
}

fn scalar(x: f64) -> i64 {
    let bits = x.to_bits();
    let magnitude = (bits & 0x7FFF_FFFF_FFFF_FFFF) as i64;
    if bits >> 63 == 1 {
        -magnitude
    } else {
        magnitude
    }
}

struct Lcg(u64);

impl Lcg {
    fn next(&mut self) -> u64 {
        self.0 = self.0.wrapping_mul(6364136223846793005).wrapping_add(1442695040888963407);
        self.0 >> 33
    }

    /// A coordinate on a coarse grid, so that rays often run in a face.
    fn coordinate(&mut self) -> f64 {
        (self.next() % 9) as f64 - 4.0
    }

    /// A direction that is often zero along an axis.
    fn direction(&mut self) -> f64 {
        match self.next() % 5 {
            0 => 0.0,
            1 => -0.0,
            _ => self.coordinate() / 3.0,
        }
    }
}

#[test]
fn slab_test_agrees_with_the_intersection_of_the_intervals() {
    let mut rng = Lcg(2024);
    let (mut hits, mut misses, mut no_numbers) = (0, 0, 0);
    for _ in 0..20000 {
        let t_min = rng.coordinate();
        let t_max = t_min + (rng.next() % 12) as f64;
        let mut crossings = [Slab { t0: 0, t1: 0, inverse_direction: 0 }; 3];
        // By hand: the stretch of parameters inside every slab and the window.
        let (mut from, mut to) = (t_min, t_max);
        for slab in crossings.iter_mut() {
            let low = rng.coordinate();
            let high = low + (rng.next() % 4) as f64;
            let origin = rng.coordinate();
            let inv_direction = 1.0 / rng.direction();
            let t0 = (low - origin) * inv_direction;
            let t1 = (high - origin) * inv_direction;
            if t0.is_nan() || t1.is_nan() {
                no_numbers += 1;
            }
            *slab = Slab {
                t0: scalar(t0),
                t1: scalar(t1),
                inverse_direction: scalar(inv_direction),
            };
            let (enter, leave) = if inv_direction < 0.0 { (t1, t0) } else { (t0, t1) };
            from = from.max(enter);
            to = to.min(leave);
        }
        let expected = from < to;
        let found = AxisAlignedBoundingBox::is_hit_by(
            &slabs(crossings[0], crossings[1], crossings[2]),
            scalar(t_min),
            scalar(t_max),
        );
        assert_eq!(found, expected);
        if expected {
            hits += 1;
        } else {
            misses += 1;
        }
    }
    assert!(hits > 100 && misses > 100 && no_numbers > 100);
}
