//! Choices made while a scene is laid out.

use vstd::prelude::*;
use crate::scalar::{is_less, less, Scalar};

verus! {

/// What a little sphere of the random scene is made of.
#[derive(Clone, Copy, Debug, PartialEq, Eq, Structural)]
pub enum LittleSphere {
    /// A matt sphere that moves while the picture is taken.
    MovingLambertian,
    /// A matt sphere.
    Lambertian,
    /// A sphere of metal.
    Metal,
    /// A sphere of glass.
    Glass,
}

/// The scalar of a tenth: the share of moving spheres.
pub const MOVING_BELOW: Scalar = 0x3FB9_9999_9999_999A;

/// The scalar of eight tenths: the share of matt spheres, moving or not.
pub const LAMBERTIAN_BELOW: Scalar = 0x3FE9_9999_9999_999A;

/// The scalar of ninety-five hundredths: the share of all but glass.
pub const METAL_BELOW: Scalar = 0x3FEE_6666_6666_6666;

/// The scalar of nine tenths: how far a little sphere must keep from the
/// place of the large metal sphere.
pub const KEEP_CLEAR: Scalar = 0x3FEC_CCCC_CCCC_CCCD;

/// What the little sphere is made of that the draw `choose_mat`, a number
/// drawn evenly between 0 and 1, stands for: one in ten moves, seven in ten
/// are matt and still, three in twenty are metal and the rest are glass, as
/// is what a draw that is no number stands for.
pub fn little_sphere(choose_mat: Scalar) -> (made_of: LittleSphere)
    ensures
        made_of == if less(choose_mat as int, MOVING_BELOW as int) {
            LittleSphere::MovingLambertian
        } else if less(choose_mat as int, LAMBERTIAN_BELOW as int) {
            LittleSphere::Lambertian
        } else if less(choose_mat as int, METAL_BELOW as int) {
            LittleSphere::Metal
        } else {
            LittleSphere::Glass
        },
{
    if is_less(choose_mat, MOVING_BELOW) {
        LittleSphere::MovingLambertian
    } else if is_less(choose_mat, LAMBERTIAN_BELOW) {
        LittleSphere::Lambertian
    } else if is_less(choose_mat, METAL_BELOW) {
        LittleSphere::Metal
    } else {
        LittleSphere::Glass
    }
}

/// Whether a little sphere has room at a place that lies `distance` from
/// the place of the large metal sphere: it has if that is a number greater
/// than [`KEEP_CLEAR`].
pub fn has_room(distance: Scalar) -> (room: bool)
    ensures
        room == less(KEEP_CLEAR as int, distance as int),
{
    is_less(KEEP_CLEAR, distance)
}

} // verus!
