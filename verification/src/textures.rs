//! Textures: the colour of a surface from place to place.

use vstd::prelude::*;
use crate::color64::Color64;
use crate::scalar::{is_less, less, Scalar, ZERO};

verus! {

/// A texture of one colour.
#[derive(Clone, Copy, Debug, PartialEq, Eq, Structural)]
pub struct SolidColor {
    pub color: Color64,
}

/// A texture of two textures that take turns from cell to cell of a lattice
/// in space. `odd` and `even` are their numbers in the scene's table of
/// textures.
#[derive(Clone, Copy, Debug, PartialEq, Eq, Structural)]
pub struct Checker {
    pub odd: usize,
    pub even: usize,
}

impl SolidColor {
    /// The colour of the texture, which is the same everywhere.
    pub fn value(&self) -> (color: Color64)
        ensures
            color == self.color,
    {
        self.color
    }
}

impl Checker {
    /// The number of the texture that colours a place. `sines` is the
    /// product over the three axes of the sine of the place's scaled
    /// coordinate: where it is less than nothing the place is coloured by
    /// `odd`, and by `even` where it is not, or is no number.
    pub fn value(&self, sines: Scalar) -> (texture: usize)
        ensures
            texture == if less(sines as int, ZERO as int) {
                self.odd
            } else {
                self.even
            },
    {
        if is_less(sines, ZERO) {
            self.odd
        } else {
            self.even
        }
    }
}

} // verus!
