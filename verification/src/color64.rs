//! Colours.

use vstd::prelude::*;
use crate::scalar::{Scalar, ONE, ZERO};

verus! {

/// A colour: the strength of red, green and blue light, none being 0 and
/// full being 1.
#[derive(Clone, Copy, Debug, PartialEq, Eq, Structural)]
pub struct Color64 {
    pub r: Scalar,
    pub g: Scalar,
    pub b: Scalar,
}

/// No light at all.
pub open spec fn black() -> Color64 {
    Color64 { r: ZERO, g: ZERO, b: ZERO }
}

/// Full light in every channel.
pub open spec fn white() -> Color64 {
    Color64 { r: ONE, g: ONE, b: ONE }
}

impl Color64 {
    /// Every channel lies between none and full.
    pub open spec fn in_unit_range(self) -> bool {
        &&& ZERO <= self.r <= ONE
        &&& ZERO <= self.g <= ONE
        &&& ZERO <= self.b <= ONE
    }

    pub fn new(r: Scalar, g: Scalar, b: Scalar) -> (color: Color64)
        ensures
            color == (Color64 { r, g, b }),
    {
        Color64 { r, g, b }
    }

    pub fn r(&self) -> (r: Scalar)
        ensures
            r == self.r,
    {
        self.r
    }

    pub fn g(&self) -> (g: Scalar)
        ensures
            g == self.g,
    {
        self.g
    }

    pub fn b(&self) -> (b: Scalar)
        ensures
            b == self.b,
    {
        self.b
    }

    /// No light at all.
    pub fn black() -> (color: Color64)
        ensures
            color == black(),
            color.in_unit_range(),
    {
        Color64 { r: ZERO, g: ZERO, b: ZERO }
    }

    /// Full light in every channel.
    pub fn white() -> (color: Color64)
        ensures
            color == white(),
            color.in_unit_range(),
    {
        Color64 { r: ONE, g: ONE, b: ONE }
    }

    /// The grey with `gray_level` in every channel.
    pub fn gray(gray_level: Scalar) -> (color: Color64)
        ensures
            color == (Color64 { r: gray_level, g: gray_level, b: gray_level }),
    {
        Color64 { r: gray_level, g: gray_level, b: gray_level }
    }
}

} // verus!
