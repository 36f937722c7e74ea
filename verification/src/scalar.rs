//! Scalars: the real quantities of a scene, as the core sees them.
//!
//! The core compares coordinates and ray parameters, picks among them and
//! flips their sign; it never adds or multiplies them. A real quantity is
//! therefore held as a [`Scalar`]: the bit pattern of the double-precision
//! number nearest to it, read as a sign and a magnitude. The sign is that of
//! the number, and the magnitude is the pattern without its sign bit. So a
//! smaller number has a smaller scalar, both zeros have scalar zero, and the
//! opposite number has the opposite scalar. The numbers from minus infinity
//! to infinity have the scalars from `-INFINITY` to `INFINITY`; what lies
//! beyond stands for no number. What is no number is neither less nor more
//! than anything: [`less`] and [`at_most`] are false of it, and so is every
//! test that is made of them. Of a number and what is no number, the number
//! is both the [`lesser`] and the [`greater`].

use vstd::prelude::*;

verus! {

/// A real quantity, by its place in the order of all quantities.
pub type Scalar = i64;

/// The scalar of 0.
pub const ZERO: Scalar = 0;

/// The scalar of 1.
pub const ONE: Scalar = 0x3FF0_0000_0000_0000;

/// The scalar of infinity.
pub const INFINITY: Scalar = 0x7FF0_0000_0000_0000;

/// The scalar of the tolerance below which a quantity counts as nothing:
/// one part in a hundred million.
pub const EPSILON: Scalar = 0x3E45_798E_E230_8C3A;

/// Whether `scalar` stands for a number.
pub open spec fn is_number(scalar: Scalar) -> bool {
    -INFINITY <= scalar <= INFINITY
}

/// The magnitude of a quantity.
pub open spec fn magnitude(a: int) -> int {
    if a < 0 {
        -a
    } else {
        a
    }
}

/// The smaller of two quantities; the other one, where one is no number.
pub open spec fn lesser(a: int, b: int) -> int {
    if !(-INFINITY <= a <= INFINITY) {
        b
    } else if !(-INFINITY <= b <= INFINITY) {
        a
    } else if b < a {
        b
    } else {
        a
    }
}

/// The larger of two quantities; the other one, where one is no number.
pub open spec fn greater(a: int, b: int) -> int {
    if !(-INFINITY <= a <= INFINITY) {
        b
    } else if !(-INFINITY <= b <= INFINITY) {
        a
    } else if a < b {
        b
    } else {
        a
    }
}

/// Whether `a` is less than `b`, both being numbers.
pub open spec fn less(a: int, b: int) -> bool {
    -INFINITY <= a < b <= INFINITY
}

/// Whether `a` is no more than `b`, both being numbers.
pub open spec fn at_most(a: int, b: int) -> bool {
    -INFINITY <= a <= b <= INFINITY
}

/// Whether `value` lies strictly between `low` and `high`, all three being
/// numbers.
pub open spec fn strictly_inside(value: int, low: int, high: int) -> bool {
    less(low, value) && less(value, high)
}

/// Whether `value` lies in the half-open stretch from `low` up to, but not
/// including, `high`, all three being numbers.
pub open spec fn within(value: int, low: int, high: int) -> bool {
    at_most(low, value) && less(value, high)
}

/// Whether `a` is less than `b`, both being numbers.
pub fn is_less(a: Scalar, b: Scalar) -> (holds: bool)
    ensures
        holds == less(a as int, b as int),
{
    -INFINITY <= a && a < b && b <= INFINITY
}

/// Whether `a` is no more than `b`, both being numbers.
pub fn is_at_most(a: Scalar, b: Scalar) -> (holds: bool)
    ensures
        holds == at_most(a as int, b as int),
{
    -INFINITY <= a && a <= b && b <= INFINITY
}

/// Whether `value` lies strictly between `low` and `high`, all three being
/// numbers.
pub fn is_strictly_inside(value: Scalar, low: Scalar, high: Scalar) -> (holds: bool)
    ensures
        holds == strictly_inside(value as int, low as int, high as int),
{
    is_less(low, value) && is_less(value, high)
}

/// Whether `value` lies in the half-open stretch from `low` up to, but not
/// including, `high`, all three being numbers.
pub fn is_within(value: Scalar, low: Scalar, high: Scalar) -> (holds: bool)
    ensures
        holds == within(value as int, low as int, high as int),
{
    is_at_most(low, value) && is_less(value, high)
}

/// The smaller of two scalars; the other one, where one is no number.
pub fn min_scalar(a: Scalar, b: Scalar) -> (m: Scalar)
    ensures
        m == lesser(a as int, b as int),
{
    if !number(a) {
        b
    } else if !number(b) {
        a
    } else if b < a {
        b
    } else {
        a
    }
}

/// The larger of two scalars; the other one, where one is no number.
pub fn max_scalar(a: Scalar, b: Scalar) -> (m: Scalar)
    ensures
        m == greater(a as int, b as int),
{
    if !number(a) {
        b
    } else if !number(b) {
        a
    } else if a < b {
        b
    } else {
        a
    }
}

/// `value`, held between `low` and `high`. What is no number is handed back
/// as it is.
pub fn clamp_scalar(value: Scalar, low: Scalar, high: Scalar) -> (held: Scalar)
    requires
        at_most(low as int, high as int),
    ensures
        held == if is_number(value) {
            greater(low as int, lesser(value as int, high as int))
        } else {
            value as int
        },
        is_number(value) ==> low <= held <= high,
        low <= value <= high ==> held == value,
{
    if number(value) {
        max_scalar(low, min_scalar(value, high))
    } else {
        value
    }
}

/// Whether `scalar` stands for a number.
pub fn number(scalar: Scalar) -> (is_one: bool)
    ensures
        is_one == is_number(scalar),
{
    -INFINITY <= scalar && scalar <= INFINITY
}

/// The scalar of the magnitude of the number that `scalar` stands for.
pub fn abs_scalar(scalar: Scalar) -> (m: Scalar)
    requires
        scalar > i64::MIN,
    ensures
        m == magnitude(scalar as int),
        m >= 0,
{
    if scalar < 0 {
        -scalar
    } else {
        scalar
    }
}

} // verus!
