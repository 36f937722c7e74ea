//! Spheres, still or moving: which of the two places where a ray pierces one
//! counts as the meeting.

use vstd::prelude::*;
use crate::scalar::{
    at_most, is_at_most, is_strictly_inside, strictly_inside, Scalar, ZERO,
};

verus! {

/// The solutions of the quadratic equation that a ray and a sphere give
/// rise to: its discriminant, and the two parameters at which the ray
/// pierces the sphere, `root_one` being the one computed with the negative
/// square root.
#[derive(Clone, Copy, Debug, PartialEq, Eq, Structural)]
pub struct Roots {
    pub discriminant: Scalar,
    pub root_one: Scalar,
    pub root_two: Scalar,
}

impl Roots {
    /// The parameter of the meeting inside the window from `min_value` to
    /// `max_value`, ends excluded. With a discriminant that is negative, or
    /// no number, the ray passes the sphere by. Otherwise the first root
    /// counts if it lies in the window, and the second does if only that one
    /// lies in it.
    pub open spec fn meeting(self, min_value: Scalar, max_value: Scalar) -> Option<Scalar> {
        if !at_most(ZERO as int, self.discriminant as int) {
            None
        } else if strictly_inside(self.root_one as int, min_value as int, max_value as int) {
            Some(self.root_one)
        } else if strictly_inside(self.root_two as int, min_value as int, max_value as int) {
            Some(self.root_two)
        } else {
            None
        }
    }

    /// The parameter at which the ray meets the sphere inside the window, if
    /// it does.
    pub fn is_hit_by(&self, min_value: Scalar, max_value: Scalar) -> (root: Option<Scalar>)
        ensures
            root == self.meeting(min_value, max_value),
    {
        if is_at_most(ZERO, self.discriminant) {
            let root_one_in_range = is_strictly_inside(self.root_one, min_value, max_value);
            let root_two_in_range = is_strictly_inside(self.root_two, min_value, max_value);
            if root_one_in_range {
                Some(self.root_one)
            } else if root_two_in_range {
                Some(self.root_two)
            } else {
                None
            }
        } else {
            None
        }
    }

    /// Where the first root is not beyond the second, the meeting is the
    /// least root inside the window: no root lies between the window's start
    /// and the meeting, and without a meeting no root lies in the window.
    pub proof fn lemma_meeting_is_nearest(self, min_value: Scalar, max_value: Scalar)
        requires
            at_most(ZERO as int, self.discriminant as int),
            self.root_one <= self.root_two,
        ensures
            match self.meeting(min_value, max_value) {
                Some(t) => {
                    &&& strictly_inside(t as int, min_value as int, max_value as int)
                    &&& t == self.root_one || t == self.root_two
                    &&& !strictly_inside(self.root_one as int, min_value as int, t as int)
                    &&& !strictly_inside(self.root_two as int, min_value as int, t as int)
                },
                None => {
                    &&& !strictly_inside(self.root_one as int, min_value as int, max_value as int)
                    &&& !strictly_inside(self.root_two as int, min_value as int, max_value as int)
                },
            },
    {
    }
}

} // verus!
