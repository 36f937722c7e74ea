//! The three coordinate axes.

use vstd::prelude::*;

verus! {

/// One of the three coordinate axes.
#[derive(Clone, Copy, Debug, PartialEq, Eq, Structural)]
pub enum AxisAlignment {
    X,
    Y,
    Z,
}

impl AxisAlignment {
    /// The position of this axis in a coordinate triple, as a number.
    pub open spec fn index(self) -> int {
        match self {
            AxisAlignment::X => 0,
            AxisAlignment::Y => 1,
            AxisAlignment::Z => 2,
        }
    }

    /// The position of this axis in a coordinate triple: 0 for x, 1 for y, 2 for z.
    pub fn to_usize(&self) -> (index: usize)
        ensures
            index == self.index(),
            index < 3,
    {
        match self {
            AxisAlignment::X => 0,
            AxisAlignment::Y => 1,
            AxisAlignment::Z => 2,
        }
    }
}

} // verus!
