//! Random draws.

use rand::Rng;
use vstd::prelude::*;

verus! {

/// A number from 0 up to, but not including, `bound`.
///
/// Takes the generator of the current thread from `rand::rng` and calls
/// `Rng::random_range` of the `rand` crate on it with the range
/// `0..bound`. That call panics on an empty range, which `bound > 0` rules
/// out, and returns a member of the range. Which member is a matter of
/// chance: nothing more is claimed of it. The generator is seeded by the
/// operating system when a thread first asks for it; should the system
/// refuse, `rand` panics, and no condition on `bound` can rule that out.
#[verifier::external_body]
pub(crate) fn random_below(bound: usize) -> (drawn: usize)
    requires
        bound > 0,
    ensures
        drawn < bound,
{
    rand::rng().random_range(0..bound)
}

} // verus!
