//! The kinds of noise texture.

use vstd::prelude::*;

verus! {

/// How a noise texture turns gradient noise into a grey level.
#[derive(Clone, Copy, Debug, PartialEq, Eq, Structural)]
pub enum NoiseType {
    /// Plain noise, shifted and halved into the range of grey levels.
    Perlin,
    /// The sum of several octaves of noise.
    Turbulence,
    /// A sine along z whose phase is pushed about by turbulence.
    Marble,
}

/// The number of octaves that turbulence sums.
pub const TURBULENCE_DEPTH: u32 = 7;

impl NoiseType {
    /// How many octaves of noise one sample takes: one for plain noise, and
    /// [`TURBULENCE_DEPTH`] wherever turbulence is summed.
    pub fn octaves(&self) -> (depth: u32)
        ensures
            depth == if *self == NoiseType::Perlin {
                1
            } else {
                TURBULENCE_DEPTH
            },
            depth >= 1,
    {
        match self {
            NoiseType::Perlin => 1,
            NoiseType::Turbulence => TURBULENCE_DEPTH,
            NoiseType::Marble => TURBULENCE_DEPTH,
        }
    }

    /// Whether the texture's scale is applied to the point where the noise
    /// is sampled. Marble samples at the point itself and applies the scale
    /// to its sine instead.
    pub fn scales_sample_point(&self) -> (scaled: bool)
        ensures
            scaled == (*self != NoiseType::Marble),
    {
        match self {
            NoiseType::Perlin => true,
            NoiseType::Turbulence => true,
            NoiseType::Marble => false,
        }
    }
}

} // verus!
