//! What the command line asks for.

use vstd::prelude::*;
use crate::noise::NoiseType;

verus! {

/// The choices made on the command line.
pub struct ProgramOptions {
    pub create_little_spheres: bool,
    pub use_bvh: bool,
    pub world_choice: u8,
    pub help: bool,
    pub help_str: String,
}

/// The scenes that can be chosen.
#[derive(Clone, Copy, Debug, PartialEq, Eq, Structural)]
pub enum Preset {
    RandomWorld,
    TwoSpheres,
    TwoPerlinSpheres(NoiseType),
    Earth,
    SimpleLight,
    CornellBox,
    FinalScene,
}

/// The scene with the number `choice`, if there is one.
pub open spec fn preset_of(choice: u8) -> Option<Preset> {
    if choice == 0 {
        Some(Preset::RandomWorld)
    } else if choice == 1 {
        Some(Preset::TwoSpheres)
    } else if choice == 2 {
        Some(Preset::TwoPerlinSpheres(NoiseType::Perlin))
    } else if choice == 3 {
        Some(Preset::TwoPerlinSpheres(NoiseType::Turbulence))
    } else if choice == 4 {
        Some(Preset::TwoPerlinSpheres(NoiseType::Marble))
    } else if choice == 5 {
        Some(Preset::Earth)
    } else if choice == 6 {
        Some(Preset::SimpleLight)
    } else if choice == 7 {
        Some(Preset::CornellBox)
    } else if choice == 8 {
        Some(Preset::FinalScene)
    } else {
        None
    }
}

impl ProgramOptions {
    /// The scene that was chosen, or nothing where `world_choice` is not the
    /// number of a scene.
    pub fn preset(&self) -> (preset: Option<Preset>)
        ensures
            preset == preset_of(self.world_choice),
            preset is Some <==> self.world_choice <= 8,
    {
        match self.world_choice {
            0 => Some(Preset::RandomWorld),
            1 => Some(Preset::TwoSpheres),
            2 => Some(Preset::TwoPerlinSpheres(NoiseType::Perlin)),
            3 => Some(Preset::TwoPerlinSpheres(NoiseType::Turbulence)),
            4 => Some(Preset::TwoPerlinSpheres(NoiseType::Marble)),
            5 => Some(Preset::Earth),
            6 => Some(Preset::SimpleLight),
            7 => Some(Preset::CornellBox),
            8 => Some(Preset::FinalScene),
            _ => None,
        }
    }
}

} // verus!
