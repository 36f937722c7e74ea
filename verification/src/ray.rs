//! Rays, and the path of light that a ray begins.

use vstd::prelude::*;
use crate::point64::Point64;
use crate::scalar::{Scalar, INFINITY};

verus! {

/// A half-line through the scene: where it starts, where it heads, and the
/// moment of the exposure at which it is cast.
#[derive(Clone, Copy, Debug, PartialEq, Eq, Structural)]
pub struct Ray {
    pub origin: Point64,
    pub direction: Point64,
    pub exposure_time: Scalar,
}

/// The number of bounces after which a path is given up.
pub const MAX_DEPTH: u32 = 50;

/// The scalar of the least ray parameter at which a surface counts as met:
/// a thousandth, so that a ray does not meet the surface it has just left.
pub const TRACE_MIN: Scalar = 0x3F50_624D_D2F1_A9FC;

/// The scalar beyond which no surface is looked for: infinity.
pub const TRACE_MAX: Scalar = INFINITY;

/// What became of a ray that was traced through the scene.
#[derive(Clone, Copy, Debug, PartialEq, Eq, Structural)]
pub enum Bounce {
    /// It met nothing.
    Miss,
    /// It met a surface that did not scatter it.
    Absorbed,
    /// It met a surface that scattered it, into this ray.
    Scattered(Ray),
}

/// What a traced ray adds to the colour of its path.
#[derive(Clone, Copy, Debug, PartialEq, Eq, Structural)]
pub enum Share {
    /// Nothing: the path is given up, and its light is lost.
    Black,
    /// The background, and the path ends.
    Background,
    /// What the surface emits, and the path ends.
    Emitted,
    /// What the surface emits. The path goes on with the scattered ray, and
    /// whatever that adds is weakened by the surface's attenuation.
    EmittedAndOnward,
}

/// A path of light in the making: the ray that it has come to, and the
/// number of bounces it has left.
#[derive(Clone, Copy, Debug, PartialEq, Eq, Structural)]
pub struct Path {
    pub ray: Ray,
    pub depth: u32,
    pub ended: bool,
}

impl Ray {
    /// The path that begins with this ray, with all its bounces before it.
    pub open spec fn path(self) -> Path {
        Path { ray: self, depth: MAX_DEPTH, ended: false }
    }

    /// Begins the path of light that decides the colour seen along this
    /// ray.
    pub fn color_in_world(&self) -> (path: Path)
        ensures
            path == self.path(),
            path.live(),
    {
        Path { ray: *self, depth: MAX_DEPTH, ended: false }
    }
}

impl Path {
    /// The path has bounces left and has not ended: its ray is to be traced.
    pub open spec fn live(self) -> bool {
        !self.ended && self.depth >= 1
    }

    /// What a ray adds that fared as `bounce` says.
    pub open spec fn share(self, bounce: Bounce) -> Share {
        if !self.live() {
            Share::Black
        } else {
            match bounce {
                Bounce::Miss => Share::Background,
                Bounce::Absorbed => Share::Emitted,
                Bounce::Scattered(_) => Share::EmittedAndOnward,
            }
        }
    }

    /// The path after a ray that fared as `bounce` says: where the ray was
    /// scattered, the path has come to the scattered ray and has one bounce
    /// less to go; otherwise it has ended.
    pub open spec fn after(self, bounce: Bounce) -> Path {
        if self.live() && bounce is Scattered {
            Path { ray: bounce->0, depth: (self.depth - 1) as u32, ended: false }
        } else {
            Path { ended: true, ..self }
        }
    }

    /// How many rays the path may still trace.
    pub open spec fn rays_left(self) -> nat {
        if self.ended {
            0
        } else {
            self.depth as nat
        }
    }

    /// The window in which a ray of a path looks for surfaces: from
    /// [`TRACE_MIN`] to [`TRACE_MAX`], ends excluded.
    pub fn window(&self) -> (window: (Scalar, Scalar))
        ensures
            window == (TRACE_MIN, TRACE_MAX),
    {
        (TRACE_MIN, TRACE_MAX)
    }

    /// The ray that the path has come to.
    pub fn ray(&self) -> (ray: Ray)
        ensures
            ray == self.ray,
    {
        self.ray
    }

    /// Whether the path's ray is to be traced. If not, the path adds nothing
    /// more.
    pub fn is_live(&self) -> (live: bool)
        ensures
            live == self.live(),
    {
        !self.ended && self.depth >= 1
    }

    /// Takes what became of the path's ray, and says what the ray adds to
    /// the colour of the path.
    pub fn bounce(&mut self, bounce: Bounce) -> (share: Share)
        ensures
            share == old(self).share(bounce),
            *final(self) == old(self).after(bounce),
    {
        if !self.is_live() {
            self.ended = true;
            return Share::Black;
        }
        match bounce {
            Bounce::Miss => {
                self.ended = true;
                Share::Background
            },
            Bounce::Absorbed => {
                self.ended = true;
                Share::Emitted
            },
            Bounce::Scattered(onward) => {
                self.ray = onward;
                self.depth = self.depth - 1;
                Share::EmittedAndOnward
            },
        }
    }

    /// A path traces no more than [`MAX_DEPTH`] rays: a fresh path has that
    /// many left, every ray of a live path takes one away, and a path that
    /// has none left is not live.
    pub proof fn lemma_paths_end(self, first: Ray, bounce: Bounce)
        ensures
            first.path().rays_left() == MAX_DEPTH,
            self.live() ==> self.after(bounce).rays_left() < self.rays_left(),
            self.rays_left() == 0 <==> !self.live(),
            !self.live() ==> !self.after(bounce).live() && self.share(bounce) == Share::Black,
    {
    }
}

} // verus!
