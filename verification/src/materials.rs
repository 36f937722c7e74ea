//! Materials: what a surface does to the light that reaches it.

use vstd::prelude::*;
use crate::color64::{black, white, Color64};
use crate::hittables::HitRecord;
use crate::point64::Point64;
use crate::ray::Ray;
use crate::scalar::{
    is_less, is_number, less, lesser, min_scalar, Scalar, ONE, ZERO,
};

verus! {

/// What a surface made of a ray: how much of each colour it passed on, and
/// the ray it passed it on to.
#[derive(Clone, Copy, Debug, PartialEq, Eq, Structural)]
pub struct ScatterRecord {
    pub hit_record: HitRecord,
    pub attenuation: Color64,
    pub scattered: Ray,
}

impl ScatterRecord {
    /// The record of a ray scattered into `direction` where `ray_in` met the
    /// surface: the new ray starts at the meeting and belongs to the same
    /// moment of the exposure.
    pub open spec fn onward(
        ray_in: Ray,
        hit_record: HitRecord,
        attenuation: Color64,
        direction: Point64,
    ) -> ScatterRecord {
        ScatterRecord {
            hit_record,
            attenuation,
            scattered: Ray {
                origin: hit_record.location,
                direction,
                exposure_time: ray_in.exposure_time,
            },
        }
    }
}

/// A matt surface, coloured by the texture with the number `albedo`.
#[derive(Clone, Copy, Debug, PartialEq, Eq, Structural)]
pub struct Lambertian {
    pub albedo: usize,
}

/// A mirror of the colour `albedo`, blurred by `fuzz`.
#[derive(Clone, Copy, Debug, PartialEq, Eq, Structural)]
pub struct Metal {
    pub albedo: Color64,
    pub fuzz: Scalar,
}

/// Clear matter, such as glass, that bends light by `index_of_refraction`.
#[derive(Clone, Copy, Debug, PartialEq, Eq, Structural)]
pub struct Dielectric {
    pub index_of_refraction: Scalar,
}

/// A surface that gives off light of its own, coloured by the texture with
/// the number `emitter`.
#[derive(Clone, Copy, Debug, PartialEq, Eq, Structural)]
pub struct DiffuseLight {
    pub emitter: usize,
}

/// Any of the materials.
#[derive(Clone, Copy, Debug, PartialEq, Eq, Structural)]
pub enum Material {
    Lambertian(Lambertian),
    Metal(Metal),
    Dielectric(Dielectric),
    DiffuseLight(DiffuseLight),
}

/// How a ray fares at a clear surface, worked out for both ways it can go.
///
/// `ratio_sine` is the refraction ratio times the sine of the angle of
/// incidence, `reflectance` the share of light that a surface reflects at
/// that angle, and `draw` a number drawn evenly between 0 and 1.
/// `reflected` and `refracted` are the two directions open to the ray.
#[derive(Clone, Copy, Debug, PartialEq, Eq, Structural)]
pub struct Bend {
    pub ratio_sine: Scalar,
    pub reflectance: Scalar,
    pub draw: Scalar,
    pub reflected: Point64,
    pub refracted: Point64,
}

impl Bend {
    /// The ray cannot pass the surface: the sine that the law of refraction
    /// asks for would be greater than 1.
    pub open spec fn cannot_refract(self) -> bool {
        less(ONE as int, self.ratio_sine as int)
    }

    /// The ray is reflected: it cannot pass, or the draw falls to
    /// reflection, being less than the reflectance. Where a quantity is no
    /// number, the test that it enters speaks for passing.
    pub open spec fn reflects(self) -> bool {
        self.cannot_refract() || less(self.draw as int, self.reflectance as int)
    }

    /// The direction that the ray takes.
    pub open spec fn direction(self) -> Point64 {
        if self.reflects() {
            self.reflected
        } else {
            self.refracted
        }
    }
}

impl Lambertian {
    /// Scatters a ray that has met the surface.
    ///
    /// `attenuation` is the colour of the surface's texture at the meeting.
    /// `scatter_direction` is the surface normal moved by a random unit
    /// vector. Where that is as good as no direction, the ray leaves along
    /// the normal instead. A matt surface scatters every ray.
    pub fn scatter(
        &self,
        ray_in: &Ray,
        hit_record: &HitRecord,
        attenuation: Color64,
        scatter_direction: Point64,
    ) -> (scattered: Option<ScatterRecord>)
        ensures
            scattered == Some(
                ScatterRecord::onward(
                    *ray_in,
                    *hit_record,
                    attenuation,
                    if scatter_direction.negligible() {
                        hit_record.normal
                    } else {
                        scatter_direction
                    },
                ),
            ),
            attenuation.in_unit_range() ==> scattered->0.attenuation.in_unit_range(),
    {
        let direction = if scatter_direction.near_zero() {
            hit_record.normal
        } else {
            scatter_direction
        };
        Some(
            ScatterRecord {
                hit_record: *hit_record,
                attenuation,
                scattered: Ray {
                    origin: hit_record.location,
                    direction,
                    exposure_time: ray_in.exposure_time,
                },
            },
        )
    }
}

impl Metal {
    /// A metal of the colour `albedo`. A `fuzz` of more than 1 counts as 1,
    /// and so does one that is no number.
    pub fn new(albedo: Color64, fuzz: Scalar) -> (metal: Metal)
        ensures
            metal.albedo == albedo,
            metal.fuzz == lesser(fuzz as int, ONE as int),
            !is_number(fuzz) ==> metal.fuzz == ONE,
    {
        Metal { albedo, fuzz: min_scalar(fuzz, ONE) }
    }

    /// Scatters a ray that has met the surface, or swallows it.
    ///
    /// `scatter_direction` is the mirrored direction of the ray, blurred,
    /// and `facing` its dot product with the surface normal. The ray is
    /// scattered only if it leaves the surface, that is if `facing` is a
    /// number greater than nothing; it then carries the colour of the metal.
    pub fn scatter(
        &self,
        ray_in: &Ray,
        hit_record: &HitRecord,
        scatter_direction: Point64,
        facing: Scalar,
    ) -> (scattered: Option<ScatterRecord>)
        ensures
            scattered == if less(ZERO as int, facing as int) {
                Some(ScatterRecord::onward(*ray_in, *hit_record, self.albedo, scatter_direction))
            } else {
                None::<ScatterRecord>
            },
            self.albedo.in_unit_range() && scattered is Some
                ==> scattered->0.attenuation.in_unit_range(),
    {
        if is_less(ZERO, facing) {
            Some(
                ScatterRecord {
                    hit_record: *hit_record,
                    attenuation: self.albedo,
                    scattered: Ray {
                        origin: hit_record.location,
                        direction: scatter_direction,
                        exposure_time: ray_in.exposure_time,
                    },
                },
            )
        } else {
            None
        }
    }
}

impl Dielectric {
    /// The ratio of the refractive indices on the two sides of the surface,
    /// the side that the ray comes from first. `inverse` is 1 divided by the
    /// material's index. A ray that comes from outside goes from air into
    /// the material, one that comes from inside goes the other way.
    pub fn refraction_ratio(&self, front_face: bool, inverse: Scalar) -> (ratio: Scalar)
        ensures
            ratio == if front_face {
                inverse
            } else {
                self.index_of_refraction
            },
    {
        if front_face {
            inverse
        } else {
            self.index_of_refraction
        }
    }

    /// Scatters a ray that has met the surface: reflects it where it cannot
    /// pass or the draw falls to reflection, and lets it pass, bent,
    /// otherwise. Clear matter swallows nothing, so the ray keeps all its
    /// light.
    pub fn scatter(&self, ray_in: &Ray, hit_record: &HitRecord, bend: &Bend) -> (scattered:
        Option<ScatterRecord>)
        ensures
            scattered == Some(
                ScatterRecord::onward(*ray_in, *hit_record, white(), bend.direction()),
            ),
            scattered->0.attenuation == white(),
            scattered->0.attenuation.in_unit_range(),
    {
        let direction = if is_less(ONE, bend.ratio_sine) || is_less(bend.draw, bend.reflectance) {
            bend.reflected
        } else {
            bend.refracted
        };
        Some(
            ScatterRecord {
                hit_record: *hit_record,
                attenuation: Color64::white(),
                scattered: Ray {
                    origin: hit_record.location,
                    direction,
                    exposure_time: ray_in.exposure_time,
                },
            },
        )
    }
}

impl DiffuseLight {
    /// A light scatters nothing.
    pub fn scatter(&self, ray_in: &Ray, hit_record: &HitRecord) -> (scattered: Option<
        ScatterRecord,
    >)
        ensures
            scattered is None,
    {
        None
    }

    /// The light that the surface gives off where a ray meets it: the colour
    /// `sampled` from its texture there, whichever side the ray comes from.
    pub fn emitted(&self, sampled: Color64) -> (light: Color64)
        ensures
            light == sampled,
    {
        sampled
    }
}

impl Material {
    /// The number of the texture that the material takes its colour from at
    /// a meeting, if it takes it from one.
    pub open spec fn texture_of(self) -> Option<usize> {
        match self {
            Material::Lambertian(matt) => Some(matt.albedo),
            Material::DiffuseLight(light) => Some(light.emitter),
            _ => None,
        }
    }

    /// The number of the texture that the material takes its colour from at
    /// a meeting, if it takes it from one.
    pub fn texture(&self) -> (texture: Option<usize>)
        ensures
            texture == self.texture_of(),
    {
        match self {
            Material::Lambertian(matt) => Some(matt.albedo),
            Material::DiffuseLight(light) => Some(light.emitter),
            _ => None,
        }
    }

    /// The light that the surface gives off where a ray meets it. Only a
    /// light gives off any: the colour `sampled` from its texture.
    pub fn emitted(&self, sampled: Color64) -> (light: Color64)
        ensures
            light == if self is DiffuseLight {
                sampled
            } else {
                black()
            },
    {
        match self {
            Material::DiffuseLight(light) => light.emitted(sampled),
            _ => Color64::black(),
        }
    }
}

} // verus!
