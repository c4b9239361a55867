//! Materials: what a surface emits and how it scatters a ray.

use crate::hittable::HitRecord;
use crate::ray::Ray;
use crate::scalar::Scalar;
use crate::texture::{may_sample, SolidColour, Texture, TexturePoint};
use crate::vec3::{Colour, Point3, Vec3, F};
use vstd::prelude::*;

verus! {

/// The surface of a scene node.
pub trait Material: Sized {
    /// The ray into which the surface scatters `ray_in` at the hit, with the
    /// colour by which it attenuates the light that comes back along it; or
    /// nothing where the surface absorbs the ray. A surface that does not
    /// say otherwise absorbs every ray.
    fn scatter(&self, _ray_in: &Ray, _hit_record: &HitRecord<Self>) -> (r: Option<ScatterRecord>)
        default_ensures
            r is None,
    {
        None
    }

    /// The light that the surface gives off at a point. A surface that does
    /// not say otherwise gives off none.
    fn emit(&self, _tp: TexturePoint, _p: Point3) -> (c: Colour)
        default_ensures
            c == (Vec3 { x: Scalar { bits: 0 }, y: Scalar { bits: 0 }, z: Scalar { bits: 0 } }),
    {
        Colour::zero()
    }
}

/// What `material.scatter(ray_in, hit_record)` may return.
pub open spec fn may_scatter<M: Material>(
    material: &M,
    ray_in: &Ray,
    hit_record: &HitRecord<M>,
    r: Option<ScatterRecord>,
) -> bool {
    call_ensures(M::scatter, (material, ray_in, hit_record), r)
}

/// What `material.emit(tp, p)` may return.
pub open spec fn may_emit<M: Material>(material: &M, tp: TexturePoint, p: Point3, c: Colour) -> bool {
    call_ensures(M::emit, (material, tp, p), c)
}

/// A scattered ray and its attenuation.
#[derive(Clone, Copy, Debug, PartialEq, Eq, Structural)]
pub struct ScatterRecord {
    pub ray: Ray,
    pub colour: Colour,
}

impl ScatterRecord {
    pub fn new(ray: Ray, colour: Colour) -> (r: ScatterRecord)
        ensures
            r == (ScatterRecord { ray, colour }),
    {
        ScatterRecord { ray, colour }
    }

    pub fn ray(&self) -> (r: &Ray)
        ensures
            *r == self.ray,
    {
        &self.ray
    }

    pub fn colour(&self) -> (r: Colour)
        ensures
            r == self.colour,
    {
        self.colour
    }
}

/// A diffuse surface with a texture for its colour.
pub struct Lambertian<T> {
    pub albedo: T,
}

impl<T> Lambertian<T> {
    pub fn new(albedo: T) -> (r: Lambertian<T>)
        ensures
            r.albedo == albedo,
    {
        Lambertian { albedo }
    }

    /// The direction into which a diffuse surface scatters. `candidate` is
    /// the normal plus a random unit vector, `length_squared` its squared
    /// length. Where the two all but cancel the normal itself is taken.
    pub fn scatter_direction(normal: Vec3, candidate: Vec3, length_squared: F) -> (r: Vec3)
        ensures
            r == if length_squared.spec_lt(Scalar { bits: crate::vec3::NEAR_ZERO_BITS }) {
                normal
            } else {
                candidate
            },
    {
        if Vec3::near_zero(length_squared) {
            normal
        } else {
            candidate
        }
    }
}

impl Lambertian<SolidColour> {
    /// A diffuse surface of one colour.
    pub fn colour(colour: Colour) -> (r: Lambertian<SolidColour>)
        ensures
            r.albedo.colour == colour,
    {
        Lambertian { albedo: SolidColour::new(colour) }
    }
}

/// A mirror, blurred by `fuzz`.
#[derive(Clone, Copy, Debug, PartialEq, Eq, Structural)]
pub struct Metal {
    pub albedo: Colour,
    pub fuzz: F,
}

impl Metal {
    /// A metal of the given colour, with `fuzz` brought into `[0, 1]`: a
    /// negative fuzz becomes zero, which is the perfect mirror, and a fuzz
    /// that is not less than one, a NaN included, becomes one.
    pub fn new(albedo: Colour, fuzz: F) -> (r: Metal)
        ensures
            r.albedo == albedo,
            r.fuzz == if fuzz.spec_lt(Scalar { bits: 0 }) {
                Scalar { bits: 0 }
            } else if fuzz.spec_lt(Scalar { bits: crate::scalar::ONE_BITS }) {
                fuzz
            } else {
                Scalar { bits: crate::scalar::ONE_BITS }
            },
            r.fuzz.spec_ge(Scalar { bits: 0 }),
            r.fuzz.spec_le(Scalar { bits: crate::scalar::ONE_BITS }),
    {
        let fuzz = if fuzz.lt(Scalar::zero()) {
            Scalar::zero()
        } else if fuzz.lt(Scalar::one()) {
            fuzz
        } else {
            Scalar::one()
        };
        Metal { albedo, fuzz }
    }

    /// Whether the blurred reflection leaves the surface. `facing` is the dot
    /// product of the scattered direction and the normal: the ray is
    /// scattered where it is positive and absorbed where it is not.
    pub fn scatters(facing: F) -> (r: bool)
        ensures
            r == facing.spec_gt(Scalar { bits: 0 }),
    {
        facing.gt(Scalar::zero())
    }
}

/// Glass and the like.
#[derive(Clone, Copy, Debug, PartialEq, Eq, Structural)]
pub struct Dielectric {
    pub refractive_index: F,
}

impl Dielectric {
    /// Whether refraction is impossible: `sine` is the sine of the refracted
    /// angle as Snell's law gives it, and it exceeds one.
    pub open spec fn cannot_refract(sine: F) -> bool {
        sine.spec_gt(Scalar { bits: crate::scalar::ONE_BITS })
    }

    pub fn new(refractive_index: F) -> (r: Dielectric)
        ensures
            r.refractive_index == refractive_index,
    {
        Dielectric { refractive_index }
    }

    /// The ratio of the refractive indices across the surface, in the
    /// direction of the ray: `inverse`, which is one over the index, where the
    /// ray enters from outside, and the index itself where it leaves.
    pub fn refractive_ratio(&self, front_face: bool, inverse: F) -> (r: F)
        ensures
            r == if front_face {
                inverse
            } else {
                self.refractive_index
            },
    {
        if front_face {
            inverse
        } else {
            self.refractive_index
        }
    }

    /// Whether the surface reflects the ray rather than refracting it.
    ///
    /// `sine` is the ratio of the refractive indices times the sine of the
    /// angle of incidence, `reflectance` the share of light that is
    /// reflected at that angle, `draw` a random number. The ray is reflected
    /// where refraction is impossible, whatever the draw, and else where the
    /// reflectance exceeds the draw.
    pub fn reflects(sine: F, reflectance: F, draw: F) -> (r: bool)
        ensures
            r == (Dielectric::cannot_refract(sine) || reflectance.spec_gt(draw)),
            Dielectric::cannot_refract(sine) ==> r,
    {
        sine.gt(Scalar::one()) || reflectance.gt(draw)
    }
}

/// A light: a surface that emits and never scatters.
pub struct DiffuseLight<T> {
    pub emit: T,
}

impl<T> DiffuseLight<T> {
    pub fn new(emit: T) -> (r: DiffuseLight<T>)
        ensures
            r.emit == emit,
    {
        DiffuseLight { emit }
    }
}

impl DiffuseLight<SolidColour> {
    /// A light of one colour.
    pub fn colour(colour: Colour) -> (r: DiffuseLight<SolidColour>)
        ensures
            r.emit.colour == colour,
    {
        DiffuseLight { emit: SolidColour::new(colour) }
    }
}

impl<T: Texture> Material for DiffuseLight<T> {
    /// The light's texture at the point.
    fn emit(&self, tp: TexturePoint, p: Point3) -> (c: Colour)
        ensures
            may_sample(&self.emit, tp, p, c),
    {
        self.emit.value(tp, p)
    }
}

} // verus!
