//! Participating media: volumes of constant density that scatter a ray
//! somewhere along its way through them.

use crate::aabb::AABB;
use crate::hittable::{may_bound, may_hit, HitRecord, Hittable};
use crate::ray::Ray;
use crate::scalar::Scalar;
use crate::vec3::F;
use vstd::prelude::*;

verus! {

/// A medium of constant density inside a boundary.
pub struct ConstantMedium<H, M> {
    /// The shape that holds the medium.
    pub boundary: H,
    /// The material that scatters the rays caught in the medium.
    pub phase_function: M,
    /// Minus one over the density.
    pub neg_inv_density: F,
}

/// The part of a ray inside a boundary that a query can use.
///
/// `t_enter` and `t_exit` are the ray parameters at which the ray crosses the
/// boundary. The entry is raised to `t_min`, and to zero where `t_min` is
/// negative; the exit is lowered to `t_max`. Nothing is left where the entry
/// then lies behind the exit.
pub open spec fn spec_clip(t_enter: F, t_exit: F, t_min: F, t_max: F) -> Option<(F, F)> {
    let floor = t_min.spec_max(Scalar { bits: 0 });
    let enter = if t_enter.spec_lt(floor) {
        floor
    } else {
        t_enter
    };
    let exit = if t_exit.spec_gt(t_max) {
        t_max
    } else {
        t_exit
    };
    if enter.spec_gt(exit) {
        None
    } else {
        Some((enter, exit))
    }
}

/// The part of `[t_enter, t_exit]` that lies in `[t_min, t_max]` and not
/// behind the ray's origin, if any.
#[verifier::when_used_as_spec(spec_clip)]
pub fn clip(t_enter: F, t_exit: F, t_min: F, t_max: F) -> (r: Option<(F, F)>)
    ensures
        r == spec_clip(t_enter, t_exit, t_min, t_max),
        !t_enter.nan() && !t_exit.nan() && !t_min.nan() && !t_max.nan() ==> match r {
            Some((enter, exit)) => enter.spec_le(exit) && t_min.spec_le(enter) && exit.spec_le(t_max)
                && t_enter.spec_le(enter) && exit.spec_le(t_exit) && Scalar { bits: 0 }.spec_le(
                enter,
            ),
            None => true,
        },
{
    let floor = t_min.max(Scalar::zero());
    let enter = if t_enter.lt(floor) {
        floor
    } else {
        t_enter
    };
    let exit = if t_exit.gt(t_max) {
        t_max
    } else {
        t_exit
    };
    if enter.gt(exit) {
        None
    } else {
        Some((enter, exit))
    }
}

/// Whether a ray is scattered inside the medium: `hit_distance` is the
/// distance after which the medium scatters it, drawn at random, and
/// `distance_in_boundary` the length of its way through the medium. The ray
/// passes where the first exceeds the second.
pub fn scatters_inside(hit_distance: F, distance_in_boundary: F) -> (r: bool)
    ensures
        r == !hit_distance.spec_gt(distance_in_boundary),
{
    !hit_distance.gt(distance_in_boundary)
}

impl<H, M> ConstantMedium<H, M> {
    pub fn new(boundary: H, phase_function: M, neg_inv_density: F) -> (r: ConstantMedium<H, M>)
        ensures
            r == (ConstantMedium { boundary, phase_function, neg_inv_density }),
    {
        ConstantMedium { boundary, phase_function, neg_inv_density }
    }
}

impl<H: Hittable, M> ConstantMedium<H, M> {
    /// Where the ray enters the boundary: the boundary's hit anywhere on the
    /// line of the ray.
    pub fn entry(&self, ray: &Ray) -> (r: Option<HitRecord<H::Material>>)
        ensures
            may_hit(
                &self.boundary,
                ray,
                Scalar { bits: (crate::scalar::SIGN_BIT + crate::scalar::INFINITY_BITS) as u64 },
                Scalar { bits: crate::scalar::INFINITY_BITS },
                r,
            ),
    {
        self.boundary.hit(ray, Scalar::neg_infinity(), Scalar::infinity())
    }

    /// Where the ray leaves the boundary: the boundary's hit from `after` on,
    /// a parameter just behind the entry.
    pub fn exit(&self, ray: &Ray, after: F) -> (r: Option<HitRecord<H::Material>>)
        ensures
            may_hit(&self.boundary, ray, after, Scalar { bits: crate::scalar::INFINITY_BITS }, r),
    {
        self.boundary.hit(ray, after, Scalar::infinity())
    }

    /// The box of the boundary.
    pub fn bounding_box(&self, time0: F, time1: F) -> (r: Option<AABB>)
        ensures
            may_bound(&self.boundary, time0, time1, r),
    {
        self.boundary.bounding_box(time0, time1)
    }
}

/// A material that scatters into every direction alike, with a texture for
/// its colour.
pub struct Isotropic<T> {
    pub albedo: T,
}

impl<T> Isotropic<T> {
    pub fn new(albedo: T) -> (r: Isotropic<T>)
        ensures
            r.albedo == albedo,
    {
        Isotropic { albedo }
    }
}

} // verus!
