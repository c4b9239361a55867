//! Spheres, and which root of the intersection quadratic counts.

use crate::hittable::{answers_nearest, HitRecord};
use crate::scalar::Scalar;
use crate::vec3::{Point3, F};
use vstd::prelude::*;

verus! {

/// A sphere.
pub struct Sphere<M> {
    pub centre: Point3,
    pub radius: F,
    pub material: M,
}

/// The root of the intersection quadratic that counts as the hit.
///
/// `discriminant` is the quarter discriminant of the quadratic, `near` its
/// smaller root and `far` its larger one. There is no hit where the
/// discriminant is negative. Else the smaller root counts unless it lies
/// outside `[t_min, t_max]`, then the larger root unless it lies outside too.
pub open spec fn spec_select_root(discriminant: F, near: F, far: F, t_min: F, t_max: F) -> Option<F> {
    if discriminant.spec_lt(Scalar { bits: 0 }) {
        None
    } else if near.spec_within(t_min, t_max) {
        Some(near)
    } else if far.spec_within(t_min, t_max) {
        Some(far)
    } else {
        None
    }
}

/// The root of the intersection quadratic that counts as the hit, if one does.
#[verifier::when_used_as_spec(spec_select_root)]
pub fn select_root(discriminant: F, near: F, far: F, t_min: F, t_max: F) -> (r: Option<F>)
    ensures
        r == spec_select_root(discriminant, near, far, t_min, t_max),
{
    if discriminant.lt(Scalar::zero()) {
        return None;
    }
    let mut root = near;
    if root.lt(t_min) || root.gt(t_max) {
        root = far;
        if root.lt(t_min) || root.gt(t_max) {
            return None;
        }
    }
    Some(root)
}

/// The two roots of a quadratic whose discriminant is not negative, as a set
/// of crossings.
pub open spec fn roots(near: F, far: F) -> Set<F> {
    set![near, far]
}

/// The root that is selected is the nearest crossing in the interval.
///
/// For a quadratic with two roots in order, and an interval whose ends are
/// numbers, a record at the selected root answers as a node must that reports
/// its nearest crossing; and where no root is selected, neither lies in the
/// interval.
pub proof fn lemma_selected_root_is_nearest<M>(
    discriminant: F,
    near: F,
    far: F,
    t_min: F,
    t_max: F,
    record: Option<HitRecord<M>>,
)
    requires
        !discriminant.spec_lt(Scalar { bits: 0 }),
        near.spec_le(far),
        !t_min.nan(),
        !t_max.nan(),
        match spec_select_root(discriminant, near, far, t_min, t_max) {
            Some(root) => record is Some && record->0.t == root,
            None => record is None,
        },
    ensures
        answers_nearest(roots(near, far), t_min, t_max, record),
{
}

impl<M> Sphere<M> {
    pub fn new(centre: Point3, radius: F, material: M) -> (r: Sphere<M>)
        ensures
            r == (Sphere { centre, radius, material }),
    {
        Sphere { centre, radius, material }
    }

    pub fn _centre(&self) -> (r: Point3)
        ensures
            r == self.centre,
    {
        self.centre
    }

    pub fn _radius(&self) -> (r: F)
        ensures
            r == self.radius,
    {
        self.radius
    }
}

} // verus!
