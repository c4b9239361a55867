//! Nodes that present another node moved or turned.

use crate::aabb::AABB;
use crate::aarect::Plane;
use crate::hittable::{may_bound, Hittable};
use crate::scalar::Scalar;
use crate::vec3::{Point3, Vec3, F};
use vstd::prelude::*;

verus! {

/// A node moved by `offset`.
pub struct Translate<H> {
    pub object: H,
    pub offset: Vec3,
}

impl<H> Translate<H> {
    pub fn new(object: H, offset: Vec3) -> (r: Translate<H>)
        ensures
            r == (Translate { object, offset }),
    {
        Translate { object, offset }
    }
}

/// A node turned about the axis that stands on `plane`, by the angle whose
/// cosine and sine are given.
pub struct Rotate<H> {
    pub object: H,
    pub plane: Plane,
    pub cos_theta: F,
    pub sin_theta: F,
    pub bbox: Option<AABB>,
}

impl<H> Rotate<H> {
    /// The turned node. `corners` are the corners of the node's own box after
    /// the turn; the box of the turned node is the smallest box around them.
    pub fn new(object: H, plane: Plane, cos_theta: F, sin_theta: F, corners: &Vec<Point3>) -> (r:
        Rotate<H>)
        ensures
            r.object == object,
            r.plane == plane,
            r.cos_theta == cos_theta,
            r.sin_theta == sin_theta,
            r.bbox == Some(AABB::spec_enclosing(corners@)),
    {
        let bbox = Some(AABB::enclosing(corners));
        Rotate { object, plane, cos_theta, sin_theta, bbox }
    }

    /// The box computed at construction, whatever the instants.
    pub fn bounding_box(&self, _time0: F, _time1: F) -> (r: Option<AABB>)
        ensures
            r == self.bbox,
    {
        self.bbox
    }
}

impl<H: Hittable> Rotate<H> {
    /// The box of a node that is about to be turned: the one it reports for
    /// the instants zero and one.
    pub fn box_to_turn(object: &H) -> (r: Option<AABB>)
        ensures
            may_bound(object, Scalar { bits: 0 }, Scalar { bits: crate::scalar::ONE_BITS }, r),
    {
        object.bounding_box(Scalar::zero(), Scalar::one())
    }
}

} // verus!
