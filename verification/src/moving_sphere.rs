//! Spheres in linear motion.

use crate::vec3::{Point3, F};
use vstd::prelude::*;

verus! {

/// A sphere whose centre moves from `centre0` at `time0` to `centre1` at
/// `time1`. The root of a ray's intersection quadratic that counts is found
/// as for a sphere at rest, with [`crate::sphere::select_root`].
pub struct MovingSphere<M> {
    pub centre0: Point3,
    pub centre1: Point3,
    pub time0: F,
    pub time1: F,
    pub radius: F,
    pub material: M,
}

impl<M> MovingSphere<M> {
    pub fn new(centre0: Point3, centre1: Point3, time0: F, time1: F, radius: F, material: M) -> (r:
        MovingSphere<M>)
        ensures
            r == (MovingSphere { centre0, centre1, time0, time1, radius, material }),
    {
        MovingSphere { centre0, centre1, time0, time1, radius, material }
    }
}

} // verus!
