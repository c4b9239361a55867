//! Axis-aligned rectangles and the box made of six of them.

use crate::aabb::AABB;
use crate::scalar::Scalar;
use crate::vec3::{Point3, Vec3, F};
use vstd::pervasive::cloned;
use vstd::prelude::*;

verus! {

/// The coordinate plane that a rectangle is parallel to.
#[derive(Clone, Copy, Debug, PartialEq, Eq, Structural)]
pub enum Plane {
    XY,
    YZ,
    ZX,
}

impl Plane {
    /// The axes of the plane, in the order first, second, and the axis that
    /// stands on it.
    pub open spec fn spec_axes(self) -> (usize, usize, usize) {
        match self {
            Plane::XY => (0, 1, 2),
            Plane::YZ => (1, 2, 0),
            Plane::ZX => (2, 0, 1),
        }
    }

    /// The axes of the plane, in the order first, second, and the axis that
    /// stands on it. The three are a rotation of `(0, 1, 2)`.
    #[verifier::when_used_as_spec(spec_axes_ref)]
    pub fn axes(&self) -> (r: (usize, usize, usize))
        ensures
            r == self.spec_axes(),
            r.0 < 3 && r.1 == (r.0 + 1) % 3 && r.2 == (r.0 + 2) % 3,
    {
        match self {
            Plane::XY => (0, 1, 2),
            Plane::YZ => (1, 2, 0),
            Plane::ZX => (2, 0, 1),
        }
    }

    pub open spec fn spec_axes_ref(&self) -> (usize, usize, usize) {
        self.spec_axes()
    }
}

/// A rectangle in the plane where the coordinate that stands on `plane` is
/// `k`, from `a0` to `a1` on the plane's first axis and from `b0` to `b1` on
/// its second.
pub struct AARect<M> {
    pub plane: Plane,
    pub a0: F,
    pub a1: F,
    pub b0: F,
    pub b1: F,
    pub k: F,
    pub material: M,
}

impl<M> AARect<M> {
    /// Whether the point `(a, b)` of the plane is not outside the rectangle.
    pub open spec fn spec_contains(self, a: F, b: F) -> bool {
        !(a.spec_lt(self.a0) || a.spec_gt(self.a1) || b.spec_lt(self.b0) || b.spec_gt(self.b1))
    }

    /// The unit vector along the axis that stands on the rectangle.
    pub open spec fn spec_outward_normal(self) -> Vec3 {
        Vec3 { x: Scalar { bits: 0 }, y: Scalar { bits: 0 }, z: Scalar { bits: 0 } }.spec_with(
            self.plane.spec_axes().2 as int,
            Scalar { bits: crate::scalar::ONE_BITS },
        )
    }

    /// The corner that has `a` and `b` on the plane's axes and `k` on the
    /// third.
    pub open spec fn spec_corner(self, a: F, b: F, k: F) -> Point3 {
        Vec3 { x: Scalar { bits: 0 }, y: Scalar { bits: 0 }, z: Scalar { bits: 0 } }.spec_with(
            self.plane.spec_axes().0 as int,
            a,
        ).spec_with(self.plane.spec_axes().1 as int, b).spec_with(
            self.plane.spec_axes().2 as int,
            k,
        )
    }

    pub fn new(plane: Plane, a0: F, a1: F, b0: F, b1: F, k: F, material: M) -> (r: AARect<M>)
        ensures
            r == (AARect { plane, a0, a1, b0, b1, k, material }),
    {
        AARect { plane, a0, a1, b0, b1, k, material }
    }

    /// Whether the rectangle holds the point at which a ray meets its plane.
    /// `t` is the ray parameter of that point, `a` and `b` its coordinates on
    /// the plane's two axes. The point counts where `t` is not outside
    /// `[t_min, t_max]` and `(a, b)` not outside the rectangle.
    pub fn is_hit(&self, t: F, a: F, b: F, t_min: F, t_max: F) -> (r: bool)
        ensures
            r == (t.spec_within(t_min, t_max) && self.spec_contains(a, b)),
    {
        if t.lt(t_min) || t.gt(t_max) {
            false
        } else if a.lt(self.a0) || a.gt(self.a1) || b.lt(self.b0) || b.gt(self.b1) {
            false
        } else {
            true
        }
    }

    /// The unit vector along the axis that stands on the rectangle.
    #[verifier::when_used_as_spec(spec_outward_normal_ref)]
    pub fn outward_normal(&self) -> (r: Vec3)
        ensures
            r == self.spec_outward_normal(),
    {
        let (_, _, k_axis) = self.plane.axes();
        let mut n = Vec3::zero();
        n.set(k_axis, Scalar::one());
        n
    }

    pub open spec fn spec_outward_normal_ref(&self) -> Vec3 {
        self.spec_outward_normal()
    }

    /// The box from the rectangle's lower corner at `k_low` to its upper
    /// corner at `k_high`: the rectangle given a thickness.
    pub fn bounding_box(&self, k_low: F, k_high: F) -> (r: AABB)
        ensures
            r.min == self.spec_corner(self.a0, self.b0, k_low),
            r.max == self.spec_corner(self.a1, self.b1, k_high),
    {
        let order = self.plane.axes();
        let mut min = Point3::zero();
        min.set_all(order, (self.a0, self.b0, k_low));
        let mut max = Point3::zero();
        max.set_all(order, (self.a1, self.b1, k_high));
        AABB::new(min, max)
    }
}

/// A box with its six faces.
pub struct AABox<M> {
    pub min: Point3,
    pub max: Point3,
    pub sides: Vec<AARect<M>>,
}

/// The shape of the face `side` of the box from `min` to `max`: the plane,
/// the four bounds and the position. The faces come in pairs, the far one
/// first: the two parallel to XY, then the two parallel to ZX, then the two
/// parallel to YZ.
pub open spec fn box_side(min: Point3, max: Point3, side: int) -> (Plane, F, F, F, F, F) {
    if side == 0 {
        (Plane::XY, min.x, max.x, min.y, max.y, max.z)
    } else if side == 1 {
        (Plane::XY, min.x, max.x, min.y, max.y, min.z)
    } else if side == 2 {
        (Plane::ZX, min.z, max.z, min.x, max.x, max.y)
    } else if side == 3 {
        (Plane::ZX, min.z, max.z, min.x, max.x, min.y)
    } else if side == 4 {
        (Plane::YZ, min.y, max.y, min.z, max.z, max.x)
    } else {
        (Plane::YZ, min.y, max.y, min.z, max.z, min.x)
    }
}

impl<M: Clone> AABox<M> {
    /// The box from `min` to `max`, every face of the given material.
    pub fn new(min: Point3, max: Point3, material: M) -> (r: AABox<M>)
        ensures
            r.min == min,
            r.max == max,
            r.sides@.len() == 6,
            forall|i: int|
                0 <= i < 6 ==> (
                (#[trigger] r.sides@[i]).plane,
                r.sides@[i].a0,
                r.sides@[i].a1,
                r.sides@[i].b0,
                r.sides@[i].b1,
                r.sides@[i].k,
            ) == box_side(min, max, i) && cloned(material, r.sides@[i].material),
    {
        let mut sides: Vec<AARect<M>> = Vec::new();
        sides.push(AARect::new(Plane::XY, min.x, max.x, min.y, max.y, max.z, material.clone()));
        sides.push(AARect::new(Plane::XY, min.x, max.x, min.y, max.y, min.z, material.clone()));
        sides.push(AARect::new(Plane::ZX, min.z, max.z, min.x, max.x, max.y, material.clone()));
        sides.push(AARect::new(Plane::ZX, min.z, max.z, min.x, max.x, min.y, material.clone()));
        sides.push(AARect::new(Plane::YZ, min.y, max.y, min.z, max.z, max.x, material.clone()));
        sides.push(AARect::new(Plane::YZ, min.y, max.y, min.z, max.z, min.x, material));
        AABox { min, max, sides }
    }
}

impl<M> AABox<M> {
    /// The box itself.
    pub fn bounding_box(&self, _time0: F, _time1: F) -> (r: Option<AABB>)
        ensures
            r == Some(AABB { min: self.min, max: self.max }),
    {
        Some(AABB::new(self.min, self.max))
    }
}

} // verus!
