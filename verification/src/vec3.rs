//! Triples of scalars: points, directions and colours.

use crate::scalar::Scalar;
use vstd::prelude::*;

verus! {

/// The 10^-10 below which a squared length counts as zero, as a bit pattern.
pub const NEAR_ZERO_BITS: u64 = 0x3DDB_7CDF_D9D7_BDBB;

pub type F = Scalar;

pub type Colour = Vec3;

pub type Point3 = Vec3;

/// Three scalars. Which of point, direction or colour a value is depends on
/// where it is used.
#[derive(Clone, Copy, Debug, PartialEq, Eq, Structural)]
pub struct Vec3 {
    pub x: F,
    pub y: F,
    pub z: F,
}

impl Vec3 {
    /// The component on axis 0, 1 or 2.
    pub open spec fn spec_ix(self, axis: int) -> F {
        if axis == 0 {
            self.x
        } else if axis == 1 {
            self.y
        } else {
            self.z
        }
    }

    /// The vector with one component replaced.
    pub open spec fn spec_with(self, axis: int, value: F) -> Vec3 {
        if axis == 0 {
            Vec3 { x: value, y: self.y, z: self.z }
        } else if axis == 1 {
            Vec3 { x: self.x, y: value, z: self.z }
        } else {
            Vec3 { x: self.x, y: self.y, z: value }
        }
    }

    /// The vector with every component negated.
    pub open spec fn spec_neg(self) -> Vec3 {
        Vec3 { x: self.x.spec_neg(), y: self.y.spec_neg(), z: self.z.spec_neg() }
    }

    /// Whether no component is a NaN.
    pub open spec fn is_number(self) -> bool {
        !self.x.nan() && !self.y.nan() && !self.z.nan()
    }

    pub fn new(x: F, y: F, z: F) -> (r: Vec3)
        ensures
            r == (Vec3 { x, y, z }),
    {
        Vec3 { x, y, z }
    }

    /// `(0, 0, 0)`.
    pub fn zero() -> (r: Vec3)
        ensures
            r == (Vec3 { x: Scalar { bits: 0 }, y: Scalar { bits: 0 }, z: Scalar { bits: 0 } }),
    {
        Vec3 { x: Scalar::zero(), y: Scalar::zero(), z: Scalar::zero() }
    }

    /// `(1, 1, 1)`.
    pub fn one() -> (r: Vec3)
        ensures
            r == (Vec3 {
                x: Scalar { bits: crate::scalar::ONE_BITS },
                y: Scalar { bits: crate::scalar::ONE_BITS },
                z: Scalar { bits: crate::scalar::ONE_BITS },
            }),
    {
        Vec3 { x: Scalar::one(), y: Scalar::one(), z: Scalar::one() }
    }

    pub fn x(&self) -> (r: F)
        ensures
            r == self.x,
    {
        self.x
    }

    pub fn y(&self) -> (r: F)
        ensures
            r == self.y,
    {
        self.y
    }

    pub fn z(&self) -> (r: F)
        ensures
            r == self.z,
    {
        self.z
    }

    /// The component on `axis`.
    #[verifier::when_used_as_spec(spec_ix_usize)]
    pub fn ix(&self, axis: usize) -> (r: F)
        requires
            axis < 3,
        ensures
            r == self.spec_ix(axis as int),
    {
        if axis == 0 {
            self.x
        } else if axis == 1 {
            self.y
        } else {
            self.z
        }
    }

    pub open spec fn spec_ix_usize(&self, axis: usize) -> F {
        self.spec_ix(axis as int)
    }

    /// Replaces the component on `axis`.
    pub fn set(&mut self, axis: usize, value: F)
        requires
            axis < 3,
        ensures
            *final(self) == old(self).spec_with(axis as int, value),
    {
        if axis == 0 {
            self.x = value;
        } else if axis == 1 {
            self.y = value;
        } else {
            self.z = value;
        }
    }

    /// Places three values on three axes: `values.0` on `order.0`, and so on.
    /// Where two of the axes are the same, the later value stays.
    pub fn set_all(&mut self, order: (usize, usize, usize), values: (F, F, F))
        requires
            order.0 < 3,
            order.1 < 3,
            order.2 < 3,
        ensures
            *final(self) == old(self).spec_with(order.0 as int, values.0).spec_with(
                order.1 as int,
                values.1,
            ).spec_with(order.2 as int, values.2),
    {
        self.set(order.0, values.0);
        self.set(order.1, values.1);
        self.set(order.2, values.2);
    }

    /// `-self`, exact on every component.
    #[verifier::when_used_as_spec(spec_neg)]
    pub fn neg(self) -> (r: Vec3)
        ensures
            r == self.spec_neg(),
    {
        Vec3 { x: self.x.neg(), y: self.y.neg(), z: self.z.neg() }
    }

    /// Whether a vector whose squared length is `length_squared` is too short
    /// to give a direction: shorter than 10^-5.
    pub fn near_zero(length_squared: F) -> (r: bool)
        ensures
            r == length_squared.spec_lt(Scalar { bits: NEAR_ZERO_BITS }),
    {
        length_squared.lt(Scalar::from_bits(NEAR_ZERO_BITS))
    }
}

/// `min` where `x < min`, `max` where `x > max`, else `x`. A NaN comes back
/// unchanged, and so does any `x` where one of the bounds is a NaN and the
/// other does not cut.
pub open spec fn spec_clamp(x: F, min: F, max: F) -> F {
    if x.spec_lt(min) {
        min
    } else if x.spec_gt(max) {
        max
    } else {
        x
    }
}

/// Brings `x` into `[min, max]`.
#[verifier::when_used_as_spec(spec_clamp)]
pub fn clamp(x: F, min: F, max: F) -> (r: F)
    ensures
        r == spec_clamp(x, min, max),
        !x.nan() && min.spec_le(max) ==> min.spec_le(r) && r.spec_le(max),
{
    if x.lt(min) {
        min
    } else if x.gt(max) {
        max
    } else {
        x
    }
}

} // verus!
