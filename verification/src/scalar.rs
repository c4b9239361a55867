//! Real numbers as the library sees them.
//!
//! A [`Scalar`] carries the IEEE 754 binary64 bit pattern of a number. The
//! library never does arithmetic on scalars: it moves them, negates them and
//! orders them, and all three can be done exactly on the bit pattern. Sums,
//! products, roots and the like are computed by the caller and handed in.
//!
//! The order is described by two functions of the pattern: [`Scalar::is_nan`]
//! and the rank [`Scalar::ord`], an integer that grows with the number. Both
//! zeros have rank 0, so they compare equal, and a NaN compares false with
//! everything, itself included.

use vstd::prelude::*;

verus! {

/// The sign bit of a binary64 pattern.
pub const SIGN_BIT: u64 = 0x8000_0000_0000_0000;

/// The pattern of positive infinity: the largest magnitude that is a number.
pub const INFINITY_BITS: u64 = 0x7FF0_0000_0000_0000;

/// The pattern of `1.0`.
pub const ONE_BITS: u64 = 0x3FF0_0000_0000_0000;

/// A binary64 number, held as its bit pattern.
#[derive(Clone, Copy, Debug, PartialEq, Eq, Structural)]
pub struct Scalar {
    pub bits: u64,
}

impl Scalar {
    /// The pattern without its sign bit.
    pub open spec fn magnitude(self) -> int {
        if self.bits >= SIGN_BIT {
            self.bits - SIGN_BIT
        } else {
            self.bits as int
        }
    }

    /// Whether the sign bit is set (true of `-0.0` and of some NaNs too).
    pub open spec fn sign(self) -> bool {
        self.bits >= SIGN_BIT
    }

    /// Whether the pattern is not a number.
    pub open spec fn nan(self) -> bool {
        self.magnitude() > INFINITY_BITS
    }

    /// The rank of the number: for two numbers that are not NaN, the smaller
    /// number has the smaller rank, and equal numbers have equal ranks.
    pub open spec fn ord(self) -> int {
        if self.sign() {
            -self.magnitude()
        } else {
            self.magnitude()
        }
    }

    /// `self < other` as IEEE 754 defines it.
    pub open spec fn spec_lt(self, other: Scalar) -> bool {
        !self.nan() && !other.nan() && self.ord() < other.ord()
    }

    /// `self <= other` as IEEE 754 defines it.
    pub open spec fn spec_le(self, other: Scalar) -> bool {
        !self.nan() && !other.nan() && self.ord() <= other.ord()
    }

    /// `self > other` as IEEE 754 defines it.
    pub open spec fn spec_gt(self, other: Scalar) -> bool {
        other.spec_lt(self)
    }

    /// `self >= other` as IEEE 754 defines it.
    pub open spec fn spec_ge(self, other: Scalar) -> bool {
        other.spec_le(self)
    }

    /// `self == other` as IEEE 754 defines it: by value, not by pattern.
    pub open spec fn spec_equals(self, other: Scalar) -> bool {
        !self.nan() && !other.nan() && self.ord() == other.ord()
    }

    /// The larger of two numbers. A NaN is ignored in favour of the other
    /// argument; of two equal numbers the first is returned.
    pub open spec fn spec_max(self, other: Scalar) -> Scalar {
        if self.nan() {
            other
        } else if other.nan() {
            self
        } else if self.ord() < other.ord() {
            other
        } else {
            self
        }
    }

    /// The smaller of two numbers. A NaN is ignored in favour of the other
    /// argument; of two equal numbers the first is returned.
    pub open spec fn spec_min(self, other: Scalar) -> Scalar {
        if self.nan() {
            other
        } else if other.nan() {
            self
        } else if other.ord() < self.ord() {
            other
        } else {
            self
        }
    }

    /// The number with the opposite sign.
    pub open spec fn spec_neg(self) -> Scalar {
        if self.bits >= SIGN_BIT {
            Scalar { bits: (self.bits - SIGN_BIT) as u64 }
        } else {
            Scalar { bits: (self.bits + SIGN_BIT) as u64 }
        }
    }

    /// The number without its sign.
    pub open spec fn spec_abs(self) -> Scalar {
        if self.bits >= SIGN_BIT {
            Scalar { bits: (self.bits - SIGN_BIT) as u64 }
        } else {
            self
        }
    }

    /// `!(self < low || self > high)`: what an interval test that rejects by
    /// these two comparisons lets through. A NaN passes it.
    pub open spec fn spec_within(self, low: Scalar, high: Scalar) -> bool {
        !self.spec_lt(low) && !self.spec_gt(high)
    }

    /// The scalar with the given bit pattern.
    pub fn from_bits(bits: u64) -> (r: Scalar)
        ensures
            r.bits == bits,
    {
        Scalar { bits }
    }

    /// The bit pattern.
    pub fn to_bits(self) -> (r: u64)
        ensures
            r == self.bits,
    {
        self.bits
    }

    /// `0.0`.
    pub fn zero() -> (r: Scalar)
        ensures
            r.bits == 0,
            !r.nan(),
            r.ord() == 0,
    {
        Scalar { bits: 0 }
    }

    /// `1.0`.
    pub fn one() -> (r: Scalar)
        ensures
            r.bits == ONE_BITS,
            !r.nan(),
            r.ord() == ONE_BITS,
    {
        Scalar { bits: ONE_BITS }
    }

    /// Positive infinity: no number is greater.
    pub fn infinity() -> (r: Scalar)
        ensures
            r.bits == INFINITY_BITS,
            !r.nan(),
            forall|x: Scalar| !x.nan() ==> x.spec_le(r),
    {
        Scalar { bits: INFINITY_BITS }
    }

    /// Negative infinity: no number is smaller.
    pub fn neg_infinity() -> (r: Scalar)
        ensures
            r.bits == SIGN_BIT + INFINITY_BITS,
            !r.nan(),
            forall|x: Scalar| !x.nan() ==> r.spec_le(x),
    {
        Scalar { bits: SIGN_BIT + INFINITY_BITS }
    }

    /// Whether the pattern is not a number.
    #[verifier::when_used_as_spec(nan)]
    pub fn is_nan(self) -> (r: bool)
        ensures
            r == self.nan(),
    {
        if self.bits >= SIGN_BIT {
            self.bits - SIGN_BIT > INFINITY_BITS
        } else {
            self.bits > INFINITY_BITS
        }
    }

    /// The rank as a machine integer.
    pub fn rank(self) -> (r: i64)
        ensures
            r == self.ord(),
    {
        if self.bits >= SIGN_BIT {
            let m: u64 = self.bits - SIGN_BIT;
            0 - (m as i64)
        } else {
            self.bits as i64
        }
    }

    /// `self < other`.
    #[verifier::when_used_as_spec(spec_lt)]
    pub fn lt(self, other: Scalar) -> (r: bool)
        ensures
            r == self.spec_lt(other),
    {
        !self.is_nan() && !other.is_nan() && self.rank() < other.rank()
    }

    /// `self <= other`.
    #[verifier::when_used_as_spec(spec_le)]
    pub fn le(self, other: Scalar) -> (r: bool)
        ensures
            r == self.spec_le(other),
    {
        !self.is_nan() && !other.is_nan() && self.rank() <= other.rank()
    }

    /// `self > other`.
    #[verifier::when_used_as_spec(spec_gt)]
    pub fn gt(self, other: Scalar) -> (r: bool)
        ensures
            r == self.spec_gt(other),
    {
        other.lt(self)
    }

    /// `self >= other`.
    #[verifier::when_used_as_spec(spec_ge)]
    pub fn ge(self, other: Scalar) -> (r: bool)
        ensures
            r == self.spec_ge(other),
    {
        other.le(self)
    }

    /// `self == other` by value: the two zeros are equal, a NaN equals nothing.
    #[verifier::when_used_as_spec(spec_equals)]
    pub fn equals(self, other: Scalar) -> (r: bool)
        ensures
            r == self.spec_equals(other),
    {
        !self.is_nan() && !other.is_nan() && self.rank() == other.rank()
    }

    /// The larger of the two, ignoring a NaN.
    #[verifier::when_used_as_spec(spec_max)]
    pub fn max(self, other: Scalar) -> (r: Scalar)
        ensures
            r == self.spec_max(other),
    {
        if self.is_nan() {
            other
        } else if other.is_nan() {
            self
        } else if self.rank() < other.rank() {
            other
        } else {
            self
        }
    }

    /// The smaller of the two, ignoring a NaN.
    #[verifier::when_used_as_spec(spec_min)]
    pub fn min(self, other: Scalar) -> (r: Scalar)
        ensures
            r == self.spec_min(other),
    {
        if self.is_nan() {
            other
        } else if other.is_nan() {
            self
        } else if other.rank() < self.rank() {
            other
        } else {
            self
        }
    }

    /// `-self`: the sign bit flipped, whatever the pattern.
    #[verifier::when_used_as_spec(spec_neg)]
    pub fn neg(self) -> (r: Scalar)
        ensures
            r == self.spec_neg(),
            r.nan() == self.nan(),
            r.ord() == -self.ord(),
    {
        if self.bits >= SIGN_BIT {
            Scalar { bits: self.bits - SIGN_BIT }
        } else {
            Scalar { bits: self.bits + SIGN_BIT }
        }
    }

    /// `|self|`: the sign bit cleared.
    #[verifier::when_used_as_spec(spec_abs)]
    pub fn abs(self) -> (r: Scalar)
        ensures
            r == self.spec_abs(),
            r.nan() == self.nan(),
            r.ord() == self.magnitude(),
    {
        if self.bits >= SIGN_BIT {
            Scalar { bits: self.bits - SIGN_BIT }
        } else {
            self
        }
    }

    /// Whether neither `self < low` nor `self > high` holds.
    #[verifier::when_used_as_spec(spec_within)]
    pub fn within(self, low: Scalar, high: Scalar) -> (r: bool)
        ensures
            r == self.spec_within(low, high),
    {
        !self.lt(low) && !self.gt(high)
    }
}

} // verus!
