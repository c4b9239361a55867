use raytracer::scalar::{Scalar, INFINITY_BITS, ONE_BITS, SIGN_BIT};
use raytracer::vec3::{clamp, Vec3, NEAR_ZERO_BITS};

fn num(x: f64) -> Scalar {
    Scalar::from_bits(x.to_bits())
}

fn float(s: Scalar) -> f64 {
    f64::from_bits(s.to_bits())
}

fn samples() -> Vec<f64> {
    vec![
        0.0,
        -0.0,
        1.0,
        -1.0,
        0.5,
        0.001,
        0.999,
        1e-300,
        -1e-300,
        5e-324,
        -5e-324,
        1e300,
        -1e300,
        f64::MAX,
        f64::MIN,
        f64::MIN_POSITIVE,
        f64::INFINITY,
        f64::NEG_INFINITY,
        f64::NAN,
        -f64::NAN,
    ]
}

fn same_value(a: f64, b: f64) -> bool {
    (a.is_nan() && b.is_nan()) || a == b
}

#[test]
fn comparisons_agree_with_the_machine() {
    for &a in samples().iter() {
        for &b in samples().iter() {
            assert_eq!(num(a).lt(num(b)), a < b, "{} < {}", a, b);
            assert_eq!(num(a).le(num(b)), a <= b, "{} <= {}", a, b);
            assert_eq!(num(a).gt(num(b)), a > b, "{} > {}", a, b);
            assert_eq!(num(a).ge(num(b)), a >= b, "{} >= {}", a, b);
            assert_eq!(num(a).equals(num(b)), a == b, "{} == {}", a, b);
        }
    }
}

#[test]
fn rank_orders_numbers() {
    let mut sorted: Vec<f64> = samples().into_iter().filter(|x| !x.is_nan()).collect();
    sorted.sort_by(|a, b| a.partial_cmp(b).unwrap());
    for pair in sorted.windows(2) {
        let (a, b) = (pair[0], pair[1]);
        if a == b {
            assert_eq!(num(a).rank(), num(b).rank());
        } else {
            assert!(num(a).rank() < num(b).rank(), "{} {}", a, b);
        }
    }
    assert_eq!(num(0.0).rank(), 0);
    assert_eq!(num(-0.0).rank(), 0);
    assert_eq!(num(1.0).rank(), 0x3FF0_0000_0000_0000);
    assert_eq!(num(-1.0).rank(), -0x3FF0_0000_0000_0000);
}

#[test]
fn max_and_min_ignore_nan() {
    for &a in samples().iter() {
        for &b in samples().iter() {
            let hi = float(num(a).max(num(b)));
            let lo = float(num(a).min(num(b)));
            assert!(same_value(hi, a.max(b)), "max {} {} gave {}", a, b, hi);
            assert!(same_value(lo, a.min(b)), "min {} {} gave {}", a, b, lo);
        }
    }
    assert_eq!(num(2.0).max(num(f64::NAN)), num(2.0));
    assert_eq!(num(f64::NAN).min(num(2.0)), num(2.0));
    assert_eq!(num(3.0).max(num(2.0)), num(3.0));
    assert_eq!(num(3.0).min(num(2.0)), num(2.0));
}

#[test]
fn neg_and_abs_are_exact() {
    for &a in samples().iter() {
        assert_eq!(num(a).neg().to_bits(), (-a).to_bits(), "-{}", a);
        assert_eq!(num(a).abs().to_bits(), a.abs().to_bits(), "|{}|", a);
    }
    assert_eq!(num(1.5).neg(), num(-1.5));
    assert_eq!(num(-1.5).abs(), num(1.5));
}

#[test]
fn nan_is_recognised() {
    for &a in samples().iter() {
        assert_eq!(num(a).is_nan(), a.is_nan(), "{}", a);
    }
}

#[test]
fn constants_have_their_patterns() {
    assert_eq!(Scalar::zero().to_bits(), 0.0f64.to_bits());
    assert_eq!(Scalar::one().to_bits(), 1.0f64.to_bits());
    assert_eq!(Scalar::infinity().to_bits(), f64::INFINITY.to_bits());
    assert_eq!(Scalar::neg_infinity().to_bits(), f64::NEG_INFINITY.to_bits());
    assert_eq!(ONE_BITS, 1.0f64.to_bits());
    assert_eq!(INFINITY_BITS, f64::INFINITY.to_bits());
    assert_eq!(SIGN_BIT, (-0.0f64).to_bits());
    assert_eq!(NEAR_ZERO_BITS, 1e-10f64.to_bits());
    assert_eq!(Scalar::from_bits(7).to_bits(), 7);
}

#[test]
fn within_lets_through_what_two_comparisons_do() {
    for &t in samples().iter() {
        for &(lo, hi) in [(0.001, f64::INFINITY), (-1.0, 1.0), (f64::NAN, 1.0), (0.0, f64::NAN)].iter() {
            let expected = !(t < lo || t > hi);
            assert_eq!(num(t).within(num(lo), num(hi)), expected, "{} in [{}, {}]", t, lo, hi);
        }
    }
    assert!(num(0.5).within(num(0.001), num(f64::INFINITY)));
    assert!(!num(0.0005).within(num(0.001), num(f64::INFINITY)));
    assert!(num(f64::NAN).within(num(0.0), num(1.0)));
}

#[test]
fn clamp_cuts_at_both_ends() {
    assert_eq!(clamp(num(-0.5), num(0.0), num(0.999)), num(0.0));
    assert_eq!(clamp(num(2.0), num(0.0), num(0.999)), num(0.999));
    assert_eq!(clamp(num(0.25), num(0.0), num(0.999)), num(0.25));
    assert_eq!(clamp(num(0.0), num(0.0), num(1.0)), num(0.0));
    assert_eq!(clamp(num(1.0), num(0.0), num(1.0)), num(1.0));
    assert!(clamp(num(f64::NAN), num(0.0), num(1.0)).is_nan());
    for &x in samples().iter() {
        let expected = if x < 0.0 {
            0.0
        } else if x > 0.999 {
            0.999
        } else {
            x
        };
        assert_eq!(clamp(num(x), num(0.0), num(0.999)).to_bits(), expected.to_bits(), "{}", x);
    }
}

#[test]
fn vectors_index_and_update() {
    let mut v = Vec3::new(num(1.0), num(2.0), num(3.0));
    assert_eq!(v.x(), num(1.0));
    assert_eq!(v.y(), num(2.0));
    assert_eq!(v.z(), num(3.0));
    assert_eq!(v.ix(0), num(1.0));
    assert_eq!(v.ix(1), num(2.0));
    assert_eq!(v.ix(2), num(3.0));
    v.set(1, num(5.0));
    assert_eq!(v, Vec3::new(num(1.0), num(5.0), num(3.0)));
    v.set_all((2, 0, 1), (num(7.0), num(8.0), num(9.0)));
    assert_eq!(v, Vec3::new(num(8.0), num(9.0), num(7.0)));
    assert_eq!(Vec3::zero(), Vec3::new(num(0.0), num(0.0), num(0.0)));
    assert_eq!(Vec3::one(), Vec3::new(num(1.0), num(1.0), num(1.0)));
}

#[test]
fn vector_negation_flips_every_sign() {
    let v = Vec3::new(num(1.0), num(-2.0), num(0.0));
    assert_eq!(v.neg(), Vec3::new(num(-1.0), num(2.0), num(-0.0)));
    assert_eq!(v.neg().neg(), v);
}

#[test]
fn near_zero_is_below_ten_to_the_minus_ten() {
    assert!(Vec3::near_zero(num(0.0)));
    assert!(Vec3::near_zero(num(9.9e-11)));
    assert!(!Vec3::near_zero(num(1e-10)));
    assert!(!Vec3::near_zero(num(1.0)));
    assert!(!Vec3::near_zero(num(f64::NAN)));
}
