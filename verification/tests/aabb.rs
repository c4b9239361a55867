use raytracer::aabb::{Slab, AABB};
use raytracer::scalar::Scalar;
use raytracer::vec3::Vec3;

fn num_b(x: f64) -> Scalar {
    Scalar::from_bits(x.to_bits())
}

fn float_b(s: Scalar) -> f64 {
    f64::from_bits(s.to_bits())
}

fn point_b(x: f64, y: f64, z: f64) -> Vec3 {
    Vec3::new(num_b(x), num_b(y), num_b(z))
}

fn cube(lo: [f64; 3], hi: [f64; 3]) -> AABB {
    AABB::new(point_b(lo[0], lo[1], lo[2]), point_b(hi[0], hi[1], hi[2]))
}

/// The crossings of a ray with the planes of a box, as a renderer computes them.
fn crossings(b: &AABB, origin: [f64; 3], direction: [f64; 3]) -> [Slab; 3] {
    let mut out = [Slab::new(num_b(0.0), num_b(0.0), num_b(0.0)); 3];
    for i in 0..3 {
        let inv = 1.0 / direction[i];
        let t0 = (float_b(b.min().ix(i)) - origin[i]) * inv;
        let t1 = (float_b(b.max().ix(i)) - origin[i]) * inv;
        out[i] = Slab::new(num_b(inv), num_b(t0), num_b(t1));
    }
    out
}

/// Every lower bound below every upper bound, axis by axis, with no running state.
fn brute_force(b: &AABB, origin: [f64; 3], direction: [f64; 3], t_min: f64, t_max: f64) -> bool {
    let mut lows = vec![t_min];
    let mut highs = vec![t_max];
    for i in 0..3 {
        let a = (float_b(b.min().ix(i)) - origin[i]) / direction[i];
        let c = (float_b(b.max().ix(i)) - origin[i]) / direction[i];
        lows.push(if a < c { a } else { c });
        highs.push(if a < c { c } else { a });
    }
    lows.iter().all(|l| highs.iter().all(|h| l < h))
}

#[test]
fn surrounding_box_takes_least_and_greatest() {
    let a = cube([0.0, -1.0, 2.0], [1.0, 1.0, 3.0]);
    let b = cube([-2.0, 0.0, 2.5], [0.5, 4.0, 2.75]);
    let u = AABB::surrounding_box(a, b);
    assert_eq!(u, cube([-2.0, -1.0, 2.0], [1.0, 4.0, 3.0]));
    assert_eq!(AABB::surrounding_box(b, a), u);
    assert_eq!(AABB::surrounding_box(a, a), a);
    assert!(u.is_valid());
}

#[test]
fn validity_needs_ordered_numbers() {
    assert!(cube([0.0, 0.0, 0.0], [1.0, 1.0, 1.0]).is_valid());
    assert!(cube([0.0, 0.0, 0.0], [0.0, 0.0, 0.0]).is_valid());
    assert!(!cube([2.0, 0.0, 0.0], [1.0, 1.0, 1.0]).is_valid());
    assert!(!cube([0.0, 0.0, 0.0], [1.0, f64::NAN, 1.0]).is_valid());
}

#[test]
fn box_compare_orders_by_minimum_corner() {
    let a = cube([0.0, 5.0, -1.0], [9.0, 9.0, 9.0]);
    let b = cube([1.0, 4.0, -1.0], [2.0, 5.0, 0.0]);
    assert!(AABB::box_compare(&a, &b, 0));
    assert!(!AABB::box_compare(&b, &a, 0));
    assert!(!AABB::box_compare(&a, &b, 1));
    assert!(AABB::box_compare(&b, &a, 1));
    assert!(!AABB::box_compare(&a, &b, 2));
    assert!(!AABB::box_compare(&b, &a, 2));
}

#[test]
fn slab_test_hits_and_misses() {
    let b = cube([-1.0, -1.0, -3.0], [1.0, 1.0, -2.0]);
    let towards = crossings(&b, [0.0, 0.0, 0.0], [0.1, 0.1, -1.0]);
    assert!(AABB::hit(&towards, num_b(0.001), num_b(f64::INFINITY)));
    // the box lies between t = 2 and t = 3
    assert!(!AABB::hit(&towards, num_b(0.001), num_b(1.9)));
    assert!(!AABB::hit(&towards, num_b(3.1), num_b(10.0)));
    assert!(AABB::hit(&towards, num_b(2.5), num_b(2.6)));
    let away = crossings(&b, [0.0, 0.0, 0.0], [0.1, 0.1, 1.0]);
    assert!(!AABB::hit(&away, num_b(0.001), num_b(f64::INFINITY)));
    let beside = crossings(&b, [5.0, 0.0, 0.0], [0.1, 0.1, -1.0]);
    assert!(!AABB::hit(&beside, num_b(0.001), num_b(f64::INFINITY)));
}

#[test]
fn slab_test_handles_every_sign_of_direction() {
    let b = cube([-1.0, -1.0, -1.0], [1.0, 1.0, 1.0]);
    for &sx in [-1.0, 1.0].iter() {
        for &sy in [-1.0, 1.0].iter() {
            for &sz in [-1.0, 1.0].iter() {
                let origin = [-3.0 * sx, -3.0 * sy, -3.0 * sz];
                let through = crossings(&b, origin, [sx, sy, sz]);
                assert!(AABB::hit(&through, num_b(0.001), num_b(f64::INFINITY)));
                let off = crossings(&b, origin, [-sx, -sy, -sz]);
                assert!(!AABB::hit(&off, num_b(0.001), num_b(f64::INFINITY)));
            }
        }
    }
}

#[test]
fn slab_test_agrees_with_brute_force() {
    let boxes = [
        cube([-1.0, -1.0, -1.0], [1.0, 1.0, 1.0]),
        cube([0.5, 2.0, -4.0], [3.0, 2.5, -1.0]),
        cube([-10.0, -0.25, 0.0], [10.0, 0.25, 0.125]),
    ];
    let coordinates = [-4.0, -1.5, -0.3, 0.2, 0.9, 2.2, 5.0];
    let components = [-2.0, -0.7, -0.1, 0.1, 0.6, 1.5];
    let intervals = [(0.001, f64::INFINITY), (0.0, 1.0), (2.0, 3.0), (-5.0, 5.0), (1.0, 0.5)];
    let mut hits = 0;
    let mut misses = 0;
    for b in boxes.iter() {
        for &ox in coordinates.iter() {
            for &oy in coordinates.iter() {
                for &dx in components.iter() {
                    for &dy in components.iter() {
                        for &dz in components.iter() {
                            for &(lo, hi) in intervals.iter() {
                                let origin = [ox, oy, 0.5 * ox - oy];
                                let direction = [dx, dy, dz];
                                let expected = brute_force(b, origin, direction, lo, hi);
                                let got = AABB::hit(
                                    &crossings(b, origin, direction),
                                    num_b(lo),
                                    num_b(hi),
                                );
                                assert_eq!(got, expected);
                                if got {
                                    hits += 1;
                                } else {
                                    misses += 1;
                                }
                            }
                        }
                    }
                }
            }
        }
    }
    assert!(hits > 100);
    assert!(misses > 100);
}

#[test]
fn slab_test_with_zero_direction_component() {
    let b = cube([-1.0, -1.0, -1.0], [1.0, 1.0, 1.0]);
    // parallel to x, inside the slabs of y and z
    let inside = crossings(&b, [-5.0, 0.0, 0.0], [1.0, 0.0, 0.0]);
    assert_eq!(float_b(inside[1].t0), f64::NEG_INFINITY);
    assert_eq!(float_b(inside[1].t1), f64::INFINITY);
    assert!(AABB::hit(&inside, num_b(0.001), num_b(f64::INFINITY)));
    // parallel to x, outside the slab of y
    let outside = crossings(&b, [-5.0, 2.0, 0.0], [1.0, 0.0, 0.0]);
    assert_eq!(float_b(outside[1].t1), f64::NEG_INFINITY);
    assert!(!AABB::hit(&outside, num_b(0.001), num_b(f64::INFINITY)));
    let outside_below = crossings(&b, [-5.0, -2.0, 0.0], [1.0, 0.0, 0.0]);
    assert_eq!(float_b(outside_below[1].t0), f64::INFINITY);
    assert!(!AABB::hit(&outside_below, num_b(0.001), num_b(f64::INFINITY)));
    // running in the plane y = 1 of the box: the crossing with it is a NaN and cuts nothing
    let grazing = crossings(&b, [-5.0, 1.0, 0.0], [1.0, 0.0, 0.0]);
    assert!(grazing[1].t1.is_nan());
    assert!(AABB::hit(&grazing, num_b(0.001), num_b(f64::INFINITY)));
    // a negative zero gives a negative infinite reciprocal
    let backwards = crossings(&b, [-5.0, 0.0, 0.0], [1.0, -0.0, 0.0]);
    assert!(AABB::hit(&backwards, num_b(0.001), num_b(f64::INFINITY)));
}

#[test]
fn slab_test_needs_positive_length() {
    let b = cube([-1.0, -1.0, -1.0], [1.0, 1.0, 1.0]);
    let through = crossings(&b, [-3.0, 0.0, 0.0], [1.0, 0.1, 0.1]);
    assert!(!AABB::hit(&through, num_b(3.0), num_b(3.0)));
    assert!(!AABB::hit(&through, num_b(4.0), num_b(2.0)));
    // touching the box's far face only
    assert!(!AABB::hit(&through, num_b(4.0), num_b(9.0)));
}

#[test]
fn corners_come_in_binary_order() {
    let b = cube([0.0, 10.0, 20.0], [1.0, 11.0, 21.0]);
    let c = b.corners();
    assert_eq!(c.len(), 8);
    assert_eq!(c[0], point_b(0.0, 10.0, 20.0));
    assert_eq!(c[1], point_b(0.0, 10.0, 21.0));
    assert_eq!(c[2], point_b(0.0, 11.0, 20.0));
    assert_eq!(c[3], point_b(0.0, 11.0, 21.0));
    assert_eq!(c[4], point_b(1.0, 10.0, 20.0));
    assert_eq!(c[5], point_b(1.0, 10.0, 21.0));
    assert_eq!(c[6], point_b(1.0, 11.0, 20.0));
    assert_eq!(c[7], point_b(1.0, 11.0, 21.0));
}

#[test]
fn enclosing_box_is_tight_on_all_three_axes() {
    let points = vec![
        point_b(1.0, -2.0, 3.0),
        point_b(-4.0, 5.0, 0.5),
        point_b(0.0, 0.0, -6.0),
        point_b(2.0, 2.0, 2.0),
    ];
    assert_eq!(AABB::enclosing(&points), cube([-4.0, -2.0, -6.0], [2.0, 5.0, 3.0]));
    let one = vec![point_b(1.0, 2.0, 3.0)];
    assert_eq!(AABB::enclosing(&one), cube([1.0, 2.0, 3.0], [1.0, 2.0, 3.0]));
    let none: Vec<Vec3> = Vec::new();
    let nothing = AABB::enclosing(&none);
    assert_eq!(float_b(nothing.min().x()), f64::INFINITY);
    assert_eq!(float_b(nothing.max().z()), f64::NEG_INFINITY);
    assert!(!nothing.is_valid());
}

#[test]
fn extend_grows_only_where_needed() {
    let b = cube([0.0, 0.0, 0.0], [1.0, 1.0, 1.0]);
    assert_eq!(b.extend(point_b(0.5, 0.5, 0.5)), b);
    assert_eq!(b.extend(point_b(2.0, 0.5, -1.0)), cube([0.0, 0.0, -1.0], [2.0, 1.0, 1.0]));
}
