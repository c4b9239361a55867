use raytracer::aabb::AABB;
use raytracer::aarect::{AABox, AARect, Plane};
use raytracer::hittable::{HitRecord, Hittable};
use raytracer::material::{Dielectric, DiffuseLight, Lambertian, Material, Metal, ScatterRecord};
use raytracer::medium::{clip, scatters_inside, ConstantMedium, Isotropic};
use raytracer::moving_sphere::MovingSphere;
use raytracer::numbering::numbered;
use raytracer::perlin::{check_perm, generate_perm, wrap, Perlin, POINT_COUNT};
use raytracer::ray::Ray;
use raytracer::scalar::Scalar;
use raytracer::sphere::Sphere;
use raytracer::texture::{Checkered, SolidColour, Texture, TexturePoint};
use raytracer::transform::{Rotate, Translate};
use raytracer::vec3::{Colour, Point3, Vec3};
use std::cell::RefCell;

fn num_p(x: f64) -> Scalar {
    Scalar::from_bits(x.to_bits())
}

fn float_p(s: Scalar) -> f64 {
    f64::from_bits(s.to_bits())
}

fn pack_p(a: [f64; 3]) -> Vec3 {
    Vec3::new(num_p(a[0]), num_p(a[1]), num_p(a[2]))
}

fn unpack_p(v: Vec3) -> [f64; 3] {
    [float_p(v.x()), float_p(v.y()), float_p(v.z())]
}

/// A node that records what it is asked and answers as told.
struct Probe {
    asked: RefCell<Vec<(f64, f64)>>,
    bounds_asked: RefCell<Vec<(f64, f64)>>,
    answer: Option<f64>,
}

fn probe(answer: Option<f64>) -> Probe {
    Probe { asked: RefCell::new(Vec::new()), bounds_asked: RefCell::new(Vec::new()), answer }
}

impl Hittable for Probe {
    type Material = u8;

    fn hit(&self, _ray: &Ray, t_min: Scalar, t_max: Scalar) -> Option<HitRecord<u8>> {
        self.asked.borrow_mut().push((float_p(t_min), float_p(t_max)));
        self.answer.map(|t| {
            HitRecord::new(
                Point3::zero(),
                Vec3::zero(),
                num_p(t),
                TexturePoint::new(num_p(0.0), num_p(0.0)),
                true,
                3u8,
            )
        })
    }

    fn bounding_box(&self, time0: Scalar, time1: Scalar) -> Option<AABB> {
        self.bounds_asked.borrow_mut().push((float_p(time0), float_p(time1)));
        Some(AABB::new(pack_p([0.0, 1.0, 2.0]), pack_p([3.0, 4.0, 5.0])))
    }
}

#[test]
fn plane_axes_are_rotations() {
    assert_eq!(Plane::XY.axes(), (0, 1, 2));
    assert_eq!(Plane::YZ.axes(), (1, 2, 0));
    assert_eq!(Plane::ZX.axes(), (2, 0, 1));
}

#[test]
fn rectangle_accepts_points_inside_and_in_range() {
    let r = AARect::new(Plane::XY, num_p(3.0), num_p(5.0), num_p(1.0), num_p(3.0), num_p(-2.0), ());
    let (lo, hi) = (num_p(0.001), num_p(f64::INFINITY));
    assert!(r.is_hit(num_p(2.0), num_p(4.0), num_p(2.0), lo, hi));
    assert!(r.is_hit(num_p(2.0), num_p(3.0), num_p(1.0), lo, hi));
    assert!(r.is_hit(num_p(2.0), num_p(5.0), num_p(3.0), lo, hi));
    assert!(!r.is_hit(num_p(2.0), num_p(2.9), num_p(2.0), lo, hi));
    assert!(!r.is_hit(num_p(2.0), num_p(5.1), num_p(2.0), lo, hi));
    assert!(!r.is_hit(num_p(2.0), num_p(4.0), num_p(0.9), lo, hi));
    assert!(!r.is_hit(num_p(2.0), num_p(4.0), num_p(3.1), lo, hi));
    assert!(!r.is_hit(num_p(0.0005), num_p(4.0), num_p(2.0), lo, hi));
    assert!(!r.is_hit(num_p(-2.0), num_p(4.0), num_p(2.0), lo, hi));
    assert!(!r.is_hit(num_p(2.0), num_p(4.0), num_p(2.0), lo, num_p(1.5)));
}

#[test]
fn rectangle_normal_stands_on_its_plane() {
    let on = |plane: Plane| {
        AARect::new(plane, num_p(0.0), num_p(1.0), num_p(0.0), num_p(1.0), num_p(0.0), ()).outward_normal()
    };
    assert_eq!(unpack_p(on(Plane::XY)), [0.0, 0.0, 1.0]);
    assert_eq!(unpack_p(on(Plane::YZ)), [1.0, 0.0, 0.0]);
    assert_eq!(unpack_p(on(Plane::ZX)), [0.0, 1.0, 0.0]);
}

#[test]
fn rectangle_box_follows_the_axes_of_the_plane() {
    let on = |plane: Plane| {
        AARect::new(plane, num_p(3.0), num_p(5.0), num_p(1.0), num_p(2.0), num_p(7.0), ())
            .bounding_box(num_p(6.9999), num_p(7.0001))
    };
    assert_eq!(unpack_p(on(Plane::XY).min()), [3.0, 1.0, 6.9999]);
    assert_eq!(unpack_p(on(Plane::XY).max()), [5.0, 2.0, 7.0001]);
    assert_eq!(unpack_p(on(Plane::YZ).min()), [6.9999, 3.0, 1.0]);
    assert_eq!(unpack_p(on(Plane::YZ).max()), [7.0001, 5.0, 2.0]);
    assert_eq!(unpack_p(on(Plane::ZX).min()), [1.0, 6.9999, 3.0]);
    assert_eq!(unpack_p(on(Plane::ZX).max()), [2.0, 7.0001, 5.0]);
}

#[test]
fn box_has_six_faces() {
    let b = AABox::new(pack_p([1.0, 2.0, 3.0]), pack_p([4.0, 5.0, 6.0]), 9u8);
    assert_eq!(b.sides.len(), 6);
    let shape = |i: usize| {
        let s = &b.sides[i];
        (s.plane, float_p(s.a0), float_p(s.a1), float_p(s.b0), float_p(s.b1), float_p(s.k), s.material)
    };
    assert_eq!(shape(0), (Plane::XY, 1.0, 4.0, 2.0, 5.0, 6.0, 9));
    assert_eq!(shape(1), (Plane::XY, 1.0, 4.0, 2.0, 5.0, 3.0, 9));
    assert_eq!(shape(2), (Plane::ZX, 3.0, 6.0, 1.0, 4.0, 5.0, 9));
    assert_eq!(shape(3), (Plane::ZX, 3.0, 6.0, 1.0, 4.0, 2.0, 9));
    assert_eq!(shape(4), (Plane::YZ, 2.0, 5.0, 3.0, 6.0, 4.0, 9));
    assert_eq!(shape(5), (Plane::YZ, 2.0, 5.0, 3.0, 6.0, 1.0, 9));
    assert_eq!(
        b.bounding_box(num_p(0.0), num_p(1.0)),
        Some(AABB::new(pack_p([1.0, 2.0, 3.0]), pack_p([4.0, 5.0, 6.0])))
    );
}

#[test]
fn constructors_keep_what_they_are_given() {
    let s = Sphere::new(pack_p([1.0, 2.0, 3.0]), num_p(0.5), 4u8);
    assert_eq!(unpack_p(s._centre()), [1.0, 2.0, 3.0]);
    assert_eq!(float_p(s._radius()), 0.5);
    assert_eq!(s.material, 4);
    let m = MovingSphere::new(pack_p([0.0; 3]), pack_p([1.0; 3]), num_p(0.0), num_p(1.0), num_p(0.2), 5u8);
    assert_eq!(unpack_p(m.centre1), [1.0; 3]);
    assert_eq!(float_p(m.time1), 1.0);
    assert_eq!(float_p(m.radius), 0.2);
    let t = Translate::new(6u8, pack_p([265.0, 0.0, 295.0]));
    assert_eq!(t.object, 6);
    assert_eq!(unpack_p(t.offset), [265.0, 0.0, 295.0]);
    let r = Ray::new(pack_p([1.0, 2.0, 3.0]), pack_p([4.0, 5.0, 6.0]), num_p(0.5));
    assert_eq!(unpack_p(r.origin()), [1.0, 2.0, 3.0]);
    assert_eq!(unpack_p(r.direction()), [4.0, 5.0, 6.0]);
    assert_eq!(float_p(r.time()), 0.5);
    let sc = ScatterRecord::new(r, pack_p([0.1, 0.2, 0.3]));
    assert_eq!(*sc.ray(), r);
    assert_eq!(unpack_p(sc.colour()), [0.1, 0.2, 0.3]);
    let tp = TexturePoint::new(num_p(0.25), num_p(0.75));
    assert_eq!(float_p(tp.u()), 0.25);
    assert_eq!(float_p(tp.v()), 0.75);
    assert_eq!(Isotropic::new(7u8).albedo, 7);
    assert_eq!(Lambertian::new(8u8).albedo, 8);
    assert_eq!(unpack_p(Lambertian::colour(pack_p([0.4, 0.2, 0.1])).albedo.colour), [0.4, 0.2, 0.1]);
    assert_eq!(float_p(Dielectric::new(num_p(1.5)).refractive_index), 1.5);
}

#[test]
fn rotation_box_encloses_the_turned_corners() {
    let object = probe(None);
    let own = Rotate::box_to_turn(&object).unwrap();
    assert_eq!(*object.bounds_asked.borrow(), vec![(0.0, 1.0)]);
    // a quarter turn about y: x becomes z, z becomes minus x
    let turned: Vec<Vec3> = own
        .corners()
        .iter()
        .map(|c| {
            let p = unpack_p(*c);
            pack_p([p[2], p[1], -p[0]])
        })
        .collect();
    let r = Rotate::new(object, Plane::ZX, num_p(0.0), num_p(1.0), &turned);
    let b = r.bounding_box(num_p(0.0), num_p(1.0)).unwrap();
    assert_eq!(unpack_p(b.min()), [2.0, 1.0, -3.0]);
    assert_eq!(unpack_p(b.max()), [5.0, 4.0, -0.0]);
    assert_eq!(r.plane, Plane::ZX);
    assert_eq!(float_p(r.cos_theta), 0.0);
    assert_eq!(float_p(r.sin_theta), 1.0);
}

#[test]
fn lambertian_degenerate_direction_falls_back_to_the_normal() {
    let normal = [1.0, 0.0, 0.0];
    let offset = [-1.0, 0.0, 0.0];
    let candidate = [normal[0] + offset[0], normal[1] + offset[1], normal[2] + offset[2]];
    let length_squared =
        candidate[0] * candidate[0] + candidate[1] * candidate[1] + candidate[2] * candidate[2];
    let d = Lambertian::<SolidColour>::scatter_direction(
        pack_p(normal),
        pack_p(candidate),
        num_p(length_squared),
    );
    assert_eq!(unpack_p(d), [1.0, 0.0, 0.0]);
}

#[test]
fn lambertian_keeps_a_direction_that_is_long_enough() {
    let d = Lambertian::<SolidColour>::scatter_direction(
        pack_p([1.0, 0.0, 0.0]),
        pack_p([1.0, 1.0, 0.0]),
        num_p(2.0),
    );
    assert_eq!(unpack_p(d), [1.0, 1.0, 0.0]);
    let short = Lambertian::<SolidColour>::scatter_direction(
        pack_p([0.0, 1.0, 0.0]),
        pack_p([1e-6, 0.0, 0.0]),
        num_p(1e-12),
    );
    assert_eq!(unpack_p(short), [0.0, 1.0, 0.0]);
    let just = Lambertian::<SolidColour>::scatter_direction(
        pack_p([0.0, 1.0, 0.0]),
        pack_p([1e-5, 0.0, 0.0]),
        num_p(1e-10),
    );
    assert_eq!(unpack_p(just), [1e-5, 0.0, 0.0]);
}

#[test]
fn metal_fuzz_is_clamped_to_the_unit_interval() {
    assert_eq!(float_p(Metal::new(Colour::one(), num_p(0.3)).fuzz), 0.3);
    assert_eq!(float_p(Metal::new(Colour::one(), num_p(0.0)).fuzz), 0.0);
    assert_eq!(float_p(Metal::new(Colour::one(), num_p(1.0)).fuzz), 1.0);
    assert_eq!(float_p(Metal::new(Colour::one(), num_p(0.999)).fuzz), 0.999);
    assert_eq!(float_p(Metal::new(Colour::one(), num_p(7.0)).fuzz), 1.0);
    assert_eq!(float_p(Metal::new(Colour::one(), num_p(f64::INFINITY)).fuzz), 1.0);
    assert_eq!(float_p(Metal::new(Colour::one(), num_p(f64::NAN)).fuzz), 1.0);
    assert_eq!(Metal::new(Colour::one(), num_p(-0.5)).fuzz, num_p(0.0));
    assert_eq!(Metal::new(Colour::one(), num_p(-2.0)).fuzz, num_p(0.0));
    assert_eq!(Metal::new(Colour::one(), num_p(f64::NEG_INFINITY)).fuzz, num_p(0.0));
    assert_eq!(Metal::new(Colour::one(), num_p(-1e-300)).fuzz, num_p(0.0));
    // a metal made with a fuzz outside the interval is the metal of the nearer end
    assert_eq!(Metal::new(Colour::one(), num_p(7.0)), Metal::new(Colour::one(), num_p(1.0)));
    assert_eq!(Metal::new(Colour::one(), num_p(-0.5)), Metal::new(Colour::one(), num_p(0.0)));
    assert_eq!(unpack_p(Metal::new(pack_p([0.7, 0.6, 0.5]), num_p(0.0)).albedo), [0.7, 0.6, 0.5]);
}

#[test]
fn metal_absorbs_rays_into_the_surface() {
    assert!(Metal::scatters(num_p(0.2)));
    assert!(!Metal::scatters(num_p(0.0)));
    assert!(!Metal::scatters(num_p(-0.0)));
    assert!(!Metal::scatters(num_p(-0.2)));
    assert!(!Metal::scatters(num_p(f64::NAN)));
}

#[test]
fn dielectric_total_internal_reflection() {
    // from inside glass of index 1.5, at an angle whose sine exceeds 1 / 1.5
    let glass = Dielectric::new(num_p(1.5));
    let ratio = float_p(glass.refractive_ratio(false, num_p(1.0 / 1.5)));
    assert_eq!(ratio, 1.5);
    for &sin_theta in [0.667, 0.7, 0.9, 1.0].iter() {
        for &reflectance in [0.0, 0.04, 0.5, 1.0].iter() {
            for &draw in [0.0, 0.1, 0.5, 0.999_999].iter() {
                assert!(Dielectric::reflects(num_p(ratio * sin_theta), num_p(reflectance), num_p(draw)));
            }
        }
    }
}

#[test]
fn dielectric_otherwise_follows_the_draw() {
    let glass = Dielectric::new(num_p(1.5));
    let ratio = float_p(glass.refractive_ratio(true, num_p(1.0 / 1.5)));
    assert_eq!(ratio, 1.0 / 1.5);
    assert!(Dielectric::reflects(num_p(ratio * 0.5), num_p(0.3), num_p(0.2)));
    assert!(!Dielectric::reflects(num_p(ratio * 0.5), num_p(0.3), num_p(0.3)));
    assert!(!Dielectric::reflects(num_p(ratio * 0.5), num_p(0.3), num_p(0.9)));
    assert!(!Dielectric::reflects(num_p(1.0), num_p(0.3), num_p(0.9)));
    assert!(Dielectric::reflects(num_p(1.0000001), num_p(0.3), num_p(0.9)));
}

#[test]
fn light_emits_its_texture_and_scatters_nothing() {
    let lamp = DiffuseLight::colour(pack_p([15.0, 15.0, 15.0]));
    let tp = TexturePoint::new(num_p(0.5), num_p(0.5));
    assert_eq!(unpack_p(lamp.emit(tp, Point3::zero())), [15.0, 15.0, 15.0]);
    let record = HitRecord::new(Point3::zero(), Vec3::zero(), num_p(1.0), tp, true, lamp);
    let r = Ray::new(Point3::zero(), Vec3::one(), num_p(0.0));
    assert!(record.material().scatter(&r, &record).is_none());
    let other = DiffuseLight::new(SolidColour::rgb(num_p(1.0), num_p(2.0), num_p(3.0)));
    assert_eq!(unpack_p(other.emit(tp, Point3::one())), [1.0, 2.0, 3.0]);
}

#[test]
fn textures_without_arithmetic() {
    let tp = TexturePoint::new(num_p(0.1), num_p(0.9));
    let solid = SolidColour::new(pack_p([0.2, 0.3, 0.1]));
    assert_eq!(unpack_p(solid.value(tp, Point3::one())), [0.2, 0.3, 0.1]);
    let board = Checkered::colour(pack_p([0.2, 0.3, 0.1]), pack_p([0.9, 0.9, 0.9]));
    assert_eq!(unpack_p(board.select(num_p(-0.5)).colour), [0.2, 0.3, 0.1]);
    assert_eq!(unpack_p(board.select(num_p(0.5)).colour), [0.9, 0.9, 0.9]);
    assert_eq!(unpack_p(board.select(num_p(0.0)).colour), [0.9, 0.9, 0.9]);
    assert_eq!(unpack_p(board.select(num_p(-0.0)).colour), [0.9, 0.9, 0.9]);
    let nested = Checkered::new(1u8, 2u8);
    assert_eq!(*nested.select(num_p(-1e-9)), 1);
    assert_eq!(*nested.select(num_p(f64::NAN)), 2);
}

#[test]
fn medium_clips_the_crossing_to_the_query() {
    let cut = |a: f64, b: f64, lo: f64, hi: f64| {
        clip(num_p(a), num_p(b), num_p(lo), num_p(hi)).map(|(x, y)| (float_p(x), float_p(y)))
    };
    assert_eq!(cut(2.0, 5.0, 0.001, f64::INFINITY), Some((2.0, 5.0)));
    assert_eq!(cut(2.0, 5.0, 3.0, 4.0), Some((3.0, 4.0)));
    assert_eq!(cut(-2.0, 5.0, -10.0, f64::INFINITY), Some((0.0, 5.0)));
    assert_eq!(cut(-2.0, 5.0, 0.001, f64::INFINITY), Some((0.001, 5.0)));
    assert_eq!(cut(2.0, 5.0, 6.0, 9.0), None);
    assert_eq!(cut(2.0, 5.0, 0.001, 1.0), None);
    assert_eq!(cut(-5.0, -2.0, 0.001, f64::INFINITY), None);
    assert_eq!(cut(2.0, 5.0, 5.0, 9.0), Some((5.0, 5.0)));
}

#[test]
fn medium_scatters_within_its_boundary() {
    assert!(scatters_inside(num_p(1.0), num_p(3.0)));
    assert!(scatters_inside(num_p(3.0), num_p(3.0)));
    assert!(!scatters_inside(num_p(3.5), num_p(3.0)));
    assert!(!scatters_inside(num_p(f64::INFINITY), num_p(3.0)));
}

#[test]
fn medium_asks_its_boundary_over_the_whole_line() {
    let m = ConstantMedium::new(probe(Some(2.0)), 1u8, num_p(-100.0));
    let r = Ray::new(Point3::zero(), Vec3::one(), num_p(0.0));
    assert_eq!(float_p(m.entry(&r).unwrap().t()), 2.0);
    assert_eq!(float_p(m.exit(&r, num_p(2.001)).unwrap().t()), 2.0);
    assert_eq!(
        *m.boundary.asked.borrow(),
        vec![(f64::NEG_INFINITY, f64::INFINITY), (2.001, f64::INFINITY)]
    );
    assert_eq!(
        m.bounding_box(num_p(0.25), num_p(0.75)),
        Some(AABB::new(pack_p([0.0, 1.0, 2.0]), pack_p([3.0, 4.0, 5.0])))
    );
    assert_eq!(*m.boundary.bounds_asked.borrow(), vec![(0.25, 0.75)]);
    assert_eq!(float_p(m.neg_inv_density), -100.0);
    assert_eq!(m.phase_function, 1);
}

#[test]
fn permutations_hold_every_index_once() {
    for _ in 0..5 {
        let perm = generate_perm();
        assert_eq!(perm.len(), POINT_COUNT);
        let mut sorted = perm.clone();
        sorted.sort();
        assert_eq!(sorted, (0..POINT_COUNT).collect::<Vec<usize>>());
        assert!(check_perm(&perm));
    }
    let shuffled = (0..20).any(|_| generate_perm() != numbered(POINT_COUNT));
    assert!(shuffled);
}

#[test]
fn permutation_check_rejects_bad_tables() {
    let mut perm = numbered(POINT_COUNT);
    assert!(check_perm(&perm));
    perm.swap(3, 200);
    assert!(check_perm(&perm));
    perm[7] = 8;
    assert!(!check_perm(&perm));
    perm[7] = 256;
    assert!(!check_perm(&perm));
    assert!(!check_perm(&numbered(255)));
    assert!(!check_perm(&numbered(257)));
    assert!(!check_perm(&Vec::new()));
}

#[test]
fn coordinates_wrap_into_the_tables() {
    assert_eq!(wrap(0, 0), 0);
    assert_eq!(wrap(0, 1), 1);
    assert_eq!(wrap(255, 0), 255);
    assert_eq!(wrap(255, 1), 0);
    assert_eq!(wrap(256, 0), 0);
    assert_eq!(wrap(1000, 1), 1001 % 256);
    assert_eq!(wrap(-1, 0), 255);
    assert_eq!(wrap(-1, 1), 0);
    assert_eq!(wrap(-256, 0), 0);
    assert_eq!(wrap(-257, 0), 255);
    assert_eq!(wrap(i32::MAX, 0), 255);
    assert_eq!(wrap(i32::MAX, 1), 0);
    assert_eq!(wrap(i32::MIN, 0), 0);
    for i in -600..600 {
        assert_eq!(wrap(i, 1), ((i + 1) as usize) & 255);
    }
}

#[test]
fn lattice_looks_vectors_up_through_the_permutations() {
    let vectors: Vec<Vec3> = (0..POINT_COUNT).map(|i| pack_p([i as f64, 0.0, 0.0])).collect();
    let mut px = numbered(POINT_COUNT);
    px.reverse();
    let mut py = numbered(POINT_COUNT);
    py.rotate_left(3);
    let pz = numbered(POINT_COUNT);
    let lattice = Perlin::with_perms(vectors.clone(), px.clone(), py.clone(), pz.clone()).unwrap();
    assert_eq!(*lattice.perm_x(), px);
    assert_eq!(*lattice.perm_y(), py);
    assert_eq!(*lattice.perm_z(), pz);
    for &(i, j, k) in [(0, 0, 0), (1, 2, 3), (-1, -2, -3), (255, 256, 257), (-700, 900, 12345)].iter() {
        let cell = lattice.corners(i, j, k);
        assert_eq!(cell.len(), 8);
        for di in 0..2u8 {
            for dj in 0..2u8 {
                for dk in 0..2u8 {
                    let expected = px[((i + di as i32) as usize) & 255]
                        ^ py[((j + dj as i32) as usize) & 255]
                        ^ pz[((k + dk as i32) as usize) & 255];
                    let got = lattice.vector_at(i, j, k, di, dj, dk);
                    assert_eq!(unpack_p(got), [expected as f64, 0.0, 0.0]);
                    assert_eq!(cell[(4 * di + 2 * dj + dk) as usize], got);
                }
            }
        }
    }
    // (0, 0, 0): 255 ^ 3 ^ 0
    assert_eq!(unpack_p(lattice.vector_at(0, 0, 0, 0, 0, 0)), [252.0, 0.0, 0.0]);
}

#[test]
fn lattice_needs_full_tables() {
    let vectors: Vec<Vec3> = (0..POINT_COUNT).map(|_| Vec3::zero()).collect();
    assert!(Perlin::new(vectors.clone()).is_some());
    assert!(Perlin::new(vectors[1..].to_vec()).is_none());
    assert!(Perlin::new(Vec::new()).is_none());
    let id = numbered(POINT_COUNT);
    assert!(Perlin::with_perms(vectors.clone(), id.clone(), id.clone(), numbered(10)).is_none());
    let mut twice = id.clone();
    twice[0] = 1;
    assert!(Perlin::with_perms(vectors.clone(), twice, id.clone(), id.clone()).is_none());
    assert!(Perlin::with_perms(vectors[1..].to_vec(), id.clone(), id.clone(), id.clone()).is_none());
    let made = Perlin::new(vectors).unwrap();
    assert!(check_perm(made.perm_x()));
    assert!(check_perm(made.perm_y()));
    assert!(check_perm(made.perm_z()));
}
