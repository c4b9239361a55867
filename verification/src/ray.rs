//! Rays, and the paths that light takes back along them.

use crate::hittable::{may_hit, HitRecord, Hittable};
use crate::material::{may_emit, may_scatter, Material, ScatterRecord};
use crate::scalar::Scalar;
use crate::vec3::{Colour, Point3, Vec3, F};
use vstd::prelude::*;

verus! {

/// A half line `origin + t * direction`, cast at the instant `time`.
#[derive(Clone, Copy, Debug, PartialEq, Eq, Structural)]
pub struct Ray {
    pub origin: Point3,
    pub direction: Vec3,
    pub time: F,
}

impl Ray {
    pub fn new(origin: Vec3, direction: Vec3, time: F) -> (r: Ray)
        ensures
            r == (Ray { origin, direction, time }),
    {
        Ray { origin, direction, time }
    }

    pub fn origin(&self) -> (r: Vec3)
        ensures
            r == self.origin,
    {
        self.origin
    }

    pub fn direction(&self) -> (r: Vec3)
        ensures
            r == self.direction,
    {
        self.direction
    }

    pub fn time(&self) -> (r: F)
        ensures
            r == self.time,
    {
        self.time
    }
}

/// The 0.001 from which on a path looks for its next hit, as a bit pattern.
/// A hit nearer than this is the surface that the ray has just left.
pub const NEAREST_HIT_BITS: u64 = 0x3F50_624D_D2F1_A9FC;

/// One surface on the way of a path: the light it gives off itself, and the
/// colour by which it attenuates the light that reaches it from farther on.
#[derive(Clone, Copy, Debug, PartialEq, Eq, Structural)]
pub struct Bounce {
    pub emitted: Colour,
    pub attenuation: Colour,
}

/// How a path ends.
#[derive(Clone, Copy, Debug, PartialEq, Eq, Structural)]
pub enum PathEnd {
    /// The path used up its depth. No light comes from here.
    Exhausted,
    /// The ray left the scene. The background lights the path.
    Escaped(Colour),
    /// The ray hit a surface that did not scatter it. What the surface gives
    /// off lights the path.
    Absorbed(Colour),
}

impl PathEnd {
    /// The light at the end of the path.
    pub open spec fn spec_colour(self) -> Colour {
        match self {
            PathEnd::Exhausted => Vec3 {
                x: Scalar { bits: 0 },
                y: Scalar { bits: 0 },
                z: Scalar { bits: 0 },
            },
            PathEnd::Escaped(background) => background,
            PathEnd::Absorbed(emitted) => emitted,
        }
    }

    /// The light at the end of the path: black, the background, or what the
    /// last surface gives off.
    #[verifier::when_used_as_spec(spec_colour_ref)]
    pub fn colour(&self) -> (c: Colour)
        ensures
            c == self.spec_colour(),
    {
        match self {
            PathEnd::Exhausted => Colour::zero(),
            PathEnd::Escaped(background) => *background,
            PathEnd::Absorbed(emitted) => *emitted,
        }
    }

    pub open spec fn spec_colour_ref(&self) -> Colour {
        self.spec_colour()
    }
}

/// The path of one ray through the scene.
///
/// The bounces stand in the order in which light travels: the one nearest the
/// end of the path first, the one that the ray from the camera hit last. The
/// light that arrives at the camera is found by starting from the colour of
/// `end` and, bounce after bounce, multiplying by the attenuation and adding
/// what the surface emits.
pub struct LightPath {
    pub bounces: Vec<Bounce>,
    pub end: PathEnd,
}

/// What following `ray` for up to `depth` hits may give.
///
/// With no depth left the path is exhausted. Else the world is asked for the
/// nearest hit from 0.001 on. On a miss the ray has escaped to the
/// background. On a hit the surface is asked what it emits and how it
/// scatters: where it does not scatter, the path ends absorbed with what was
/// emitted; where it does, the hit is the last bounce of the path and the rest
/// is what following the scattered ray gives with one hit less to go.
pub open spec fn traced<M: Material, W: Hittable<Material = M>>(
    world: &W,
    ray: Ray,
    background: Colour,
    depth: nat,
    bounces: Seq<Bounce>,
    end: PathEnd,
) -> bool
    decreases depth,
{
    if depth == 0 {
        bounces.len() == 0 && end == PathEnd::Exhausted
    } else {
        exists|hit: Option<HitRecord<M>>|
            #[trigger] may_hit(
                world,
                &ray,
                Scalar { bits: NEAREST_HIT_BITS },
                Scalar { bits: crate::scalar::INFINITY_BITS },
                hit,
            ) && match hit {
                None => bounces.len() == 0 && end == PathEnd::Escaped(background),
                Some(record) => exists|emitted: Colour, scattered: Option<ScatterRecord>|
                    #![trigger
                        may_emit(&record.material, record.tp, record.p, emitted),
                        may_scatter(&record.material, &ray, &record, scattered),
                    ]
                    may_emit(&record.material, record.tp, record.p, emitted) && may_scatter(
                        &record.material,
                        &ray,
                        &record,
                        scattered,
                    ) && match scattered {
                        None => bounces.len() == 0 && end == PathEnd::Absorbed(emitted),
                        Some(onward) => bounces.len() > 0 && bounces.last() == (Bounce {
                            emitted,
                            attenuation: onward.colour,
                        }) && traced(
                            world,
                            onward.ray,
                            background,
                            (depth - 1) as nat,
                            bounces.drop_last(),
                            end,
                        ),
                    },
            }
    }
}

/// Follows a ray through the world for up to `depth` hits and returns the
/// path that the light takes back along it.
pub fn ray_colour<M: Material, W: Hittable<Material = M>>(
    ray_in: &Ray,
    background: Colour,
    world: &W,
    depth: u32,
) -> (path: LightPath)
    ensures
        traced(world, *ray_in, background, depth as nat, path.bounces@, path.end),
        path.bounces@.len() <= depth,
        path.end == PathEnd::Exhausted <==> path.bounces@.len() == depth,
    decreases depth,
{
    if depth == 0 {
        return LightPath { bounces: Vec::new(), end: PathEnd::Exhausted };
    }
    let found = world.hit(
        ray_in,
        Scalar::from_bits(NEAREST_HIT_BITS),
        Scalar::from_bits(crate::scalar::INFINITY_BITS),
    );
    assert(may_hit(
        world,
        ray_in,
        Scalar { bits: NEAREST_HIT_BITS },
        Scalar { bits: crate::scalar::INFINITY_BITS },
        found,
    ));
    match found {
        None => LightPath { bounces: Vec::new(), end: PathEnd::Escaped(background) },
        Some(hit_record) => {
            let emitted = hit_record.material().emit(hit_record.tp(), hit_record.p());
            let scattered = hit_record.material().scatter(ray_in, &hit_record);
            assert(may_emit(&hit_record.material, hit_record.tp, hit_record.p, emitted));
            assert(may_scatter(&hit_record.material, ray_in, &hit_record, scattered));
            match scattered {
                None => LightPath { bounces: Vec::new(), end: PathEnd::Absorbed(emitted) },
                Some(scatter_record) => {
                    let mut path = ray_colour(scatter_record.ray(), background, world, depth - 1);
                    let ghost rest = path.bounces@;
                    path.bounces.push(Bounce { emitted, attenuation: scatter_record.colour() });
                    proof {
                        assert(path.bounces@.drop_last() =~= rest);
                    }
                    path
                },
            }
        },
    }
}

} // verus!
