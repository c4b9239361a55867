//! The intersection and light transport core of a ray tracer.
//!
//! The library holds the scene graph (primitives, transforms, media, lists and
//! bounding volume hierarchies), the materials, and the decisions that a ray
//! tracer takes on them: which root of a quadratic counts, whether a slab test
//! passes, which of two hits is nearer, how a hierarchy is split and walked,
//! when a path ends. Numbers are [`scalar::Scalar`] values, ordered exactly;
//! the arithmetic that produces them belongs to the caller.

pub mod scalar;
pub mod numbering;
pub mod vec3;
pub mod ray;
pub mod aabb;
pub mod texture;
pub mod hittable;
pub mod bvh;
pub mod aarect;
pub mod sphere;
pub mod moving_sphere;
pub mod transform;
pub mod material;
pub mod medium;
pub mod perlin;
