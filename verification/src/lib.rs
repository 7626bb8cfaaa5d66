//! A ray-tracing core over fixed-point arithmetic.
//!
//! Every scalar is an `i64` holding a real value scaled by [`fx::SCALE`];
//! the geometry, intersection and shading logic is exact integer
//! arithmetic with floor rounding, so its behaviour can be stated and
//! verified precisely.

pub mod aabb;
pub mod bvh;
pub mod camera;
pub mod color;
pub mod fx;
pub mod hittable;
pub mod hittable_list;
pub mod quad;
pub mod sphere;
pub mod interval;
pub mod material;
pub mod perlin;
pub mod texture;
pub mod ray;
pub mod rng;
pub mod scenes;
pub mod vec3;
