//! A ray tracer for triangle meshes: a bounding-volume hierarchy, the search
//! of a ray through it, and an integrator that follows rays through the
//! scene and renders a picture.
//!
//! Coordinates and colours are single-precision numbers held as bit
//! patterns ([`scalar::Scalar`]).  The library orders and moves them;
//! arithmetic on them is done by functions that the caller hands in.

pub mod aabb;
pub mod bvh;
pub mod hit;
pub mod obj_loader;
pub mod ppm_writer;
pub mod random;
pub mod render;
pub mod scalar;
pub mod scene;
pub mod search;
pub mod tiling;
pub mod triangle;
pub mod vec3;
