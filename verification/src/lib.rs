//! A small recursive ray tracer over saturating fixed-point arithmetic.
//!
//! A [`camera::Camera`] sends rays through the pixels of an image into a
//! [`world::World`] of spheres and planes. Each ray carries back the color of
//! what it meets: the surface's [`material::Material`] scatters it, and the
//! scattered ray is traced in turn until it leaves the scene, is absorbed, or
//! has no bounce left.
//!
//! All numbers are [`fixed::Fixed`]: multiples of `2^-64` up to `2^60` in
//! magnitude. Products, scalar products and norms are formed exactly and
//! rounded once, toward zero. Every operation is total: a result beyond the
//! range is clamped to its end. What a clamped number went into is not
//! geometry any more, so a shape whose intersection would need one lies
//! beyond a ray's reach and is not hit: squared distances leave the range
//! from `2^30` on. The laws that bound rounding say so in steps of `2^-64`.
//!
//! Random draws are made lazily; beside each function that draws stands one
//! that takes the draws as an argument and is specified exactly.

pub mod fixed;
pub mod vec3;
pub mod utils;
pub mod ray;
pub mod material;
pub mod objects;
pub mod world;
pub mod camera;
pub mod image;
