//! The shapes a ray can meet.

pub mod object;
pub mod plane;
pub mod sphere;
