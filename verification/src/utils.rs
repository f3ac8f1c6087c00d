//! Numeric helpers shared by the tracer.

pub mod helpers;
pub mod interval;
