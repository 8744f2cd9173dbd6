//! Discrete core of a Chladni-plate simulation: plate shapes, the layout of
//! particle and pixel buffers, and the control of bounded rejection sampling.
//!
//! Coordinates pass through this crate untouched. Every function here is
//! generic in the coordinate type or works on integers and booleans only, so
//! that what is proved holds for whatever arithmetic the host computes with.

pub mod error;
pub mod particles;
pub mod raster;
pub mod sampling;
pub mod shape;
