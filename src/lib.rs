//! Verified control logic of a Monte Carlo path tracer: the life cycle of one
//! light path through the scene, and the order in which pixels are produced.

pub mod path;
pub mod raster;
