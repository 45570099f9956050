//! Structural core of a recursive ray tracer: the frame buffer and its pixel
//! order, mesh-file line parsing and index validation, the checkerboard cell
//! rule and the bounded recursion of the integrator.

pub mod model;
pub mod plane;
pub mod raster;
pub mod render;
