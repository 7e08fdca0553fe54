//! Evaluation engine for fractals drawn from iterated complex maps: escape-time
//! (Mandelbrot and Julia) fractals and Newton root-finding fractals.
//!
//! The engine never touches real arithmetic itself: the point type is a
//! parameter, and every operation on points (the iterated map, the magnitude
//! test, the Newton correction, equality of roots) is a capability handed in by
//! the caller. What the engine decides (when to stop iterating, how a pixel is
//! classified, where its bytes go in the raster, which colour a root gets) is
//! stated and proved here.

pub mod color;
pub mod divergence;
pub mod gate;
pub mod method;
pub mod palette;
pub mod root;
pub mod viewport;
pub mod raster;
pub mod render;
