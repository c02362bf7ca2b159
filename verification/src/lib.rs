//! Swirl portraits: a raster image becomes a single continuous contour, an
//! Archimedean spiral whose local thickness follows the luminance of the
//! underlying picture.
//!
//! All geometry is carried in fixed-point integers: coordinates in
//! thousandths of a pixel ("milli-pixels"), unit direction vectors scaled by
//! a billion ("nano-units"). Every function here is verified; decoding,
//! resizing and command-line handling live outside the library and hand it
//! plain pixel buffers.

pub mod contour;
pub mod fixed;
pub mod geometry;
pub mod sampler;
pub mod svg;
pub mod swirlr;
