//! Region-aware Gaussian blur core.
//!
//! The library decodes a raster image into an RGBA pixel buffer, blurs
//! caller-supplied rectangular regions with a normalized square
//! convolution kernel (kernel taps that fall outside the image are
//! clamped onto its nearest edge pixel), composites the blurred
//! regions back in input order, and re-encodes the result as JPEG.
//! Regions are clamped to the image extent; degenerate regions are
//! dropped silently. Every region's blur samples the untouched source,
//! so regions are independent of one another however they overlap.

pub mod buffer;
pub mod region;
pub mod kernel;
pub mod engine;
pub mod laws;
pub mod codec;
