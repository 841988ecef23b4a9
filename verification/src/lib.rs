//! An exact, integer-only rasteriser for a single anti-aliased triangle,
//! with a binary pixel-map encoder for the resulting image.

pub mod coord;
pub mod image;
pub mod line;
pub mod pipeline;
pub mod ppm;
pub mod raster;
pub mod surd;
pub mod triangle;
