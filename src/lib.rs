//! An escape-time fractal raster: a gradient table from iteration counts to
//! colours, and a pixel buffer filled from the counts that a fixed number of
//! workers compute, each over its own contiguous slice.

pub mod color;
pub mod complex;
pub mod universe;

pub use color::PixelColor;
pub use complex::Complex;
pub use universe::{ConfigError, MandelbrotUniverse, RenderError};
