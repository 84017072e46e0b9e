//! Frame effects that work on exact integer pixel values.

pub mod blur;
pub mod dither;
pub mod invert;
pub mod pixelation;
pub mod posterize;
pub mod registry;
pub mod palette;
pub mod sampling;
