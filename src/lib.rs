//! Conversion of raster images into text: resampling, greyscale reduction,
//! error-diffusion dithering and glyph mapping, each stated and proved over
//! plain byte buffers.
pub mod layout;
pub mod greyscaling;
pub mod dithering;
pub mod ascii_image;
pub mod resizing;
pub mod config;
pub mod convert;
mod text;
