//! Raster to braille-art conversion: brightness sampling, error-diffusion
//! dithering, braille glyph encoding and the decisions of the video frame
//! pipeline.
pub mod braille;
pub mod brightness;
pub mod console;
pub mod dithering;
pub mod error;
pub mod img2braille;
pub mod raster;
pub mod sampler;
pub mod session;
pub mod text;
pub mod vid2braille;

pub use error::CoreError;
