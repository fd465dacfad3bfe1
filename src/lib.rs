//! Decoding of NOAA APT satellite audio into a grayscale raster.
//!
//! The pipeline runs on integer PCM samples: resampling to the APT rate,
//! a single-pole low-pass filter, a forward-window peak envelope detector,
//! per-line synchronisation on the sync wedge train, and rendering to an
//! 8-bit image with contrast normalisation.
mod raster;
pub mod resample;
pub mod filter;
pub mod envelope;
pub mod sync;
pub mod render;
pub mod pipeline;
pub mod laws;

pub use raster::{raster_height, raster_pixels, raster_width, Raster};
