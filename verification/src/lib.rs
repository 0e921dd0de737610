//! A small, fully verified raster-image enhancement engine.
//!
//! The library offers point-wise and histogram-based transforms over
//! in-memory images: RGB/HSV color conversion, inversion, brightness
//! shift, manual and automatic (Otsu) thresholding, and linear contrast
//! stretching. All color arithmetic is exact rational arithmetic over
//! machine integers, so every contract is stated and proved exactly.

pub mod color;
pub mod contrast;
pub mod histogram;
pub mod otsu;
pub mod point_ops;
pub mod raster;
pub mod round_trip;
