//! A verified low-level vision pipeline over 8-bit RGB raster images.
//!
//! The library provides a generic integer convolution engine and the classic
//! transform stages built on it: greyscale reduction, Gaussian smoothing,
//! Sobel gradients with a quantized direction field, non-maximum suppression,
//! three-level thresholding, directional blob linking, and the per-pixel
//! maximum used to combine an oriented filter bank. A filename classifier for
//! capture metadata is included as well. Image decoding and encoding are left
//! to the caller.

pub mod blur;
pub mod blob;
pub mod convolve;
pub mod gabor;
pub mod greyscale;
pub mod image_details;
pub mod kernel;
pub mod pixel;
pub mod sobel;
pub mod suppress;
pub mod threshold;
