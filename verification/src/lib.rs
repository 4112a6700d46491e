//! Chroma-key background substitution over in-memory pixel buffers.
//!
//! The library infers the dominant background hue of a source image from a
//! hue histogram and then replaces every pixel whose hue lies within a
//! tolerance band of that dominant hue (and whose saturation and value clear
//! fixed thresholds) with the pixel of a background image at the same
//! position. All color arithmetic is exact: hue, saturation and value are
//! rationals over the 8-bit channel values, so the whole pipeline is
//! deterministic and bit-reproducible.

pub mod compositor;
pub mod estimator;
pub mod histogram;
pub mod pixel;
