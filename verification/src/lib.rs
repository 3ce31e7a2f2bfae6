//! Software rasterizer and star-field simulation for a small desktop
//! animation: stars of varying size drift down a packed BGRA pixel buffer.
//!
//! All positions are fixed-point numbers in thousandths of a pixel, so that
//! every drawing and motion rule is stated and proved over the integers.

pub mod arith;
pub mod color;
pub mod raster;
pub mod buffer;
pub mod vector;
pub mod draw;
pub mod stars;
pub mod random;
pub mod pacer;
pub mod bitmap;
pub mod blit;
