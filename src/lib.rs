//! Multi-layer Buddhabrot histogram accumulation.
//!
//! Coordinates on the complex plane are fixed-point numbers: an `i64` holding
//! the value multiplied by [`fixed::ONE`].
pub mod fixed;
pub mod complex;
pub mod mandelbrot;
pub mod histogram;
pub mod cache;
pub mod color;
