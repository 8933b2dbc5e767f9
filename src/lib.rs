//! Escape-time rendering of the Mandelbrot set: the decisions of the escape loop, the
//! intensity of each pixel, and the split of an image buffer into one-row bands that are
//! rendered on their own.
pub mod escape;
pub mod tile;
