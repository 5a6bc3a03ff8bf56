//! Escape-time rendering of the Mandelbrot set into a grayscale raster:
//! splitting the raster into row bands for parallel workers, filling a band
//! pixel by pixel, and encoding the finished raster as PNG.

pub mod bands;
pub mod encode;
pub mod pair;
pub mod render;
pub mod workers;
