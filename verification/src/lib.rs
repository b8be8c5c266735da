//! A verified 2D software rasterizer core.
//!
//! The library draws lines and gradient-filled triangles onto a pixel
//! canvas: an incremental (DDA) line rasterizer, a scanline triangle
//! fill built on it, per-pixel linear color interpolation, and
//! alpha-compositing of painted pixels over existing canvas content.
//! Coordinates are exact fixed-point values; every painting routine is
//! specified by, and proved equal to, a mathematical replay of the
//! algorithm it implements.

pub mod canvas;
pub mod color;
pub mod hex;
pub mod geom;
pub mod interp;
pub mod raster;
pub mod rat;
pub mod triangle;
