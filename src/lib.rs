//! A CPU triangle rasterizer: normalized device coordinates (NDC) are mapped
//! to pixels and back, and triangles are filled into a row-major framebuffer
//! by scanline interpolation. NDC values are fixed-point integers scaled by
//! `triangle::NDC_ONE`; colours are 8-bit channels.
//!
//! - `mapping`: NDC to screen coordinates and back.
//! - `triangle`: points, triangles, screen coordinates, interpolation.
//! - `raster`: the scanline fill of one triangle.
//! - `renderer`: the framebuffer, the triangle list and the raster pass.
//! - `pixel`: colours and their packed forms for presentation.
//! - `window_system`: the pixel side of the display backends.
//! - `buffer`: resizing a buffer in place.

pub mod buffer;
pub mod mapping;
pub mod pixel;
pub mod raster;
pub mod renderer;
pub mod triangle;
pub mod window_system;
