//! A software 3D rasterizer over an indexed-color framebuffer.
//!
//! Geometry is carried in fixed-point "subpixel" units (1/256 of a pixel per
//! unit), so every interpolation, span bound and depth value is an exact
//! integer or rational quantity with a precise contract; floating point is
//! confined to the unverified shell that feeds the library.

pub mod buffer;
pub mod color;
pub mod frac;
pub mod geo;
pub mod interpolate;
pub mod num;
pub mod poly;
