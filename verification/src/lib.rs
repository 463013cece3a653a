//! A software rasterizer in integers, with its behaviour stated and proved.
//!
//! Triangles arrive as vertices in normalised device coordinates in fixed point. Every face
//! is scan converted into rasters with exact barycentric weights, every raster whose depth
//! lies in the normalised range becomes a fragment, and every fragment is written into a
//! frame through a depth test. Transforming the vertices of a model and colouring a
//! fragment are left to the caller.

pub mod fixed;
pub mod framebuffer;
pub mod interpolation;
pub mod laws;
pub mod line;
pub mod math_utils;
pub mod raster;
pub mod rasterizer;
pub mod sampler;
pub mod texture;
