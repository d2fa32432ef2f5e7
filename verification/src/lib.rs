//! A software triangle-mesh renderer over fixed-point coordinates.
//!
//! A mesh description (a line-oriented `v`/`f` vertex and face format) is
//! parsed into a list of triangles, each carrying a cached unit-length
//! surface normal.  The mesh can be rotated rigidly in place, projected
//! through a pinhole camera, culled of back-facing triangles, depth-ordered,
//! and rasterized into a z-buffered intensity grid.
//!
//! All coordinates are fixed-point values: an `i64` holding the real value
//! times [`fixed::SCALE`].  Every arithmetic step is specified exactly over
//! mathematical integers, including its rounding.
//!
//! A scene of several meshes needs no aggregate type: the projection and
//! shading pipelines are per-polygon, so callers concatenate the per-mesh
//! results.

pub mod fixed;
pub mod vec3;
pub mod matrix;
pub mod polygon;
pub mod sort;
pub mod mesh;
pub mod parse;
pub mod render;
