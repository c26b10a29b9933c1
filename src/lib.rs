//! A small software rasterizer: integer scan conversion of screen-space triangles with a
//! z-buffer, line drawing, and the pixel store they write into.
pub mod canvas;
pub mod draw;
pub mod laws;
pub mod line;
pub mod linalg;
pub mod model;
