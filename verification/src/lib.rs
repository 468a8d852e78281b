//! Rasterization of simple vector shapes (boxes, lines, arrows, text labels)
//! into a monospace character grid, serialized as plain text.

pub mod bounds;
pub mod canvas;
pub mod line;
pub mod quantize;
pub mod render;
pub mod shape;
pub mod text;
