//! Wireframe rasteriser for a spinning cube drawn with text glyphs.
//!
//! The crate covers the integer half of the rendering pipeline: the exact
//! product of a vector with a matrix, the cube's topology, a bounds-checked
//! character grid, line rasterisation, and the bytes handed to a terminal.

pub mod algebra;
pub mod buffer;
pub mod driver;
pub mod line;
pub mod raster;
pub mod scene;
pub mod terminal;
