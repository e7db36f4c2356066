//! Face-aligned image grids: the geometry that places a detected face at the
//! centre of a grid cell, the planning of the grid, and the compositing of
//! rescaled images onto a shared canvas.
pub mod geom;
pub mod raster;
pub mod layout;
pub mod align;
pub mod parsing;
pub mod grid;
