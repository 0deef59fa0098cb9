//! Extraction of the zero contour of a sign field sampled on a regular grid.
//!
//! The field is given by the signs of its samples. The contour is a line
//! mesh: one vertex in each cell of the grid that has a crossed edge, and one
//! segment for each crossed edge that two neighbouring cells share. The mesh
//! names, for each vertex and normal, the samples from which the numbers of
//! the vertex are to be computed; the computing is left to the caller.

pub mod contour;
pub mod edges;
pub mod grid;
pub mod index_map;
pub mod laws;
pub mod mesh;

pub use contour::get_geometry_data;
pub use mesh::{CellSamples, Corner, Crossing, GeometryData, VertexStencil};
