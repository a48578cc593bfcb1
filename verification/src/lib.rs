//! A rectangular lattice puzzle board: vertices, edges and cells of a grid,
//! with the queries needed to draw it and to reason about its regions.

pub mod grid;
pub mod vector2;
