//! Vertices of the lattice.

use vstd::prelude::*;

verus! {

/// A vertex is named by its position in the vertex table.
pub type VertexID = usize;

/// What a lattice point holds.
#[derive(Debug, Clone, Copy, PartialEq, Eq, Structural)]
pub enum Vertex {
    /// This vertex does not exist on the grid.
    Absent,
    /// This is a standard vertex with nothing special going on.
    Vertex,
    /// This is a vertex with a dot on it, meaning the solution requires the line drawing over it.
    Dot,
}

} // verus!
