//! Cells: the faces of the grid, each bounded by a cycle of edges.

use vstd::prelude::*;

use super::color::Color;
use super::edge::{Edge, EdgeRef};
use super::vertex::VertexID;

verus! {

/// A cell is referred to by its position in a cell table.
pub type CellRef = usize;

/// This enum only has three possible values, for the three possible triangle sets that can be
/// in a cell.
/// This helps with ensuring type safety of triangles, by limiting the possible values.
#[derive(Debug, Clone, Copy, PartialEq, Eq, Structural)]
pub enum TriangleCount {
    One,
    Two,
    Three,
}

/// The number that was offered as a triangle count and is none.
#[derive(Debug, Clone, Copy, PartialEq, Eq, Structural)]
pub struct InvalidTriangleCount(pub u8);

impl TriangleCount {
    /// How many triangles this stands for.
    pub open spec fn count(self) -> u8 {
        match self {
            TriangleCount::One => 1,
            TriangleCount::Two => 2,
            TriangleCount::Three => 3,
        }
    }

    /// The number of triangles.
    pub fn as_u8(self) -> (n: u8)
        ensures
            n == self.count(),
    {
        match self {
            TriangleCount::One => 1,
            TriangleCount::Two => 2,
            TriangleCount::Three => 3,
        }
    }
}

impl TryFrom<u8> for TriangleCount {
    type Error = InvalidTriangleCount;

    /// Accepts 1, 2 and 3; any other number comes back in the error.
    fn try_from(value: u8) -> (r: Result<Self, Self::Error>) {
        match value {
            1 => Ok(TriangleCount::One),
            2 => Ok(TriangleCount::Two),
            3 => Ok(TriangleCount::Three),
            _ => Err(InvalidTriangleCount(value)),
        }
    }
}

impl vstd::std_specs::convert::TryFromSpecImpl<u8> for TriangleCount {
    open spec fn obeys_try_from_spec() -> bool {
        true
    }

    open spec fn try_from_spec(value: u8) -> Result<Self, Self::Error> {
        if value == 1 {
            Ok(TriangleCount::One)
        } else if value == 2 {
            Ok(TriangleCount::Two)
        } else if value == 3 {
            Ok(TriangleCount::Three)
        } else {
            Err(InvalidTriangleCount(value))
        }
    }
}

/// What a cell holds.
#[derive(Debug, Clone, Copy, PartialEq, Eq, Structural)]
pub enum CellType {
    /// This is a blank cell.
    Blank,
    /// This is a cell with a colored square in it, which needs to be segregated from symbols of other colors.
    Square(Color),
    /// This is a cell with a star in it, which needs to be paired up with exactly one other symbol of the same color.
    /// It does not need to be segregated from symbols of other colors.
    Star(Color),
    /// Triangle
    Triangle(TriangleCount),
}

/// Why a list of edges cannot bound a cell.
#[derive(Debug, Clone, Copy, PartialEq, Eq, Structural)]
pub enum NewCellError {
    /// Fewer than three edges were given.
    NotEnoughEdges,
    /// One of the edges named is not in the edge table.
    UnknownEdge,
    /// Two edges that follow each other in the list have no vertex in common.
    NotInWindingOrder,
}

/// A face of the grid.
///
/// A cell does not own its edges: it names them by their positions in the
/// edge table of the grid it belongs to, in the order in which they run
/// around it.
#[derive(Debug, Clone)]
pub struct Cell {
    edges: Vec<EdgeRef>,
    pub kind: CellType,
}

/// What a cell is: the edges around it, in winding order, and what it holds.
pub struct CellView {
    pub edges: Seq<EdgeRef>,
    pub kind: CellType,
}

impl View for Cell {
    type V = CellView;

    closed spec fn view(&self) -> CellView {
        CellView { edges: self.edges@, kind: self.kind }
    }
}

impl Cell {
    /// Whether every edge named in `boundary` is in `table`.
    pub open spec fn edges_known(boundary: Seq<EdgeRef>, table: Seq<Edge>) -> bool {
        forall|i: int| 0 <= i < boundary.len() ==> (#[trigger] boundary[i]) < table.len()
    }

    /// Whether each edge of `boundary` has a vertex in common with the one
    /// that follows it.
    pub open spec fn is_chain(boundary: Seq<EdgeRef>, table: Seq<Edge>) -> bool {
        forall|i: int|
            0 <= i < boundary.len() - 1 ==> table[(#[trigger] boundary[i]) as int]@.connects_to_edge(
                table[boundary[i + 1] as int]@,
            )
    }

    /// What constructing a cell from `boundary` and `kind` gives.
    pub open spec fn checked(boundary: Seq<EdgeRef>, kind: CellType, table: Seq<Edge>) -> Result<
        CellView,
        NewCellError,
    > {
        if boundary.len() < 3 {
            Err(NewCellError::NotEnoughEdges)
        } else if !Cell::edges_known(boundary, table) {
            Err(NewCellError::UnknownEdge)
        } else if !Cell::is_chain(boundary, table) {
            Err(NewCellError::NotInWindingOrder)
        } else {
            Ok(CellView { edges: boundary, kind })
        }
    }

    /// The vertex from which a walk along `boundary` sets out: the end of
    /// the first edge that the second edge does not touch.
    pub open spec fn walk_start(boundary: Seq<EdgeRef>, table: Seq<Edge>) -> Option<VertexID> {
        let first = table[boundary[0] as int]@;
        let second = table[boundary[1] as int]@;
        match first.which_vertex_connects(second) {
            Some(shared) => first.get_other_vertex(shared),
            None => None,
        }
    }

    /// The vertex reached after walking the first `i` edges of `boundary`,
    /// each from the vertex reached before it to its other end. There is
    /// none once an edge does not start where the walk stands.
    pub open spec fn walk_vertex(boundary: Seq<EdgeRef>, table: Seq<Edge>, i: int) -> Option<
        VertexID,
    >
        decreases i,
    {
        if i <= 0 {
            Cell::walk_start(boundary, table)
        } else {
            match Cell::walk_vertex(boundary, table, i - 1) {
                Some(v) => table[boundary[i - 1] as int]@.get_other_vertex(v),
                None => None,
            }
        }
    }

    /// Whether `boundary` can be walked from its first edge to its last:
    /// every edge, the last one too, starts at the vertex that the walk has
    /// reached before it.
    pub open spec fn is_walk(boundary: Seq<EdgeRef>, table: Seq<Edge>) -> bool {
        &&& boundary.len() >= 2
        &&& Cell::edges_known(boundary, table)
        &&& Cell::walk_vertex(boundary, table, boundary.len() as int) is Some
    }

    /// Creates a new blank cell. Edges must be sorted in any winding order.
    /// (clockwise or anticlockwise)
    ///
    /// The edges are named by their places in `table`. At least three are
    /// needed, each must be in the table, and each must have a vertex in
    /// common with the one that follows it in the list. The last edge is
    /// not held against the first: a list that does not close is accepted.
    pub fn new(edges: Vec<EdgeRef>, table: &Vec<Edge>) -> (r: Result<Self, NewCellError>)
        ensures
            r matches Ok(cell) ==> Cell::checked(edges@, CellType::Blank, table@) == Ok::<
                CellView,
                NewCellError,
            >(cell@),
            r matches Err(e) ==> Cell::checked(edges@, CellType::Blank, table@) == Err::<
                CellView,
                NewCellError,
            >(e),
    {
        Cell::new_of_kind(edges, CellType::Blank, table)
    }

    /// Creates a new cell with a specific type. Edges must be sorted in any
    /// winding order. (clockwise or anticlockwise)
    ///
    /// The edges are named by their places in `table`. At least three are
    /// needed, each must be in the table, and each must have a vertex in
    /// common with the one that follows it in the list. The last edge is
    /// not held against the first: a list that does not close is accepted.
    pub fn new_of_kind(edges: Vec<EdgeRef>, kind: CellType, table: &Vec<Edge>) -> (r: Result<
        Self,
        NewCellError,
    >)
        ensures
            r matches Ok(cell) ==> Cell::checked(edges@, kind, table@) == Ok::<
                CellView,
                NewCellError,
            >(cell@),
            r matches Err(e) ==> Cell::checked(edges@, kind, table@) == Err::<
                CellView,
                NewCellError,
            >(e),
    {
        let n = edges.len();
        if n < 3 {
            return Err(NewCellError::NotEnoughEdges);
        }
        let mut i: usize = 0;
        while i < n
            invariant
                n == edges.len(),
                3 <= n,
                i <= n,
                forall|j: int| 0 <= j < i ==> (#[trigger] edges@[j]) < table.len(),
            decreases n - i,
        {
            if edges[i] >= table.len() {
                assert(edges@[i as int] >= table.len());
                return Err(NewCellError::UnknownEdge);
            }
            i += 1;
        }
        let mut i: usize = 1;
        while i < n
            invariant
                n == edges.len(),
                3 <= n,
                1 <= i <= n,
                Cell::edges_known(edges@, table@),
                forall|j: int|
                    0 <= j < i - 1 ==> table@[(#[trigger] edges@[j]) as int]@.connects_to_edge(
                        table@[edges@[j + 1] as int]@,
                    ),
            decreases n - i,
        {
            if !table[edges[i - 1]].connects_to_edge(&table[edges[i]]) {
                assert(!table@[edges@[i - 1] as int]@.connects_to_edge(
                    table@[edges@[i - 1 + 1] as int]@,
                ));
                return Err(NewCellError::NotInWindingOrder);
            }
            i += 1;
        }
        Ok(Cell { edges, kind })
    }

    /// Checks whether the given edge borders this cell.
    pub fn has_edge(&self, edge: &EdgeRef) -> (r: bool)
        ensures
            r == self@.edges.contains(*edge),
    {
        let mut i: usize = 0;
        while i < self.edges.len()
            invariant
                i <= self.edges.len(),
                forall|j: int| 0 <= j < i ==> self.edges@[j] != *edge,
            decreases self.edges.len() - i,
        {
            if self.edges[i] == *edge {
                return true;
            }
            i += 1;
        }
        false
    }

    /// Whether one of the edges of `boundary` that are in `table` touches
    /// `vertex`.
    pub open spec fn touches(boundary: Seq<EdgeRef>, table: Seq<Edge>, vertex: VertexID) -> bool {
        exists|i: int|
            0 <= i < boundary.len() && (#[trigger] boundary[i]) < table.len()
                && table[boundary[i] as int]@.connects_to(vertex)
    }

    /// Checks whether the given vertex borders this cell, going by the edges
    /// in `table`.
    pub fn has_vertex(&self, vertex: VertexID, table: &Vec<Edge>) -> (r: bool)
        ensures
            r == Cell::touches(self@.edges, table@, vertex),
    {
        let mut i: usize = 0;
        while i < self.edges.len()
            invariant
                i <= self.edges.len(),
                forall|j: int|
                    0 <= j < i && (#[trigger] self.edges@[j]) < table.len() ==> !table@[self.edges@[j] as int]@.connects_to(
                        vertex,
                    ),
            decreases self.edges.len() - i,
        {
            let e = self.edges[i];
            if e < table.len() && table[e].connects_to(vertex) {
                return true;
            }
            i += 1;
        }
        false
    }

    /// Gets what this cell holds.
    pub fn get_kind(&self) -> (kind: CellType)
        ensures
            kind == self@.kind,
    {
        self.kind
    }

    /// Changes what this cell holds; its edges stay.
    pub fn set_kind(&mut self, kind: CellType)
        ensures
            final(self)@ == (CellView { kind, ..old(self)@ }),
    {
        self.kind = kind;
    }

    /// A cell with the same edges as this one that holds `kind`.
    pub fn with_kind(&self, kind: CellType) -> (cell: Cell)
        ensures
            cell@ == (CellView { kind, ..self@ }),
    {
        Cell { edges: self.edges.clone(), kind }
    }

    /// Gets a copy of the list of edges that border this cell.
    pub fn get_edgerefs_iter(&self) -> (r: Vec<EdgeRef>)
        ensures
            r@ == self@.edges,
    {
        self.edges.clone()
    }

    /// Gets an immutable reference to the vector of edges that border this cell.
    pub fn get_edges(&self) -> (r: &Vec<EdgeRef>)
        ensures
            r@ == self@.edges,
    {
        &self.edges
    }

    /// Once the walk has lost its way it does not find it again.
    pub proof fn lemma_walk_prefix(boundary: Seq<EdgeRef>, table: Seq<Edge>, i: int, j: int)
        requires
            0 <= i <= j,
            Cell::walk_vertex(boundary, table, j) is Some,
        ensures
            Cell::walk_vertex(boundary, table, i) is Some,
        decreases j - i,
    {
        if i < j {
            Cell::lemma_walk_prefix(boundary, table, i, j - 1);
        }
    }

    /// Each edge of a walk runs between the vertex reached before it and the
    /// vertex reached after it.
    pub proof fn lemma_walk_joins(boundary: Seq<EdgeRef>, table: Seq<Edge>, i: int)
        requires
            Cell::is_walk(boundary, table),
            0 <= i < boundary.len(),
        ensures
            Cell::walk_vertex(boundary, table, i) is Some,
            Cell::walk_vertex(boundary, table, i + 1) is Some,
            table[boundary[i] as int]@.joins(
                Cell::walk_vertex(boundary, table, i)->0,
                Cell::walk_vertex(boundary, table, i + 1)->0,
            ),
    {
        Cell::lemma_walk_prefix(boundary, table, i + 1, boundary.len() as int);
        Cell::lemma_walk_prefix(boundary, table, i, boundary.len() as int);
    }

    /// Whether the boundary of this cell can be walked in `table`, so that
    /// its vertices can be listed in winding order. That each edge has a
    /// vertex in common with the next is not enough for it: three edges out
    /// of one vertex follow each other and cannot be walked.
    pub fn has_winding_order(&self, table: &Vec<Edge>) -> (r: bool)
        ensures
            r == Cell::is_walk(self@.edges, table@),
    {
        let n = self.edges.len();
        if n < 2 {
            return false;
        }
        let mut i: usize = 0;
        while i < n
            invariant
                n == self.edges.len(),
                i <= n,
                forall|j: int| 0 <= j < i ==> (#[trigger] self.edges@[j]) < table.len(),
            decreases n - i,
        {
            if self.edges[i] >= table.len() {
                return false;
            }
            i += 1;
        }
        let first = &table[self.edges[0]];
        let start = match first.which_vertex_connects(&table[self.edges[1]]) {
            Some(shared) => first.get_other_vertex(shared),
            None => None,
        };
        let mut at: VertexID = match start {
            Some(v) => v,
            None => {
                proof {
                    if Cell::is_walk(self@.edges, table@) {
                        Cell::lemma_walk_prefix(self@.edges, table@, 0, n as int);
                    }
                }
                return false;
            },
        };
        let mut i: usize = 0;
        while i < n
            invariant
                n == self.edges.len(),
                i <= n,
                Cell::edges_known(self@.edges, table@),
                Cell::walk_vertex(self@.edges, table@, i as int) == Some(at),
            decreases n - i,
        {
            match table[self.edges[i]].get_other_vertex(at) {
                Some(v) => {
                    at = v;
                },
                None => {
                    proof {
                        assert(Cell::walk_vertex(self@.edges, table@, i + 1) is None);
                        if Cell::is_walk(self@.edges, table@) {
                            Cell::lemma_walk_prefix(self@.edges, table@, i + 1, n as int);
                        }
                    }
                    return false;
                },
            }
            i += 1;
        }
        true
    }

    /// Lists the vertices around this cell in winding order: the walk along
    /// its edges starts at the end of the first edge that the second edge
    /// does not touch, and each edge leads to the next vertex. There are as
    /// many vertices as edges.
    ///
    /// The boundary must be one that can be walked in `table`, which
    /// `has_winding_order` tells. The last edge must be walked too, though
    /// the vertex that it leads to is not listed: on a boundary that closes
    /// it is the first vertex again.
    pub fn get_vertices_in_winding_order(&self, table: &Vec<Edge>) -> (vertices: Vec<VertexID>)
        requires
            Cell::is_walk(self@.edges, table@),
        ensures
            vertices@.len() == self@.edges.len(),
            forall|i: int|
                0 <= i < vertices@.len() ==> Cell::walk_vertex(self@.edges, table@, i) == Some(
                    #[trigger] vertices@[i],
                ),
            forall|i: int|
                0 <= i < vertices@.len() - 1 ==> table@[self@.edges[i] as int]@.joins(
                    #[trigger] vertices@[i],
                    vertices@[i + 1],
                ),
    {
        let n = self.edges.len();
        proof {
            Cell::lemma_walk_prefix(self@.edges, table@, 0, n as int);
            assert forall|i: int| 0 <= i < n implies table@[self@.edges[i] as int]@.joins(
                Cell::walk_vertex(self@.edges, table@, i)->0,
                Cell::walk_vertex(self@.edges, table@, i + 1)->0,
            ) by {
                Cell::lemma_walk_joins(self@.edges, table@, i);
            }
        }
        let first = &table[self.edges[0]];
        let shared = first.which_vertex_connects(&table[self.edges[1]]).unwrap();
        let start = first.get_other_vertex(shared).unwrap();
        let mut vertices: Vec<VertexID> = Vec::new();
        vertices.push(start);
        let mut i: usize = 0;
        while i + 1 < n
            invariant
                n == self.edges.len(),
                n >= 2,
                i + 1 <= n,
                vertices@.len() == i + 1,
                Cell::is_walk(self@.edges, table@),
                forall|j: int|
                    0 <= j <= i ==> Cell::walk_vertex(self@.edges, table@, j) == Some(
                        #[trigger] vertices@[j],
                    ),
            decreases n - i,
        {
            proof {
                Cell::lemma_walk_prefix(self@.edges, table@, i + 1, n as int);
            }
            let next = table[self.edges[i]].get_other_vertex(vertices[i]).unwrap();
            vertices.push(next);
            i += 1;
        }
        vertices
    }
}

} // verus!
