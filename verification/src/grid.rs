//! The puzzle grid and its parts.

pub mod cell;
pub mod color;
pub mod edge;
pub mod lattice;
pub mod tables;
pub mod topology;
pub mod vertex;

use std::collections::VecDeque;
use vstd::prelude::*;

pub use cell::{Cell, CellRef, CellType, CellView, InvalidTriangleCount, NewCellError, TriangleCount};
pub use color::Color;
pub use edge::{Edge, EdgeRef, EdgeType, EdgeView, NewEdgeError};
pub use vertex::{Vertex, VertexID};

use crate::vector2::Vector2;
use lattice::{
    cell_column, cell_count, cell_index, cell_row, edge_count, edges_before,
    horizontal_edge_index, is_cell, is_lattice_point, is_next_to, vertex_count, vertex_id,
    vertex_x, vertex_y, vertical_edge_index,
};

use tables::{
    is_cell_table, is_edge_table, is_square_boundary, is_square_corners, lemma_cell_table_keeps_edges,
    lemma_edge_table_keeps_endpoints, lemma_edges_of_square, lemma_square_edges_distinct,
    lemma_square_is_chain, lemma_square_walk, runs,
};

verus! {

/// The unit of measurement for grid coordinates.
pub type GridVector2 = Vector2<usize>;

/// What a grid position can be asked beyond what every vector can.
pub trait Vector2Extensions {
    /// What `is_immediately_next_to` answers.
    spec fn immediately_next_to(&self, other: &Self) -> bool;

    fn is_immediately_next_to(&self, other: &Self) -> (r: bool)
        ensures
            r == self.immediately_next_to(other),
    ;
}

impl Vector2Extensions for GridVector2 {
    open spec fn immediately_next_to(&self, other: &GridVector2) -> bool {
        is_next_to(self.x as int, self.y as int, other.x as int, other.y as int)
    }

    /// Checks if this grid position is immediately next to another,
    /// meaning directly one unit above, below, to the left of, or to the right of the other position
    /// (but not diagonally)
    fn is_immediately_next_to(&self, other: &GridVector2) -> (r: bool) {
        let dx = if self.x >= other.x {
            self.x - other.x
        } else {
            other.x - self.x
        };
        let dy = if self.y >= other.y {
            self.y - other.y
        } else {
            other.y - self.y
        };
        (dx == 1 && dy == 0) || (dx == 0 && dy == 1)
    }
}

/// What a grid is: its size in cells and its three tables.
pub struct GridView {
    pub size: GridVector2,
    pub vertices: Seq<Vertex>,
    pub edges: Seq<Edge>,
    pub cells: Seq<Cell>,
}

impl GridView {
    /// The number of cells in a row.
    pub open spec fn width(self) -> int {
        self.size.x as int
    }

    /// The number of cells in a column.
    pub open spec fn height(self) -> int {
        self.size.y as int
    }

    /// Whether the three tables are those of the lattice of this size.
    pub open spec fn wf(self) -> bool {
        &&& vertex_count(self.width(), self.height()) <= usize::MAX
        &&& self.vertices.len() == vertex_count(self.width(), self.height())
        &&& is_edge_table(self.edges, self.width(), self.height())
        &&& is_cell_table(self.cells, self.width(), self.height())
    }
}

/// A Witness puzzle.
///
/// A grid of `w` by `h` cells owns three tables, and everything in them is
/// named by its place in its table. The vertex at the lattice point
/// `(x, y)` has the id `x + (w + 1) * y`. The edges stand in the order in
/// which the lattice points make them, column by column and each column
/// from the top: every point makes the edge to its left neighbour and then
/// the edge to the neighbour above it. The cell whose top left corner is
/// `(x, y)` stands at place `x * h + y`, and names its four edges by their
/// places in the edge table: top, right, bottom, left.
///
/// The tables of a grid are always those of the lattice of its size; only
/// what a vertex, an edge or a cell holds can be changed.
pub struct Grid {
    size: GridVector2,
    vertices: Vec<Vertex>,
    edges: Vec<Edge>,
    cells: Vec<Cell>,
}

impl View for Grid {
    type V = GridView;

    closed spec fn view(&self) -> GridView {
        GridView {
            size: self.size,
            vertices: self.vertices@,
            edges: self.edges@,
            cells: self.cells@,
        }
    }
}

/// Whether the lattice point `(a, b)` is visited before `(x, y)` when the
/// lattice is walked column by column.
spec fn visited_before(a: int, b: int, x: int, y: int) -> bool {
    a < x || (a == x && b < y)
}

/// Whether `table` holds the lattice edges made at the points visited before
/// `(x, y)`, and no others.
spec fn edges_made_before(table: Seq<Edge>, w: int, h: int, x: int, y: int) -> bool {
    &&& table.len() == edges_before(h, x, y)
    &&& forall|k: int| 0 <= k < table.len() ==> (#[trigger] table[k])@.kind == EdgeType::Edge
    &&& forall|a: int, b: int|
        #![trigger horizontal_edge_index(h, a, b)]
        1 <= a <= w && 0 <= b <= h && visited_before(a, b, x, y) ==> 0 <= horizontal_edge_index(
            h,
            a,
            b,
        ) < table.len() && runs(
            table[horizontal_edge_index(h, a, b)],
            vertex_id(w, a - 1, b),
            vertex_id(w, a, b),
        )
    &&& forall|a: int, b: int|
        #![trigger vertical_edge_index(h, a, b)]
        0 <= a <= w && 1 <= b <= h && visited_before(a, b, x, y) ==> 0 <= vertical_edge_index(
            h,
            a,
            b,
        ) < table.len() && runs(
            table[vertical_edge_index(h, a, b)],
            vertex_id(w, a, b - 1),
            vertex_id(w, a, b),
        )
}

/// Whether `table` holds the unit squares visited before `(x, y)` when the
/// squares are walked column by column, and no others.
spec fn cells_made_before(table: Seq<Cell>, w: int, h: int, x: int, y: int) -> bool {
    &&& table.len() == cell_index(h, x, y)
    &&& forall|c: int| 0 <= c < table.len() ==> (#[trigger] table[c])@.kind == CellType::Blank
    &&& forall|a: int, b: int|
        #![trigger cell_index(h, a, b)]
        is_cell(w, h, a, b) && visited_before(a, b, x, y) ==> 0 <= cell_index(h, a, b)
            < table.len() && is_square_boundary(table[cell_index(h, a, b)]@.edges, h, a, b)
}

/// Whether the numbers of `list` grow from each to the next.
pub open spec fn is_ascending(list: Seq<usize>) -> bool {
    forall|i: int, j: int| 0 <= i < j < list.len() ==> list[i] < list[j]
}

/// What a list holds once a value is added at its end.
proof fn lemma_push_contains(list: Seq<usize>, added: usize, value: usize)
    ensures
        list.push(added).contains(value) <==> list.contains(value) || value == added,
{
    let longer = list.push(added);
    if list.contains(value) {
        let i = choose|i: int| 0 <= i < list.len() && list[i] == value;
        assert(longer[i] == value);
    }
    if value == added {
        assert(longer[list.len() as int] == value);
    }
    if longer.contains(value) {
        let i = choose|i: int| 0 <= i < longer.len() && longer[i] == value;
        if i < list.len() {
            assert(list[i] == value);
        }
    }
}

/// Whether `list` holds `value`.
fn holds(list: &Vec<usize>, value: usize) -> (r: bool)
    ensures
        r == list@.contains(value),
{
    let mut i: usize = 0;
    while i < list.len()
        invariant
            i <= list.len(),
            forall|j: int| 0 <= j < i ==> list@[j] != value,
        decreases list.len() - i,
    {
        if list[i] == value {
            return true;
        }
        i += 1;
    }
    false
}

/// Puts `value` into an ascending list at its place, unless the list holds
/// it already.
fn insert_ascending(list: &mut Vec<usize>, value: usize)
    requires
        is_ascending(old(list)@),
    ensures
        is_ascending(final(list)@),
        forall|other: usize|
            final(list)@.contains(other) <==> old(list)@.contains(other) || other == value,
{
    let ghost before = list@;
    let mut i: usize = 0;
    while i < list.len() && list[i] < value
        invariant
            list@ == before,
            i <= list.len(),
            forall|j: int| 0 <= j < i ==> list@[j] < value,
        decreases list.len() - i,
    {
        i += 1;
    }
    if i < list.len() && list[i] == value {
        assert forall|other: usize| list@.contains(other) || other == value implies list@.contains(
            other,
        ) by {
            assert(list@[i as int] == value);
        }
        return ;
    }
    list.insert(i, value);
    proof {
        let after = list@;
        assert(after.len() == before.len() + 1);
        assert forall|j: int| 0 <= j < after.len() implies after[j] == (if j < i {
            before[j]
        } else if j == i {
            value
        } else {
            before[j - 1]
        }) by {}
        assert forall|a: int, b: int| 0 <= a < b < after.len() implies after[a] < after[b] by {
            if b > i && a < i {
                assert(before[a] < value);
                assert(before[i as int] <= before[b - 1]);
            }
        }
        assert forall|other: usize| after.contains(other) <==> before.contains(other) || other
            == value by {
            if before.contains(other) {
                let j = choose|j: int| 0 <= j < before.len() && before[j] == other;
                if j < i {
                    assert(after[j] == other);
                } else {
                    assert(after[j + 1] == other);
                }
            }
            if other == value {
                assert(after[i as int] == other);
            }
            if after.contains(other) {
                let j = choose|j: int| 0 <= j < after.len() && after[j] == other;
                if j < i {
                    assert(before[j] == other);
                } else if j > i {
                    assert(before[j - 1] == other);
                }
            }
        }
    }
}

/// Puts `value` at place `i` of `table`.
fn store<T>(table: &mut Vec<T>, i: usize, value: T)
    requires
        i < old(table)@.len(),
    ensures
        final(table)@ == old(table)@.update(i as int, value),
    no_unwind
{
    table[i] = value;
}

impl Grid {
    #[verifier::type_invariant]
    spec fn inv(self) -> bool {
        self@.wf()
    }

    /// The id of the lattice point at `vector` on a board of the given size,
    /// if there is such a point and its id can be represented.
    pub fn vector_to_vertex_id(size: GridVector2, vector: GridVector2) -> (r: Option<VertexID>)
        ensures
            r == (if is_lattice_point(
                size.x as int,
                size.y as int,
                vector.x as int,
                vector.y as int,
            ) && vertex_id(size.x as int, vector.x as int, vector.y as int) <= usize::MAX {
                Some(vertex_id(size.x as int, vector.x as int, vector.y as int) as usize)
            } else {
                None
            }),
    {
        if vector.x > size.x || vector.y > size.y {
            return None;
        }
        if vector.y == 0 {
            assert((size.x + 1) * 0 == 0) by (nonlinear_arith);
            return Some(vector.x);
        }
        assert((size.x + 1) * vector.y >= size.x + 1) by (nonlinear_arith)
            requires
                vector.y >= 1,
        ;
        match size.x.checked_add(1) {
            None => None,
            Some(stride) => match stride.checked_mul(vector.y) {
                None => None,
                Some(rows) => vector.x.checked_add(rows),
            },
        }
    }

    /// The position of the lattice point with the given id on a board of the
    /// given size, if the board has such a point.
    pub fn vertex_id_to_vector(size: GridVector2, id: VertexID) -> (r: Option<GridVector2>)
        ensures
            r == (if id < vertex_count(size.x as int, size.y as int) {
                Some(
                    Vector2 {
                        x: vertex_x(size.x as int, id as int) as usize,
                        y: vertex_y(size.x as int, id as int) as usize,
                    },
                )
            } else {
                None
            }),
    {
        let ghost d = size.x as int + 1;
        proof {
            vstd::arithmetic::div_mod::lemma_fundamental_div_mod(id as int, d);
            let q = id as int / d;
            let m = id as int % d;
            assert(0 <= m < d);
            assert(0 <= q) by (nonlinear_arith)
                requires
                    0 < d,
                    0 <= id,
                    id == d * q + m,
                    m < d,
            ;
            assert(id < d * (size.y + 1) <==> q <= size.y) by (nonlinear_arith)
                requires
                    0 < d,
                    id == d * q + m,
                    0 <= m < d,
            ;
            assert(q <= id) by (nonlinear_arith)
                requires
                    0 < d,
                    id == d * q + m,
                    0 <= m,
                    0 <= q,
            ;
        }
        if size.x == usize::MAX {
            proof {
                vstd::arithmetic::div_mod::lemma_fundamental_div_mod_converse(
                    id as int,
                    d,
                    0,
                    id as int,
                );
            }
            Some(Vector2 { x: id, y: 0 })
        } else {
            let stride = size.x + 1;
            let y = id / stride;
            if y <= size.y {
                Some(Vector2 { x: id % stride, y })
            } else {
                None
            }
        }
    }

    /// The id of a lattice point of a board whose vertices can all be
    /// numbered.
    fn vertex_id_at(size: GridVector2, x: usize, y: usize) -> (id: VertexID)
        requires
            vertex_count(size.x as int, size.y as int) <= usize::MAX,
            is_lattice_point(size.x as int, size.y as int, x as int, y as int),
        ensures
            id == vertex_id(size.x as int, x as int, y as int),
            id < vertex_count(size.x as int, size.y as int),
    {
        proof {
            lattice::lemma_position_round_trip(size.x as int, size.y as int, x as int, y as int);
        }
        Grid::vector_to_vertex_id(size, Vector2 { x, y }).unwrap()
    }

    /// Makes the edge table: every lattice point, column by column, gives
    /// the edge to its left neighbour and then the edge to the neighbour
    /// above it.
    fn lattice_edges(size: GridVector2) -> (edges: Vec<Edge>)
        requires
            vertex_count(size.x as int, size.y as int) <= usize::MAX,
        ensures
            is_edge_table(edges@, size.x as int, size.y as int),
            forall|k: int| 0 <= k < edges@.len() ==> (#[trigger] edges@[k])@.kind == EdgeType::Edge,
    {
        let w = size.x;
        let h = size.y;
        proof {
            lattice::lemma_vertex_count_bounds(w as int, h as int);
        }
        let mut edges: Vec<Edge> = Vec::new();
        let mut x: usize = 0;
        while x <= w
            invariant
                w == size.x,
                h == size.y,
                vertex_count(w as int, h as int) <= usize::MAX,
                w < usize::MAX,
                h < usize::MAX,
                x <= w + 1,
                edges_made_before(edges@, w as int, h as int, x as int, 0),
            decreases w + 1 - x,
        {
            let mut y: usize = 0;
            while y <= h
                invariant
                    w == size.x,
                    h == size.y,
                    vertex_count(w as int, h as int) <= usize::MAX,
                    w < usize::MAX,
                    h < usize::MAX,
                    x <= w,
                    y <= h + 1,
                    edges_made_before(edges@, w as int, h as int, x as int, y as int),
                decreases h + 1 - y,
            {
                let current = Grid::vertex_id_at(size, x, y);
                let ghost before = edges@;
                if x != 0 {
                    let left = Grid::vertex_id_at(size, x - 1, y);
                    edges.push(Edge::new(current, left).unwrap());
                }
                if y != 0 {
                    let above = Grid::vertex_id_at(size, x, y - 1);
                    proof {
                        assert((w + 1) * y == (w + 1) * (y - 1) + (w + 1)) by (nonlinear_arith);
                    }
                    edges.push(Edge::new(current, above).unwrap());
                }
                proof {
                    lattice::lemma_edges_before_next_row(h as int, x as int, y as int);
                    assert forall|k: int| 0 <= k < before.len() implies edges@[k] == before[k] by {}
                }
                y += 1;
            }
            proof {
                lattice::lemma_edges_before_next_column(h as int, x as int);
            }
            x += 1;
        }
        proof {
            lattice::lemma_edge_count_is_end(w as int, h as int);
        }
        edges
    }

    /// Finds the four edges around the unit square with top left corner
    /// `(x, y)` by going through the edge table: top, right, bottom, left.
    fn square_edges(size: GridVector2, edges: &Vec<Edge>, x: usize, y: usize) -> (boundary: Vec<
        EdgeRef,
    >)
        requires
            vertex_count(size.x as int, size.y as int) <= usize::MAX,
            is_edge_table(edges@, size.x as int, size.y as int),
            is_cell(size.x as int, size.y as int, x as int, y as int),
        ensures
            is_square_boundary(boundary@, size.y as int, x as int, y as int),
    {
        let ghost w = size.x as int;
        let ghost h = size.y as int;
        let top_left: VertexID = Grid::vertex_id_at(size, x, y);
        let top_right: VertexID = Grid::vertex_id_at(size, x + 1, y);
        let bottom_left: VertexID = Grid::vertex_id_at(size, x, y + 1);
        let bottom_right: VertexID = Grid::vertex_id_at(size, x + 1, y + 1);
        let mut top_edge: Option<EdgeRef> = None;
        let mut bottom_edge: Option<EdgeRef> = None;
        let mut left_edge: Option<EdgeRef> = None;
        let mut right_edge: Option<EdgeRef> = None;
        proof {
            lemma_square_edges_distinct(w, h, x as int, y as int);
        }
        let mut k: usize = 0;
        while k < edges.len()
            invariant
                w == size.x,
                h == size.y,
                vertex_count(w, h) <= usize::MAX,
                is_edge_table(edges@, w, h),
                is_cell(w, h, x as int, y as int),
                top_left == vertex_id(w, x as int, y as int),
                top_right == vertex_id(w, x + 1, y as int),
                bottom_left == vertex_id(w, x as int, y + 1),
                bottom_right == vertex_id(w, x + 1, y + 1),
                k <= edges.len(),
                top_edge == (if horizontal_edge_index(h, x + 1, y as int) < k {
                    Some(horizontal_edge_index(h, x + 1, y as int) as usize)
                } else {
                    None
                }),
                right_edge == (if vertical_edge_index(h, x + 1, y + 1) < k {
                    Some(vertical_edge_index(h, x + 1, y + 1) as usize)
                } else {
                    None
                }),
                bottom_edge == (if horizontal_edge_index(h, x + 1, y + 1) < k {
                    Some(horizontal_edge_index(h, x + 1, y + 1) as usize)
                } else {
                    None
                }),
                left_edge == (if vertical_edge_index(h, x as int, y + 1) < k {
                    Some(vertical_edge_index(h, x as int, y + 1) as usize)
                } else {
                    None
                }),
            decreases edges.len() - k,
        {
            proof {
                lemma_edges_of_square(edges@, w, h, k as int, x as int, y as int);
                lemma_square_edges_distinct(w, h, x as int, y as int);
            }
            let edge = &edges[k];
            if edge.connects_to(top_left) {
                if edge.connects_to(top_right) {
                    top_edge = Some(k);
                } else if edge.connects_to(bottom_left) {
                    left_edge = Some(k);
                }
            } else if edge.connects_to(bottom_right) {
                if edge.connects_to(top_right) {
                    right_edge = Some(k);
                } else if edge.connects_to(bottom_left) {
                    bottom_edge = Some(k);
                }
            }
            k += 1;
        }
        proof {
            lemma_square_edges_distinct(w, h, x as int, y as int);
        }
        let mut boundary: Vec<EdgeRef> = Vec::new();
        boundary.push(top_edge.unwrap());
        boundary.push(right_edge.unwrap());
        boundary.push(bottom_edge.unwrap());
        boundary.push(left_edge.unwrap());
        boundary
    }

    /// Makes the cell table: every unit square, column by column, with the
    /// four edges around it.
    fn lattice_cells(size: GridVector2, edges: &Vec<Edge>) -> (cells: Vec<Cell>)
        requires
            vertex_count(size.x as int, size.y as int) <= usize::MAX,
            is_edge_table(edges@, size.x as int, size.y as int),
        ensures
            is_cell_table(cells@, size.x as int, size.y as int),
            forall|c: int| 0 <= c < cells@.len() ==> (#[trigger] cells@[c])@.kind == CellType::Blank,
    {
        let w = size.x;
        let h = size.y;
        let mut cells: Vec<Cell> = Vec::new();
        let mut x: usize = 0;
        proof {
            assert(0 * h == 0) by (nonlinear_arith);
        }
        while x < w
            invariant
                w == size.x,
                h == size.y,
                vertex_count(w as int, h as int) <= usize::MAX,
                is_edge_table(edges@, w as int, h as int),
                x <= w,
                cells_made_before(cells@, w as int, h as int, x as int, 0),
            decreases w - x,
        {
            let mut y: usize = 0;
            while y < h
                invariant
                    w == size.x,
                    h == size.y,
                    vertex_count(w as int, h as int) <= usize::MAX,
                    is_edge_table(edges@, w as int, h as int),
                    x < w,
                    y <= h,
                    cells_made_before(cells@, w as int, h as int, x as int, y as int),
                decreases h - y,
            {
                let boundary = Grid::square_edges(size, edges, x, y);
                let ghost before = cells@;
                proof {
                    lemma_square_is_chain(
                        edges@,
                        boundary@,
                        w as int,
                        h as int,
                        x as int,
                        y as int,
                    );
                }
                let cell = Cell::new(boundary, edges).unwrap();
                cells.push(cell);
                proof {
                    assert forall|c: int| 0 <= c < before.len() implies cells@[c] == before[c] by {}
                }
                y += 1;
            }
            proof {
                assert(x * h + h == (x + 1) * h) by (nonlinear_arith);
            }
            x += 1;
        }
        cells
    }

    /// Creates a new puzzle with a given size: every vertex is absent until
    /// it is set, every edge is a standard edge and every cell is blank.
    pub fn new(size: GridVector2) -> (grid: Self)
        requires
            vertex_count(size.x as int, size.y as int) <= usize::MAX,
        ensures
            grid@.wf(),
            grid@.size == size,
            grid@.vertices.len() == (size.x + 1) * (size.y + 1),
            grid@.edges.len() == size.x * (size.y + 1) + size.y * (size.x + 1),
            grid@.cells.len() == size.x * size.y,
            forall|i: int|
                0 <= i < grid@.vertices.len() ==> (#[trigger] grid@.vertices[i]) == Vertex::Absent,
            forall|k: int|
                0 <= k < grid@.edges.len() ==> (#[trigger] grid@.edges[k])@.kind == EdgeType::Edge,
            forall|c: int|
                0 <= c < grid@.cells.len() ==> (#[trigger] grid@.cells[c])@.kind
                    == CellType::Blank && grid@.cells[c]@.edges.len() == 4,
    {
        proof {
            lattice::lemma_vertex_count_bounds(size.x as int, size.y as int);
            lattice::lemma_cell_count_bounds(size.x as int, size.y as int);
        }
        let edges = Grid::lattice_edges(size);
        let cells = Grid::lattice_cells(size, &edges);
        let vertices = vec![Vertex::Absent; (size.x + 1) * (size.y + 1)];
        let grid = Grid { size, vertices, edges, cells };
        proof {
            assert forall|c: int| 0 <= c < grid@.cells.len() implies (#[trigger] grid@.cells[c])@.edges.len()
                == 4 by {
                grid@.lemma_cells_have_four_edges(c as usize);
            }
        }
        grid
    }

    /// Creates a new puzzle with a given size, if the vertices of a board of
    /// that size can all be numbered.
    pub fn try_new(size: GridVector2) -> (r: Option<Self>)
        ensures
            r is Some == (vertex_count(size.x as int, size.y as int) <= usize::MAX),
            r matches Some(grid) ==> grid@.wf() && grid@.size == size,
            r matches Some(grid) ==> forall|i: int|
                0 <= i < grid@.vertices.len() ==> (#[trigger] grid@.vertices[i]) == Vertex::Absent,
            r matches Some(grid) ==> forall|k: int|
                0 <= k < grid@.edges.len() ==> (#[trigger] grid@.edges[k])@.kind == EdgeType::Edge,
            r matches Some(grid) ==> forall|c: int|
                0 <= c < grid@.cells.len() ==> (#[trigger] grid@.cells[c])@.kind
                    == CellType::Blank && grid@.cells[c]@.edges.len() == 4,
    {
        let fits = match size.x.checked_add(1) {
            None => false,
            Some(columns) => match size.y.checked_add(1) {
                None => false,
                Some(rows) => columns.checked_mul(rows).is_some(),
            },
        };
        proof {
            lattice::lemma_vertex_count_bounds(size.x as int, size.y as int);
        }
        if fits {
            Some(Grid::new(size))
        } else {
            None
        }
    }

    /// Gets the size of the grid, measured in square grid cells.
    /// For example:
    /// ```plaintext
    /// +---+---+---+
    /// |   |   |   |
    /// +---+---+---+
    /// |   |   |   |
    /// +---+---+---+
    /// ```
    /// This grid has a size of 3x2.
    pub fn get_size(&self) -> (size: GridVector2)
        ensures
            size == self@.size,
            self@.wf(),
    {
        proof {
            use_type_invariant(self);
        }
        self.size
    }

    /// The number of vertices; the vertices are numbered from 0.
    pub fn vertex_count(&self) -> (n: usize)
        ensures
            n == self@.vertices.len(),
            n == vertex_count(self@.width(), self@.height()),
    {
        proof {
            use_type_invariant(self);
        }
        self.vertices.len()
    }

    /// The number of edges; the edges are numbered from 0.
    pub fn edge_count(&self) -> (n: usize)
        ensures
            n == self@.edges.len(),
            n == edge_count(self@.width(), self@.height()),
    {
        proof {
            use_type_invariant(self);
        }
        self.edges.len()
    }

    /// The number of cells; the cells are numbered from 0.
    pub fn cell_count(&self) -> (n: usize)
        ensures
            n == self@.cells.len(),
            n == cell_count(self@.width(), self@.height()),
    {
        proof {
            use_type_invariant(self);
        }
        self.cells.len()
    }

    /// Checks whether a vertex exists.
    pub fn vertex_exists(&self, id: VertexID) -> (r: bool)
        ensures
            r == (id < vertex_count(self@.width(), self@.height())),
            r == (id < self@.vertices.len()),
    {
        proof {
            use_type_invariant(self);
        }
        id < self.vertices.len()
    }

    /// Returns a copy of the vertex at the given position, if it exists.
    pub fn get_vertex_type(&self, id: VertexID) -> (r: Option<Vertex>)
        ensures
            r == (if id < self@.vertices.len() {
                Some(self@.vertices[id as int])
            } else {
                None
            }),
    {
        if self.vertex_exists(id) {
            Some(self.vertices[id])
        } else {
            None
        }
    }

    /// Returns the lattice position of the vertex with the given id, if it
    /// exists.
    pub fn get_vertex_position(&self, id: VertexID) -> (r: Option<GridVector2>)
        ensures
            r == (if id < self@.vertices.len() {
                Some(
                    Vector2 {
                        x: vertex_x(self@.width(), id as int) as usize,
                        y: vertex_y(self@.width(), id as int) as usize,
                    },
                )
            } else {
                None
            }),
            r matches Some(p) ==> is_lattice_point(
                self@.width(),
                self@.height(),
                p.x as int,
                p.y as int,
            ) && vertex_id(self@.width(), p.x as int, p.y as int) == id,
    {
        proof {
            use_type_invariant(self);
            if id < self@.vertices.len() {
                lattice::lemma_id_round_trip(self@.width(), self@.height(), id as int);
            }
        }
        Grid::vertex_id_to_vector(self.size, id)
    }

    /// Gets the edge table, against which the cells of this grid name their
    /// edges.
    pub fn get_edges(&self) -> (edges: &Vec<Edge>)
        ensures
            edges@ == self@.edges,
    {
        &self.edges
    }

    /// Returns a copy of the edge at the given place of the edge table, if
    /// there is one.
    pub fn get_edge(&self, edge: EdgeRef) -> (r: Option<Edge>)
        ensures
            r == (if edge < self@.edges.len() {
                Some(self@.edges[edge as int])
            } else {
                None
            }),
    {
        if edge < self.edges.len() {
            Some(self.edges[edge])
        } else {
            None
        }
    }

    /// Returns the cell at the given place of the cell table, if there is
    /// one.
    pub fn get_cell(&self, cell: CellRef) -> (r: Option<&Cell>)
        ensures
            r == (if cell < self@.cells.len() {
                Some(&self@.cells[cell as int])
            } else {
                None
            }),
    {
        if cell < self.cells.len() {
            Some(&self.cells[cell])
        } else {
            None
        }
    }

    /// Returns the edges connected to the given vertex, as their places in
    /// the edge table, in the order of the table.
    pub fn get_edges_connected_to_vertex_iter(&self, id: VertexID) -> (found: Vec<EdgeRef>)
        ensures
            is_ascending(found@),
            forall|edge: EdgeRef|
                found@.contains(edge) <==> edge < self@.edges.len() && self@.edges[edge as int]@.connects_to(
                    id,
                ),
    {
        let mut found: Vec<EdgeRef> = Vec::new();
        let mut k: usize = 0;
        while k < self.edges.len()
            invariant
                k <= self.edges.len(),
                is_ascending(found@),
                forall|i: int| 0 <= i < found@.len() ==> found@[i] < k,
                forall|edge: EdgeRef|
                    found@.contains(edge) <==> edge < k && self.edges@[edge as int]@.connects_to(
                        id,
                    ),
            decreases self.edges.len() - k,
        {
            if self.edges[k].connects_to(id) {
                proof {
                    let ghost before = found@;
                    assert forall|edge: EdgeRef|
                        before.push(k).contains(edge) <==> edge < k + 1 && self.edges@[edge as int]@.connects_to(
                            id,
                        ) by {
                        lemma_push_contains(before, k, edge);
                    }
                }
                found.push(k);
            }
            k += 1;
        }
        found
    }

    /// Returns a vector containing the edges connected to the given vertex,
    /// as their places in the edge table, in the order of the table.
    pub fn get_edges_connected_to_vertex(&self, id: VertexID) -> (found: Vec<EdgeRef>)
        ensures
            is_ascending(found@),
            forall|edge: EdgeRef|
                found@.contains(edge) <==> edge < self@.edges.len() && self@.edges[edge as int]@.connects_to(
                    id,
                ),
    {
        self.get_edges_connected_to_vertex_iter(id)
    }

    /// Gets the cell that borders the given edge and is not `cell`: the cell
    /// on the other side of the edge, if `cell` is on one side of it. There
    /// is none where the edge is on the rim of the board.
    pub fn get_cell_on_the_other_side_of_edge(&self, cell: CellRef, edge: EdgeRef) -> (r: Option<
        CellRef,
    >)
        ensures
            r matches Some(other) ==> other != cell && self@.borders(other, edge),
            r is None ==> forall|c: CellRef| c != cell ==> !self@.borders(c, edge),
            r matches Some(other) ==> forall|c: CellRef|
                c != cell && c < other ==> !self@.borders(c, edge),
            self@.borders(cell, edge) ==> forall|c: CellRef|
                c != cell && self@.borders(c, edge) ==> r == Some(c),
    {
        proof {
            use_type_invariant(self);
        }
        let mut c: usize = 0;
        while c < self.cells.len()
            invariant
                c <= self.cells.len(),
                self@.wf(),
                forall|earlier: CellRef|
                    earlier != cell && earlier < c ==> !self@.borders(earlier, edge),
            decreases self.cells.len() - c,
        {
            if c != cell && self.cells[c].has_edge(&edge) {
                proof {
                    if self@.borders(cell, edge) {
                        assert forall|d: CellRef| d != cell && self@.borders(d, edge) implies d
                            == c by {
                            self@.lemma_edge_borders_two(edge, cell, c, d);
                        }
                    }
                }
                return Some(c);
            }
            c += 1;
        }
        None
    }

    /// Gets a vector of the cells that border this cell, in the order of the
    /// cell table.
    pub fn get_cells_around_cell(&self, cell: CellRef) -> (around: Vec<CellRef>)
        ensures
            is_ascending(around@),
            forall|c: CellRef| around@.contains(c) <==> self@.adjacent(cell, c),
    {
        let mut around: Vec<CellRef> = Vec::new();
        if cell >= self.cells.len() {
            return around;
        }
        let boundary = self.cells[cell].get_edges();
        let mut i: usize = 0;
        while i < boundary.len()
            invariant
                cell < self.cells.len(),
                boundary@ == self@.cells[cell as int]@.edges,
                i <= boundary.len(),
                is_ascending(around@),
                forall|c: CellRef|
                    around@.contains(c) <==> c != cell && exists|j: int|
                        0 <= j < i && self@.borders(c, #[trigger] boundary@[j]),
            decreases boundary.len() - i,
        {
            let edge = boundary[i];
            let ghost before = around@;
            assert(self@.borders(cell, edge));
            match self.get_cell_on_the_other_side_of_edge(cell, edge) {
                Some(other) => {
                    insert_ascending(&mut around, other);
                    proof {
                        assert forall|c: CellRef|
                            around@.contains(c) <==> c != cell && exists|j: int|
                                0 <= j < i + 1 && self@.borders(c, #[trigger] boundary@[j]) by {
                            if c != cell && exists|j: int|
                                0 <= j < i + 1 && self@.borders(c, #[trigger] boundary@[j]) {
                                let j = choose|j: int|
                                    0 <= j < i + 1 && self@.borders(c, #[trigger] boundary@[j]);
                                if j == i {
                                    assert(c == other);
                                } else {
                                    assert(before.contains(c));
                                }
                            }
                            if around@.contains(c) {
                                if c == other {
                                    assert(self@.borders(c, boundary@[i as int]));
                                } else {
                                    assert(before.contains(c));
                                    let j = choose|j: int|
                                        0 <= j < i && self@.borders(c, #[trigger] boundary@[j]);
                                    assert(0 <= j < i + 1 && self@.borders(c, boundary@[j]));
                                }
                            }
                        }
                    }
                },
                None => {
                    proof {
                        assert forall|c: CellRef|
                            around@.contains(c) <==> c != cell && exists|j: int|
                                0 <= j < i + 1 && self@.borders(c, #[trigger] boundary@[j]) by {
                            if c != cell && exists|j: int|
                                0 <= j < i + 1 && self@.borders(c, #[trigger] boundary@[j]) {
                                let j = choose|j: int|
                                    0 <= j < i + 1 && self@.borders(c, #[trigger] boundary@[j]);
                                assert(j != i);
                            }
                            if around@.contains(c) {
                                let j = choose|j: int|
                                    0 <= j < i && self@.borders(c, #[trigger] boundary@[j]);
                                assert(0 <= j < i + 1 && self@.borders(c, boundary@[j]));
                            }
                        }
                    }
                },
            }
            i += 1;
        }
        proof {
            assert forall|c: CellRef| around@.contains(c) <==> self@.adjacent(cell, c) by {
                if around@.contains(c) {
                    let j = choose|j: int|
                        0 <= j < boundary@.len() && self@.borders(c, #[trigger] boundary@[j]);
                    assert(self@.borders(cell, boundary@[j]));
                }
                if self@.adjacent(cell, c) {
                    let edge = choose|edge: EdgeRef|
                        #![trigger self@.borders(cell, edge)]
                        self@.borders(cell, edge) && self@.borders(c, edge);
                    let j = choose|j: int| 0 <= j < boundary@.len() && boundary@[j] == edge;
                    assert(self@.borders(c, boundary@[j]));
                }
            }
        }
        around
    }

    /// Gets the region of the given cell: the cells that can be reached
    /// from it by going from cell to bordering cell, breadth first. The
    /// given cell comes first; the cells around a listed cell that are not
    /// listed yet are added in the order of the cell table. What the edges
    /// hold makes no difference, so the region is the whole board. For a
    /// cell that the grid does not have the region is empty.
    pub fn floodfill_from_cell(&self, cell: CellRef) -> (region: Vec<CellRef>)
        ensures
            cell < self@.cells.len() ==> region@.len() > 0 && region@[0] == cell,
            region@.no_duplicates(),
            forall|c: CellRef| region@.contains(c) <==> self@.connected(cell, c),
            forall|k: int|
                0 < k < region@.len() ==> #[trigger] self@.follows_neighbour(region@, k),
            self@.is_breadth_first(region@),
            cell < self@.cells.len() ==> region@.len() == self@.cells.len(),
            cell >= self@.cells.len() ==> region@.len() == 0,
    {
        proof {
            use_type_invariant(self);
        }
        let n = self.cells.len();
        let mut flood_filled: Vec<CellRef> = Vec::new();
        if cell >= n {
            assert forall|c: CellRef| !self@.connected(cell, c) by {
                if self@.connected(cell, c) {
                    let path = choose|path: Seq<CellRef>|
                        #![trigger self@.is_path(path)]
                        self@.is_path(path) && path[0] == cell && path.last() == c;
                    assert(path[0] < self@.cells.len());
                }
            }
            return flood_filled;
        }
        flood_filled.push(cell);
        let mut not_done: VecDeque<CellRef> = VecDeque::new();
        not_done.push_back(cell);
        let ghost mut done: int = 0;
        let ghost mut found_from: Seq<int> = seq![0int];
        proof {
            self@.lemma_connected_to_itself(cell);
            assert(not_done@ =~= flood_filled@.subrange(0, 1));
        }
        while not_done.len() > 0
            invariant
                n == self@.cells.len(),
                cell < n,
                0 <= done <= flood_filled@.len(),
                not_done@ == flood_filled@.subrange(done, flood_filled@.len() as int),
                flood_filled@.len() > 0,
                flood_filled@[0] == cell,
                flood_filled@.no_duplicates(),
                forall|k: int| 0 <= k < flood_filled@.len() ==> (#[trigger] flood_filled@[k]) < n,
                forall|k: int|
                    0 <= k < flood_filled@.len() ==> self@.connected(
                        cell,
                        #[trigger] flood_filled@[k],
                    ),
                forall|k: int, other: CellRef|
                    #![trigger flood_filled@[k], self@.adjacent(flood_filled@[k], other)]
                    0 <= k < done && self@.adjacent(flood_filled@[k], other)
                        ==> flood_filled@.contains(other),
                self@.is_discovery(flood_filled@, found_from, done - 1),
            decreases n - done,
        {
            proof {
                topology::lemma_distinct_below(flood_filled@, n as int);
            }
            let front = not_done.pop_front().unwrap();
            assert(front == flood_filled@[done]);
            let around = self.get_cells_around_cell(front);
            let mut i: usize = 0;
            while i < around.len()
                invariant
                    n == self@.cells.len(),
                    cell < n,
                    0 <= done < flood_filled@.len(),
                    front == flood_filled@[done],
                    is_ascending(around@),
                    forall|c: CellRef| around@.contains(c) <==> self@.adjacent(front, c),
                    i <= around.len(),
                    not_done@ == flood_filled@.subrange(done + 1, flood_filled@.len() as int),
                    flood_filled@[0] == cell,
                    flood_filled@.no_duplicates(),
                    forall|k: int|
                        0 <= k < flood_filled@.len() ==> (#[trigger] flood_filled@[k]) < n,
                    forall|k: int|
                        0 <= k < flood_filled@.len() ==> self@.connected(
                            cell,
                            #[trigger] flood_filled@[k],
                        ),
                    forall|k: int, other: CellRef|
                        #![trigger flood_filled@[k], self@.adjacent(flood_filled@[k], other)]
                        0 <= k < done && self@.adjacent(flood_filled@[k], other)
                            ==> flood_filled@.contains(other),
                    forall|j: int| 0 <= j < i ==> flood_filled@.contains(#[trigger] around@[j]),
                    self@.is_discovery(flood_filled@, found_from, done),
                    forall|k: int, later: int|
                        #![trigger found_from[k], around@[later]]
                        0 < k < flood_filled@.len() && found_from[k] == done && i <= later
                            < around@.len() ==> flood_filled@[k] < around@[later],
                decreases around.len() - i,
            {
                let found = around[i];
                assert(around@.contains(found));
                if !holds(&flood_filled, found) {
                    let ghost before = flood_filled@;
                    proof {
                        assert forall|q: int| 0 <= q < done implies !self@.adjacent(
                            #[trigger] before[q],
                            found,
                        ) by {
                            if self@.adjacent(before[q], found) {
                                assert(before.contains(found));
                            }
                        }
                        assert forall|k: int|
                            0 < k < before.len() && #[trigger] found_from[k]
                                == done implies before[k] < found by {
                            assert(before[k] < around@[i as int]);
                        }
                        self@.lemma_discovery_grows(before, found_from, done, found);
                    }
                    flood_filled.push(found);
                    not_done.push_back(found);
                    proof {
                        let after = flood_filled@;
                        let ghost earlier = found_from;
                        found_from = found_from.push(done);
                        assert(not_done@ =~= after.subrange(done + 1, after.len() as int));
                        self@.lemma_connected_step(cell, front, found);
                        assert forall|k: int, other: CellRef|
                            #![trigger after[k], self@.adjacent(after[k], other)]
                            0 <= k < done && self@.adjacent(after[k], other) implies after.contains(
                            other,
                        ) by {
                            assert(self@.adjacent(before[k], other));
                            lemma_push_contains(before, found, other);
                        }
                        assert forall|j: int| 0 <= j < i + 1 implies after.contains(
                            #[trigger] around@[j],
                        ) by {
                            lemma_push_contains(before, found, around@[j]);
                        }
                        assert forall|k: int, later: int|
                            #![trigger found_from[k], around@[later]]
                            0 < k < after.len() && found_from[k] == done && i + 1 <= later
                                < around@.len() implies after[k] < around@[later] by {
                            if k < before.len() {
                                assert(earlier[k] == done);
                                assert(before[k] < around@[later]);
                            } else {
                                assert(around@[i as int] < around@[later]);
                            }
                        }
                    }
                }
                i += 1;
            }
            proof {
                assert(not_done@ =~= flood_filled@.subrange(
                    done + 1,
                    flood_filled@.len() as int,
                ));
                assert forall|k: int, other: CellRef|
                    #![trigger flood_filled@[k], self@.adjacent(flood_filled@[k], other)]
                    0 <= k < done + 1 && self@.adjacent(
                        flood_filled@[k],
                        other,
                    ) implies flood_filled@.contains(other) by {
                    if k == done {
                        assert(around@.contains(other));
                        let j = choose|j: int| 0 <= j < around@.len() && around@[j] == other;
                        assert(flood_filled@.contains(around@[j]));
                    }
                }
                done = done + 1;
            }
        }
        proof {
            assert(done == flood_filled@.len());
            assert(self@.is_closed(flood_filled@));
            assert forall|c: CellRef| flood_filled@.contains(c) <==> self@.connected(cell, c) by {
                if self@.connected(cell, c) {
                    assert(flood_filled@[0] == cell);
                    self@.lemma_closed_holds_connected(flood_filled@, cell, c);
                }
                if flood_filled@.contains(c) {
                    let k = choose|k: int| 0 <= k < flood_filled@.len() && flood_filled@[k] == c;
                    assert(self@.connected(cell, flood_filled@[k]));
                }
            }
            self@.lemma_region_is_board(cell, flood_filled@);
            self@.lemma_discovery_is_breadth_first(flood_filled@, found_from, done - 1);
        }
        flood_filled
    }

    /// Lists the corners of the given cell in winding order: top left, top
    /// right, bottom right, bottom left. There is none where the grid has
    /// no such cell.
    pub fn get_cell_vertices_in_winding_order(&self, cell: CellRef) -> (r: Option<Vec<VertexID>>)
        ensures
            r is Some == (cell < self@.cells.len()),
            r matches Some(corners) ==> is_square_corners(
                corners@,
                self@.width(),
                cell_column(self@.height(), cell as int),
                cell_row(self@.height(), cell as int),
            ),
            r matches Some(corners) ==> Cell::is_walk(
                self@.cells[cell as int]@.edges,
                self@.edges,
            ) && forall|i: int|
                0 <= i < corners@.len() ==> Cell::walk_vertex(
                    self@.cells[cell as int]@.edges,
                    self@.edges,
                    i,
                ) == Some(#[trigger] corners@[i]),
    {
        proof {
            use_type_invariant(self);
        }
        if cell >= self.cells.len() {
            return None;
        }
        proof {
            let w = self@.width();
            let h = self@.height();
            let (x, y) = lattice::lemma_cell_index_decode(w, h, cell as int);
            let boundary = self@.cells[cell_index(h, x, y)]@.edges;
            lemma_square_walk(self@.edges, boundary, w, h, x, y);
        }
        let corners = self.cells[cell].get_vertices_in_winding_order(&self.edges);
        assert(Cell::walk_vertex(self@.cells[cell as int]@.edges, self@.edges, 0) == Some(
            corners@[0],
        ));
        assert(Cell::walk_vertex(self@.cells[cell as int]@.edges, self@.edges, 1) == Some(
            corners@[1],
        ));
        assert(Cell::walk_vertex(self@.cells[cell as int]@.edges, self@.edges, 2) == Some(
            corners@[2],
        ));
        assert(Cell::walk_vertex(self@.cells[cell as int]@.edges, self@.edges, 3) == Some(
            corners@[3],
        ));
        Some(corners)
    }

    /// Sets what the vertex with the given id holds. Returns whether there
    /// is such a vertex; if there is none, nothing changes.
    pub fn set_vertex_type(&mut self, id: VertexID, kind: Vertex) -> (done: bool)
        ensures
            done == (id < old(self)@.vertices.len()),
            done ==> final(self)@ == (GridView {
                vertices: old(self)@.vertices.update(id as int, kind),
                ..old(self)@
            }),
            !done ==> final(self)@ == old(self)@,
            final(self)@.wf(),
    {
        proof {
            use_type_invariant(&*self);
        }
        if id < self.vertices.len() {
            store(&mut self.vertices, id, kind);
            true
        } else {
            false
        }
    }

    /// Sets the kind of the edge at the given place of the edge table; its
    /// endpoints stay. Returns whether there is such an edge; if there is
    /// none, nothing changes.
    pub fn set_edge_type(&mut self, edge: EdgeRef, kind: EdgeType) -> (done: bool)
        ensures
            done == (edge < old(self)@.edges.len()),
            done ==> final(self)@.edges.len() == old(self)@.edges.len() && final(self)@.edges[edge as int]@
                == (EdgeView { kind, ..old(self)@.edges[edge as int]@ }),
            forall|k: int|
                0 <= k < old(self)@.edges.len() && k != edge ==> (#[trigger] final(self)@.edges[k])
                    == old(self)@.edges[k],
            final(self)@.size == old(self)@.size,
            final(self)@.vertices == old(self)@.vertices,
            final(self)@.cells == old(self)@.cells,
            !done ==> final(self)@ == old(self)@,
            final(self)@.wf(),
    {
        proof {
            use_type_invariant(&*self);
        }
        if edge < self.edges.len() {
            let mut changed = self.edges[edge];
            changed.set_kind(kind);
            proof {
                lemma_edge_table_keeps_endpoints(
                    self.edges@,
                    self.size.x as int,
                    self.size.y as int,
                    edge as int,
                    changed,
                );
            }
            store(&mut self.edges, edge, changed);
            true
        } else {
            false
        }
    }

    /// Sets what the cell at the given place of the cell table holds; its
    /// edges stay. Returns whether there is such a cell; if there is none,
    /// nothing changes.
    pub fn set_cell_type(&mut self, cell: CellRef, kind: CellType) -> (done: bool)
        ensures
            done == (cell < old(self)@.cells.len()),
            done ==> final(self)@.cells.len() == old(self)@.cells.len() && final(self)@.cells[cell as int]@
                == (CellView { kind, ..old(self)@.cells[cell as int]@ }),
            forall|c: int|
                0 <= c < old(self)@.cells.len() && c != cell ==> (#[trigger] final(self)@.cells[c])
                    == old(self)@.cells[c],
            final(self)@.size == old(self)@.size,
            final(self)@.vertices == old(self)@.vertices,
            final(self)@.edges == old(self)@.edges,
            !done ==> final(self)@ == old(self)@,
            final(self)@.wf(),
    {
        proof {
            use_type_invariant(&*self);
        }
        if cell < self.cells.len() {
            let changed = self.cells[cell].with_kind(kind);
            proof {
                lemma_cell_table_keeps_edges(
                    self.cells@,
                    self.size.x as int,
                    self.size.y as int,
                    cell as int,
                    changed,
                );
            }
            store(&mut self.cells, cell, changed);
            true
        } else {
            false
        }
    }
}

} // verus!
