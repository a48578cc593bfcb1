//! The tables of a grid: which edges and cells a board of a given size has,
//! where each of them stands, and what follows from that.

use vstd::prelude::*;

use super::cell::{Cell, CellType};
use super::edge::{Edge, EdgeRef};
use super::lattice;
use super::lattice::{
    cell_count, cell_index, edge_count, horizontal_edge_index, is_cell, is_lattice_point,
    vertex_count, vertex_id, vertical_edge_index,
};
use super::vertex::VertexID;

verus! {

/// Whether `edge` runs from the vertex `from` to the vertex `to`.
pub open spec fn runs(edge: Edge, from: int, to: int) -> bool {
    edge@.from == from && edge@.to == to
}

/// Whether `boundary` lists the four edges around the unit square with top
/// left corner `(x, y)`: top, right, bottom, left.
pub open spec fn is_square_boundary(boundary: Seq<EdgeRef>, h: int, x: int, y: int) -> bool {
    &&& boundary.len() == 4
    &&& boundary[0] == horizontal_edge_index(h, x + 1, y)
    &&& boundary[1] == vertical_edge_index(h, x + 1, y + 1)
    &&& boundary[2] == horizontal_edge_index(h, x + 1, y + 1)
    &&& boundary[3] == vertical_edge_index(h, x, y + 1)
}

/// Whether `table` holds the edges of the lattice of a board of `w` by `h`
/// cells, each at its place.
pub open spec fn is_edge_table(table: Seq<Edge>, w: int, h: int) -> bool {
    &&& table.len() == edge_count(w, h)
    &&& forall|x: int, y: int|
        #![trigger horizontal_edge_index(h, x, y)]
        1 <= x <= w && 0 <= y <= h ==> runs(
            table[horizontal_edge_index(h, x, y)],
            vertex_id(w, x - 1, y),
            vertex_id(w, x, y),
        )
    &&& forall|x: int, y: int|
        #![trigger vertical_edge_index(h, x, y)]
        0 <= x <= w && 1 <= y <= h ==> runs(
            table[vertical_edge_index(h, x, y)],
            vertex_id(w, x, y - 1),
            vertex_id(w, x, y),
        )
}

/// Whether `table` holds the unit squares of a board of `w` by `h` cells,
/// each at its place and with its four edges.
pub open spec fn is_cell_table(table: Seq<Cell>, w: int, h: int) -> bool {
    &&& table.len() == cell_count(w, h)
    &&& forall|x: int, y: int|
        #![trigger cell_index(h, x, y)]
        is_cell(w, h, x, y) ==> is_square_boundary(table[cell_index(h, x, y)]@.edges, h, x, y)
}

/// The edge at a place of the edge table runs between two neighbouring
/// lattice points: the result names the later of the two and tells whether
/// the edge runs vertically.
pub proof fn lemma_edge_at(table: Seq<Edge>, w: int, h: int, k: int) -> (r: (int, int, bool))
    requires
        0 <= w,
        0 <= h,
        is_edge_table(table, w, h),
        0 <= k < table.len(),
    ensures
        is_lattice_point(w, h, r.0, r.1),
        r.2 ==> r.1 >= 1 && k == vertical_edge_index(h, r.0, r.1) && runs(
            table[k],
            vertex_id(w, r.0, r.1 - 1),
            vertex_id(w, r.0, r.1),
        ),
        !r.2 ==> r.0 >= 1 && k == horizontal_edge_index(h, r.0, r.1) && runs(
            table[k],
            vertex_id(w, r.0 - 1, r.1),
            vertex_id(w, r.0, r.1),
        ),
{
    lattice::lemma_edge_index_decode(w, h, k)
}

/// Lattice points with the same id are the same point.
proof fn lemma_same_point(w: int, x1: int, y1: int, x2: int, y2: int)
    requires
        0 <= x1 <= w,
        0 <= x2 <= w,
    ensures
        vertex_id(w, x1, y1) == vertex_id(w, x2, y2) ==> x1 == x2 && y1 == y2,
{
    if vertex_id(w, x1, y1) == vertex_id(w, x2, y2) {
        lattice::lemma_vertex_id_injective(w, x1, y1, x2, y2);
    }
}

/// The edge of the table that joins two given lattice points, if they are
/// the two ends of an edge at all, stands at the place of the later point.
pub proof fn lemma_edge_between(
    table: Seq<Edge>,
    w: int,
    h: int,
    k: int,
    x1: int,
    y1: int,
    x2: int,
    y2: int,
)
    requires
        0 <= w,
        0 <= h,
        vertex_count(w, h) <= usize::MAX,
        is_edge_table(table, w, h),
        0 <= k < table.len(),
        is_lattice_point(w, h, x1, y1),
        is_lattice_point(w, h, x2, y2),
        table[k]@.connects_to(vertex_id(w, x1, y1) as usize),
        table[k]@.connects_to(vertex_id(w, x2, y2) as usize),
        x1 < x2 || (x1 == x2 && y1 < y2),
    ensures
        (y1 == y2 && x2 == x1 + 1 && k == horizontal_edge_index(h, x2, y2)) || (x1 == x2 && y2
            == y1 + 1 && k == vertical_edge_index(h, x2, y2)),
{
    let (a, b, vertical) = lemma_edge_at(table, w, h, k);
    lattice::lemma_position_round_trip(w, h, x1, y1);
    lattice::lemma_position_round_trip(w, h, x2, y2);
    lemma_same_point(w, a, b, x1, y1);
    lemma_same_point(w, a, b, x2, y2);
    if vertical {
        lattice::lemma_position_round_trip(w, h, a, b - 1);
        lemma_same_point(w, a, b - 1, x1, y1);
        lemma_same_point(w, a, b - 1, x2, y2);
    } else {
        lattice::lemma_position_round_trip(w, h, a - 1, b);
        lemma_same_point(w, a - 1, b, x1, y1);
        lemma_same_point(w, a - 1, b, x2, y2);
    }
}

/// Which edges of the table touch two corners of one unit square: the four
/// edges around the square, each at its place, and no others.
pub proof fn lemma_edges_of_square(table: Seq<Edge>, w: int, h: int, k: int, x: int, y: int)
    requires
        0 <= w,
        0 <= h,
        vertex_count(w, h) <= usize::MAX,
        is_edge_table(table, w, h),
        0 <= k < table.len(),
        is_cell(w, h, x, y),
    ensures
        (table[k]@.connects_to(vertex_id(w, x, y) as usize) && table[k]@.connects_to(
            vertex_id(w, x + 1, y) as usize,
        )) <==> k == horizontal_edge_index(h, x + 1, y),
        (table[k]@.connects_to(vertex_id(w, x, y) as usize) && table[k]@.connects_to(
            vertex_id(w, x, y + 1) as usize,
        )) <==> k == vertical_edge_index(h, x, y + 1),
        (table[k]@.connects_to(vertex_id(w, x + 1, y + 1) as usize) && table[k]@.connects_to(
            vertex_id(w, x + 1, y) as usize,
        )) <==> k == vertical_edge_index(h, x + 1, y + 1),
        (table[k]@.connects_to(vertex_id(w, x + 1, y + 1) as usize) && table[k]@.connects_to(
            vertex_id(w, x, y + 1) as usize,
        )) <==> k == horizontal_edge_index(h, x + 1, y + 1),
{
    lattice::lemma_position_round_trip(w, h, x, y);
    lattice::lemma_position_round_trip(w, h, x + 1, y);
    lattice::lemma_position_round_trip(w, h, x, y + 1);
    lattice::lemma_position_round_trip(w, h, x + 1, y + 1);
    if table[k]@.connects_to(vertex_id(w, x, y) as usize) && table[k]@.connects_to(
        vertex_id(w, x + 1, y) as usize,
    ) {
        lemma_edge_between(table, w, h, k, x, y, x + 1, y);
    }
    if table[k]@.connects_to(vertex_id(w, x, y) as usize) && table[k]@.connects_to(
        vertex_id(w, x, y + 1) as usize,
    ) {
        lemma_edge_between(table, w, h, k, x, y, x, y + 1);
    }
    if table[k]@.connects_to(vertex_id(w, x + 1, y + 1) as usize) && table[k]@.connects_to(
        vertex_id(w, x + 1, y) as usize,
    ) {
        lemma_edge_between(table, w, h, k, x + 1, y, x + 1, y + 1);
    }
    if table[k]@.connects_to(vertex_id(w, x + 1, y + 1) as usize) && table[k]@.connects_to(
        vertex_id(w, x, y + 1) as usize,
    ) {
        lemma_edge_between(table, w, h, k, x, y + 1, x + 1, y + 1);
    }
}

/// The four edges around a unit square stand at four different places of
/// the edge table, all within it.
pub proof fn lemma_square_edges_distinct(w: int, h: int, x: int, y: int)
    requires
        0 <= w,
        0 <= h,
        is_cell(w, h, x, y),
    ensures
        0 <= horizontal_edge_index(h, x + 1, y) < edge_count(w, h),
        0 <= vertical_edge_index(h, x + 1, y + 1) < edge_count(w, h),
        0 <= horizontal_edge_index(h, x + 1, y + 1) < edge_count(w, h),
        0 <= vertical_edge_index(h, x, y + 1) < edge_count(w, h),
        horizontal_edge_index(h, x + 1, y) != vertical_edge_index(h, x + 1, y + 1),
        horizontal_edge_index(h, x + 1, y) != horizontal_edge_index(h, x + 1, y + 1),
        horizontal_edge_index(h, x + 1, y) != vertical_edge_index(h, x, y + 1),
        vertical_edge_index(h, x + 1, y + 1) != horizontal_edge_index(h, x + 1, y + 1),
        vertical_edge_index(h, x + 1, y + 1) != vertical_edge_index(h, x, y + 1),
        horizontal_edge_index(h, x + 1, y + 1) != vertical_edge_index(h, x, y + 1),
{
    lattice::lemma_edge_index_bounds(w, h, x + 1, y);
    lattice::lemma_edge_index_bounds(w, h, x + 1, y + 1);
    lattice::lemma_edge_index_bounds(w, h, x, y + 1);
    lattice::lemma_edges_before_next_column(h, x);
}

/// Whether `corners` lists the four corners of the unit square with top
/// left corner `(x, y)`: top left, top right, bottom right, bottom left.
pub open spec fn is_square_corners(corners: Seq<VertexID>, w: int, x: int, y: int) -> bool {
    &&& corners.len() == 4
    &&& corners[0] == vertex_id(w, x, y)
    &&& corners[1] == vertex_id(w, x + 1, y)
    &&& corners[2] == vertex_id(w, x + 1, y + 1)
    &&& corners[3] == vertex_id(w, x, y + 1)
}

/// The four edges around a unit square can be walked, and the walk passes
/// the corners of the square: top left, top right, bottom right, bottom
/// left, and back to the top left.
pub proof fn lemma_square_walk(
    table: Seq<Edge>,
    boundary: Seq<EdgeRef>,
    w: int,
    h: int,
    x: int,
    y: int,
)
    requires
        0 <= w,
        0 <= h,
        vertex_count(w, h) <= usize::MAX,
        is_edge_table(table, w, h),
        is_cell(w, h, x, y),
        is_square_boundary(boundary, h, x, y),
    ensures
        Cell::is_walk(boundary, table),
        Cell::walk_vertex(boundary, table, 0) == Some(vertex_id(w, x, y) as usize),
        Cell::walk_vertex(boundary, table, 1) == Some(vertex_id(w, x + 1, y) as usize),
        Cell::walk_vertex(boundary, table, 2) == Some(vertex_id(w, x + 1, y + 1) as usize),
        Cell::walk_vertex(boundary, table, 3) == Some(vertex_id(w, x, y + 1) as usize),
        Cell::walk_vertex(boundary, table, 4) == Some(vertex_id(w, x, y) as usize),
{
    reveal_with_fuel(Cell::walk_vertex, 6);
    lemma_square_edges_distinct(w, h, x, y);
    lattice::lemma_position_round_trip(w, h, x, y);
    lattice::lemma_position_round_trip(w, h, x + 1, y);
    lattice::lemma_position_round_trip(w, h, x, y + 1);
    lattice::lemma_position_round_trip(w, h, x + 1, y + 1);
    lemma_same_point(w, x, y, x + 1, y);
    lemma_same_point(w, x, y, x, y + 1);
    lemma_same_point(w, x, y, x + 1, y + 1);
    lemma_same_point(w, x + 1, y, x, y + 1);
    lemma_same_point(w, x + 1, y, x + 1, y + 1);
    lemma_same_point(w, x, y + 1, x + 1, y + 1);
    let top = table[boundary[0] as int]@;
    let right = table[boundary[1] as int]@;
    let bottom = table[boundary[2] as int]@;
    let left = table[boundary[3] as int]@;
    assert(top.from == vertex_id(w, x, y) && top.to == vertex_id(w, x + 1, y));
    assert(right.from == vertex_id(w, x + 1, y) && right.to == vertex_id(w, x + 1, y + 1));
    assert(bottom.from == vertex_id(w, x, y + 1) && bottom.to == vertex_id(w, x + 1, y + 1));
    assert(left.from == vertex_id(w, x, y) && left.to == vertex_id(w, x, y + 1));
    assert(Cell::walk_start(boundary, table) == Some(vertex_id(w, x, y) as usize));
    assert(Cell::walk_vertex(boundary, table, 0) == Some(vertex_id(w, x, y) as usize));
    assert(Cell::walk_vertex(boundary, table, 1) == Some(vertex_id(w, x + 1, y) as usize));
    assert(Cell::walk_vertex(boundary, table, 2) == Some(vertex_id(w, x + 1, y + 1) as usize));
    assert(Cell::walk_vertex(boundary, table, 3) == Some(vertex_id(w, x, y + 1) as usize));
    assert(Cell::walk_vertex(boundary, table, 4) == Some(vertex_id(w, x, y) as usize));
}

/// An edge table stays one when an edge is replaced by one with the same
/// endpoints.
pub proof fn lemma_edge_table_keeps_endpoints(
    table: Seq<Edge>,
    w: int,
    h: int,
    k: int,
    changed: Edge,
)
    requires
        0 <= w,
        0 <= h,
        is_edge_table(table, w, h),
        0 <= k < table.len(),
        changed@.from == table[k]@.from,
        changed@.to == table[k]@.to,
    ensures
        is_edge_table(table.update(k, changed), w, h),
{
    let after = table.update(k, changed);
    assert forall|x: int, y: int|
        #![trigger horizontal_edge_index(h, x, y)]
        1 <= x <= w && 0 <= y <= h implies runs(
        after[horizontal_edge_index(h, x, y)],
        vertex_id(w, x - 1, y),
        vertex_id(w, x, y),
    ) by {
        lattice::lemma_edge_index_bounds(w, h, x, y);
    }
    assert forall|x: int, y: int|
        #![trigger vertical_edge_index(h, x, y)]
        0 <= x <= w && 1 <= y <= h implies runs(
        after[vertical_edge_index(h, x, y)],
        vertex_id(w, x, y - 1),
        vertex_id(w, x, y),
    ) by {
        lattice::lemma_edge_index_bounds(w, h, x, y);
    }
}

/// A cell table stays one when a cell is replaced by one with the same
/// edges.
pub proof fn lemma_cell_table_keeps_edges(table: Seq<Cell>, w: int, h: int, c: int, changed: Cell)
    requires
        0 <= w,
        0 <= h,
        is_cell_table(table, w, h),
        0 <= c < table.len(),
        changed@.edges == table[c]@.edges,
    ensures
        is_cell_table(table.update(c, changed), w, h),
{
    let after = table.update(c, changed);
    assert forall|x: int, y: int|
        #![trigger cell_index(h, x, y)]
        is_cell(w, h, x, y) implies is_square_boundary(
        after[cell_index(h, x, y)]@.edges,
        h,
        x,
        y,
    ) by {
        lattice::lemma_cell_index_bounds(w, h, x, y);
    }
}

/// The four edges around a unit square follow each other: each has a
/// corner of the square in common with the next.
pub proof fn lemma_square_is_chain(
    table: Seq<Edge>,
    boundary: Seq<EdgeRef>,
    w: int,
    h: int,
    x: int,
    y: int,
)
    requires
        0 <= w,
        0 <= h,
        is_edge_table(table, w, h),
        is_cell(w, h, x, y),
        is_square_boundary(boundary, h, x, y),
    ensures
        Cell::edges_known(boundary, table),
        Cell::is_chain(boundary, table),
        Cell::checked(boundary, CellType::Blank, table) is Ok,
{
    lemma_square_edges_distinct(w, h, x, y);
    let top = table[boundary[0] as int]@;
    let right = table[boundary[1] as int]@;
    let bottom = table[boundary[2] as int]@;
    let left = table[boundary[3] as int]@;
    assert(top.connects_to_edge(right));
    assert(right.connects_to_edge(bottom));
    assert(bottom.connects_to_edge(left));
    assert forall|i: int| 0 <= i < boundary.len() - 1 implies table[(
    #[trigger] boundary[i]) as int]@.connects_to_edge(table[boundary[i + 1] as int]@) by {
        if i == 0 {
        } else if i == 1 {
        } else {
        }
    }
}

} // verus!
