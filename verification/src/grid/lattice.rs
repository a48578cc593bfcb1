//! The arithmetic of a rectangular lattice: how lattice points, the edges
//! between them and the unit squares they enclose are numbered.
//!
//! A board of `w` by `h` cells has `(w + 1) * (h + 1)` lattice points.
//! Everything here is stated over mathematical integers; the executable
//! code of the grid is proved against these definitions.

use vstd::prelude::*;
use vstd::arithmetic::div_mod::{lemma_fundamental_div_mod, lemma_fundamental_div_mod_converse};

verus! {

/// The number of lattice points of a board of `w` by `h` cells.
pub open spec fn vertex_count(w: int, h: int) -> int {
    (w + 1) * (h + 1)
}

/// The number of edges between neighbouring lattice points.
pub open spec fn edge_count(w: int, h: int) -> int {
    w * (h + 1) + h * (w + 1)
}

/// The number of unit squares.
pub open spec fn cell_count(w: int, h: int) -> int {
    w * h
}

/// Whether `(x, y)` is a lattice point of a board of `w` by `h` cells.
pub open spec fn is_lattice_point(w: int, h: int, x: int, y: int) -> bool {
    0 <= x <= w && 0 <= y <= h
}

/// The id of the lattice point `(x, y)` on a board `w` cells wide.
pub open spec fn vertex_id(w: int, x: int, y: int) -> int {
    x + (w + 1) * y
}

/// The column of the lattice point with the given id.
pub open spec fn vertex_x(w: int, id: int) -> int {
    id % (w + 1)
}

/// The row of the lattice point with the given id.
pub open spec fn vertex_y(w: int, id: int) -> int {
    id / (w + 1)
}

/// Whether two lattice points are one step apart, horizontally or
/// vertically.
pub open spec fn is_next_to(x1: int, y1: int, x2: int, y2: int) -> bool {
    ||| (y1 == y2 && (x1 == x2 + 1 || x2 == x1 + 1))
    ||| (x1 == x2 && (y1 == y2 + 1 || y2 == y1 + 1))
}

/// A board has at least as many lattice points as a row or a column has.
pub proof fn lemma_vertex_count_bounds(w: int, h: int)
    requires
        0 <= w,
        0 <= h,
    ensures
        w + 1 <= vertex_count(w, h),
        h + 1 <= vertex_count(w, h),
{
    assert(w + 1 <= (w + 1) * (h + 1) && h + 1 <= (w + 1) * (h + 1)) by (nonlinear_arith)
        requires
            0 <= w,
            0 <= h,
    ;
}

/// The column and the row of an id are no larger than the id.
pub proof fn lemma_vertex_position_in_range(w: int, id: int)
    requires
        0 <= w,
        0 <= id,
    ensures
        0 <= vertex_x(w, id) <= id,
        0 <= vertex_y(w, id) <= id,
{
    let d = w + 1;
    lemma_fundamental_div_mod(id, d);
    let q = id / d;
    let m = id % d;
    assert(0 <= q <= id) by (nonlinear_arith)
        requires
            0 < d,
            0 <= id,
            id == d * q + m,
            0 <= m < d,
    ;
}

/// A board has fewer unit squares than lattice points.
pub proof fn lemma_cell_count_bounds(w: int, h: int)
    requires
        0 <= w,
        0 <= h,
    ensures
        0 <= cell_count(w, h) < vertex_count(w, h),
{
    assert(0 <= w * h < (w + 1) * (h + 1)) by (nonlinear_arith)
        requires
            0 <= w,
            0 <= h,
    ;
}

/// Every id below the vertex count names a lattice point, and numbering that
/// point gives the id back.
pub proof fn lemma_id_round_trip(w: int, h: int, id: int)
    requires
        0 <= w,
        0 <= h,
        0 <= id < vertex_count(w, h),
    ensures
        is_lattice_point(w, h, vertex_x(w, id), vertex_y(w, id)),
        vertex_id(w, vertex_x(w, id), vertex_y(w, id)) == id,
{
    let d = w + 1;
    lemma_fundamental_div_mod(id, d);
    let q = id / d;
    assert(q <= h) by (nonlinear_arith)
        requires
            0 < d,
            0 <= id < d * (h + 1),
            id == d * q + id % d,
            0 <= id % d,
    ;
    assert(0 <= q) by (nonlinear_arith)
        requires
            0 < d,
            0 <= id,
            id == d * q + id % d,
            id % d < d,
    ;
}

/// Every lattice point has an id below the vertex count, and the position of
/// that id is the point.
pub proof fn lemma_position_round_trip(w: int, h: int, x: int, y: int)
    requires
        0 <= w,
        0 <= h,
        is_lattice_point(w, h, x, y),
    ensures
        0 <= vertex_id(w, x, y) < vertex_count(w, h),
        vertex_x(w, vertex_id(w, x, y)) == x,
        vertex_y(w, vertex_id(w, x, y)) == y,
{
    let d = w + 1;
    let id = vertex_id(w, x, y);
    assert(0 <= d * y && d * y + d <= d * (h + 1)) by (nonlinear_arith)
        requires
            0 < d,
            0 <= y <= h,
    ;
    assert(id == y * d + x) by (nonlinear_arith)
        requires
            id == x + d * y,
    ;
    lemma_fundamental_div_mod_converse(id, d, y, x);
}

/// Two lattice points with the same id are the same point.
pub proof fn lemma_vertex_id_injective(w: int, x1: int, y1: int, x2: int, y2: int)
    requires
        0 <= x1 <= w,
        0 <= x2 <= w,
        vertex_id(w, x1, y1) == vertex_id(w, x2, y2),
    ensures
        x1 == x2,
        y1 == y2,
{
    let d = w + 1;
    assert(y1 == y2) by (nonlinear_arith)
        requires
            0 <= x1 < d,
            0 <= x2 < d,
            x1 + d * y1 == x2 + d * y2,
    ;
    assert(d * y1 == d * y2);
}

/// The number of edges made at the lattice points that come before `(x, y)`
/// when the points are visited column by column, each column from the top:
/// every point makes the edge to its left neighbour, if it has one, and then
/// the edge to the neighbour above it, if it has one.
pub open spec fn edges_before(h: int, x: int, y: int) -> int {
    if x <= 0 {
        if y <= 0 {
            0
        } else {
            y - 1
        }
    } else {
        h + (x - 1) * (2 * h + 1) + if y <= 0 {
            0
        } else {
            2 * y - 1
        }
    }
}

/// The place in the edge table of the edge from `(x - 1, y)` to `(x, y)`.
pub open spec fn horizontal_edge_index(h: int, x: int, y: int) -> int {
    edges_before(h, x, y)
}

/// The place in the edge table of the edge from `(x, y - 1)` to `(x, y)`.
pub open spec fn vertical_edge_index(h: int, x: int, y: int) -> int {
    edges_before(h, x, y) + if x <= 0 {
        0int
    } else {
        1int
    }
}

/// The place in the cell table of the unit square whose top left corner is
/// `(x, y)`.
pub open spec fn cell_index(h: int, x: int, y: int) -> int {
    x * h + y
}

/// The column of the unit square at place `c` of the cell table.
pub open spec fn cell_column(h: int, c: int) -> int {
    c / h
}

/// The row of the unit square at place `c` of the cell table.
pub open spec fn cell_row(h: int, c: int) -> int {
    c % h
}

/// Whether `(x, y)` is the top left corner of a unit square of the board.
pub open spec fn is_cell(w: int, h: int, x: int, y: int) -> bool {
    0 <= x < w && 0 <= y < h
}

/// Going down a column, each point adds the edges it makes.
pub proof fn lemma_edges_before_next_row(h: int, x: int, y: int)
    requires
        0 <= x,
        0 <= y,
    ensures
        edges_before(h, x, y + 1) == edges_before(h, x, y) + (if x >= 1 {
            1int
        } else {
            0int
        }) + (if y >= 1 {
            1int
        } else {
            0int
        }),
{
}

/// The next column starts where the column before it ended.
pub proof fn lemma_edges_before_next_column(h: int, x: int)
    requires
        0 <= x,
        0 <= h,
    ensures
        edges_before(h, x + 1, 0) == edges_before(h, x, h + 1),
        edges_before(h, x + 1, 0) == edges_before(h, x, 0) + (if x >= 1 {
            2 * h + 1
        } else {
            h
        }),
{
    if x >= 1 {
        assert(x * (2 * h + 1) == (x - 1) * (2 * h + 1) + (2 * h + 1)) by (nonlinear_arith);
    } else {
        assert((x + 1 - 1) * (2 * h + 1) == 0) by (nonlinear_arith)
            requires
                x == 0,
        ;
    }
}

/// The edge table ends where the column after the last one would start.
pub proof fn lemma_edge_count_is_end(w: int, h: int)
    requires
        0 <= w,
        0 <= h,
    ensures
        edges_before(h, w + 1, 0) == edge_count(w, h),
        0 <= edge_count(w, h),
{
    assert(h + (w + 1 - 1) * (2 * h + 1) == w * (h + 1) + h * (w + 1)) by (nonlinear_arith);
    assert(0 <= w * (h + 1) + h * (w + 1)) by (nonlinear_arith)
        requires
            0 <= w,
            0 <= h,
    ;
}

/// Later columns start later, by at least a whole column of edges.
pub proof fn lemma_columns_ascend(h: int, x1: int, x2: int)
    requires
        0 <= h,
        0 <= x1 < x2,
    ensures
        edges_before(h, x1, h + 1) <= edges_before(h, x2, 0),
    decreases x2 - x1,
{
    lemma_edges_before_next_column(h, x1);
    if x1 + 1 < x2 {
        lemma_columns_ascend(h, x1 + 1, x2);
        lemma_edges_before_next_column(h, x1 + 1);
    }
}

/// Where the edges of one lattice point stand in the table: at or after the
/// start of its column, and before the start of the next.
pub proof fn lemma_edge_index_bounds(w: int, h: int, x: int, y: int)
    requires
        0 <= w,
        0 <= h,
        is_lattice_point(w, h, x, y),
    ensures
        0 <= edges_before(h, x, 0) <= edges_before(h, x, y) <= edges_before(h, x, h + 1),
        edges_before(h, x, h + 1) <= edge_count(w, h),
        x >= 1 ==> 0 <= horizontal_edge_index(h, x, y) < edge_count(w, h),
        y >= 1 ==> 0 <= vertical_edge_index(h, x, y) < edge_count(w, h),
{
    lemma_edge_count_is_end(w, h);
    lemma_edges_before_next_column(h, x);
    if x < w {
        lemma_columns_ascend(h, x, w + 1);
    }
    if x >= 1 {
        lemma_columns_ascend(h, 0, x);
    }
}

/// Distinct lattice edges stand at distinct places of the table: the place
/// tells the point that made the edge and the direction of the edge.
pub proof fn lemma_edge_index_injective(
    h: int,
    x1: int,
    y1: int,
    vertical1: bool,
    x2: int,
    y2: int,
    vertical2: bool,
)
    requires
        0 <= h,
        0 <= x1,
        0 <= x2,
        0 <= y1 <= h,
        0 <= y2 <= h,
        vertical1 ==> y1 >= 1,
        !vertical1 ==> x1 >= 1,
        vertical2 ==> y2 >= 1,
        !vertical2 ==> x2 >= 1,
        (if vertical1 {
            vertical_edge_index(h, x1, y1)
        } else {
            horizontal_edge_index(h, x1, y1)
        }) == (if vertical2 {
            vertical_edge_index(h, x2, y2)
        } else {
            horizontal_edge_index(h, x2, y2)
        }),
    ensures
        x1 == x2,
        y1 == y2,
        vertical1 == vertical2,
{
    lemma_edges_before_next_column(h, x1);
    lemma_edges_before_next_column(h, x2);
    if x1 < x2 {
        lemma_columns_ascend(h, x1, x2);
    }
    if x2 < x1 {
        lemma_columns_ascend(h, x2, x1);
    }
}

/// Every place of the edge table belongs to one lattice edge: the result
/// names the point that made it and tells whether it runs vertically.
pub proof fn lemma_edge_index_decode(w: int, h: int, k: int) -> (r: (int, int, bool))
    requires
        0 <= w,
        0 <= h,
        0 <= k < edge_count(w, h),
    ensures
        is_lattice_point(w, h, r.0, r.1),
        r.2 ==> r.1 >= 1 && k == vertical_edge_index(h, r.0, r.1),
        !r.2 ==> r.0 >= 1 && k == horizontal_edge_index(h, r.0, r.1),
{
    lemma_edge_count_is_end(w, h);
    if k < h {
        (0, k + 1, true)
    } else {
        let d = 2 * h + 1;
        let q = (k - h) / d;
        let r = (k - h) % d;
        lemma_fundamental_div_mod(k - h, d);
        assert(0 <= q < w) by (nonlinear_arith)
            requires
                0 < d,
                0 <= r < d,
                k - h == d * q + r,
                0 <= k - h < (w + 1 - 1) * d,
        ;
        assert((q + 1 - 1) * d == d * q) by (nonlinear_arith);
        let x = q + 1;
        if r == 0 {
            (x, 0, false)
        } else if r % 2 == 1 {
            (x, (r + 1) / 2, false)
        } else {
            (x, r / 2, true)
        }
    }
}

/// Every unit square has a place in the cell table, and distinct squares
/// have distinct places.
pub proof fn lemma_cell_index_bounds(w: int, h: int, x: int, y: int)
    requires
        is_cell(w, h, x, y),
    ensures
        0 <= cell_index(h, x, y) < cell_count(w, h),
{
    assert(0 <= x * h && x * h + h <= w * h) by (nonlinear_arith)
        requires
            0 <= x < w,
            0 < h,
    ;
}

/// The place of a unit square in the cell table tells its corner.
pub proof fn lemma_cell_index_injective(h: int, x1: int, y1: int, x2: int, y2: int)
    requires
        0 <= y1 < h,
        0 <= y2 < h,
        cell_index(h, x1, y1) == cell_index(h, x2, y2),
    ensures
        x1 == x2,
        y1 == y2,
{
    assert(x1 == x2) by (nonlinear_arith)
        requires
            0 <= y1 < h,
            0 <= y2 < h,
            x1 * h + y1 == x2 * h + y2,
    ;
    assert(x1 * h == x2 * h);
}

/// Every place of the cell table belongs to one unit square: the result is
/// its top left corner.
pub proof fn lemma_cell_index_decode(w: int, h: int, c: int) -> (r: (int, int))
    requires
        0 <= w,
        0 <= h,
        0 <= c < cell_count(w, h),
    ensures
        is_cell(w, h, r.0, r.1),
        c == cell_index(h, r.0, r.1),
        r.0 == cell_column(h, c),
        r.1 == cell_row(h, c),
{
    assert(h > 0) by (nonlinear_arith)
        requires
            0 <= w,
            0 <= h,
            0 < w * h,
    ;
    lemma_fundamental_div_mod(c, h);
    let x = c / h;
    let y = c % h;
    assert(0 <= x < w) by (nonlinear_arith)
        requires
            0 < h,
            0 <= y < h,
            c == h * x + y,
            0 <= c < w * h,
    ;
    assert(x * h == h * x) by (nonlinear_arith);
    (x, y)
}

} // verus!
