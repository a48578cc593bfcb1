//! Which cells of a grid lie next to each other, and which can be reached
//! from which: the definitions that the grid's queries are stated over, and
//! what follows from them for the grid of a lattice.

use vstd::prelude::*;

use super::cell::CellRef;
use super::edge::EdgeRef;
use super::lattice::{
    cell_index, horizontal_edge_index, is_cell, is_next_to, lemma_cell_count_bounds,
    lemma_cell_index_bounds, lemma_cell_index_decode, lemma_cell_index_injective,
    lemma_edge_index_injective, lemma_position_round_trip, vertex_x, vertex_y,
    vertical_edge_index,
};
use super::tables::{is_square_boundary, lemma_edge_at, lemma_square_edges_distinct};
use super::GridView;

verus! {

impl GridView {
    /// Whether `edge` is one of the edges around the cell `cell`.
    pub open spec fn borders(self, cell: CellRef, edge: EdgeRef) -> bool {
        cell < self.cells.len() && self.cells[cell as int]@.edges.contains(edge)
    }

    /// Whether `a` and `b` are two cells with an edge in common.
    pub open spec fn adjacent(self, a: CellRef, b: CellRef) -> bool {
        a != b && exists|edge: EdgeRef|
            #![trigger self.borders(a, edge)]
            self.borders(a, edge) && self.borders(b, edge)
    }

    /// Whether `path` is a list of cells in which each is adjacent to the
    /// one that follows it.
    pub open spec fn is_path(self, path: Seq<CellRef>) -> bool {
        &&& path.len() >= 1
        &&& forall|i: int| 0 <= i < path.len() ==> (#[trigger] path[i]) < self.cells.len()
        &&& forall|i: int|
            0 <= i < path.len() - 1 ==> self.adjacent(#[trigger] path[i], path[i + 1])
    }

    /// Whether `b` can be reached from the cell `a` by going from cell to
    /// adjacent cell.
    pub open spec fn connected(self, a: CellRef, b: CellRef) -> bool {
        exists|path: Seq<CellRef>|
            #![trigger self.is_path(path)]
            self.is_path(path) && path[0] == a && path.last() == b
    }

    /// Whether every cell adjacent to a cell of `region` is in `region` too.
    pub open spec fn is_closed(self, region: Seq<CellRef>) -> bool {
        forall|k: int, other: CellRef|
            #![trigger region[k], self.adjacent(region[k], other)]
            0 <= k < region.len() && self.adjacent(region[k], other) ==> region.contains(other)
    }

    /// Whether the cell at place `k` of `region` is adjacent to a cell at an
    /// earlier place.
    pub open spec fn follows_neighbour(self, region: Seq<CellRef>, k: int) -> bool {
        exists|p: int| 0 <= p < k && self.adjacent(#[trigger] region[p], region[k])
    }

    /// Whether `p` is the first place of `region` that holds a cell adjacent
    /// to the cell at the later place `k`.
    pub open spec fn is_first_neighbour(self, region: Seq<CellRef>, p: int, k: int) -> bool {
        &&& 0 <= p < k < region.len()
        &&& self.adjacent(region[p], region[k])
        &&& forall|q: int| 0 <= q < p ==> !self.adjacent(#[trigger] region[q], region[k])
    }

    /// Whether `region` lists its cells breadth first: a cell whose first
    /// neighbour in the list stands earlier comes earlier, and of two cells
    /// with the same first neighbour the one with the lower place in the
    /// cell table comes earlier.
    pub open spec fn is_breadth_first(self, region: Seq<CellRef>) -> bool {
        forall|j: int, k: int, p: int, q: int|
            #![trigger self.is_first_neighbour(region, p, j), self.is_first_neighbour(region, q, k)]
            j < k && self.is_first_neighbour(region, p, j) && self.is_first_neighbour(region, q, k)
                ==> p < q || (p == q && region[j] < region[k])
    }

    /// Whether `found_from` names, for each cell of `region` but the first,
    /// the place of its first neighbour, none of them after `bound`, and
    /// the cells stand in the order of these places and then of their own
    /// places in the cell table.
    pub open spec fn is_discovery(
        self,
        region: Seq<CellRef>,
        found_from: Seq<int>,
        bound: int,
    ) -> bool {
        &&& found_from.len() == region.len()
        &&& forall|k: int|
            0 < k < region.len() ==> self.is_first_neighbour(region, #[trigger] found_from[k], k)
                && found_from[k] <= bound
        &&& forall|j: int, k: int|
            #![trigger found_from[j], found_from[k]]
            0 < j < k < region.len() ==> found_from[j] < found_from[k] || (found_from[j]
                == found_from[k] && region[j] < region[k])
    }

    /// A cell has one first neighbour in a list at most.
    pub proof fn lemma_first_neighbour_unique(self, region: Seq<CellRef>, p: int, q: int, k: int)
        requires
            self.is_first_neighbour(region, p, k),
            self.is_first_neighbour(region, q, k),
        ensures
            p == q,
    {
        if p < q {
            assert(!self.adjacent(region[p], region[k]));
        }
        if q < p {
            assert(!self.adjacent(region[q], region[k]));
        }
    }

    /// A discovery stays one when a cell is added that was found from the
    /// cell at `bound`, borders none of the cells before that one, and
    /// comes after the cells found from that one so far.
    pub proof fn lemma_discovery_grows(
        self,
        region: Seq<CellRef>,
        found_from: Seq<int>,
        bound: int,
        found: CellRef,
    )
        requires
            self.is_discovery(region, found_from, bound),
            0 <= bound < region.len(),
            self.adjacent(region[bound], found),
            forall|q: int| 0 <= q < bound ==> !self.adjacent(#[trigger] region[q], found),
            forall|k: int|
                0 < k < region.len() && #[trigger] found_from[k] == bound ==> region[k] < found,
        ensures
            self.is_discovery(region.push(found), found_from.push(bound), bound),
    {
        let longer = region.push(found);
        let from = found_from.push(bound);
        assert forall|k: int| 0 < k < longer.len() implies self.is_first_neighbour(
            longer,
            #[trigger] from[k],
            k,
        ) && from[k] <= bound by {
            if k < region.len() {
                let p = found_from[k];
                assert(self.is_first_neighbour(region, p, k));
                assert(longer[p] == region[p] && longer[k] == region[k]);
                assert forall|q: int| 0 <= q < p implies !self.adjacent(
                    #[trigger] longer[q],
                    longer[k],
                ) by {
                    assert(longer[q] == region[q]);
                }
            } else {
                assert(longer[bound] == region[bound]);
                assert forall|q: int| 0 <= q < bound implies !self.adjacent(
                    #[trigger] longer[q],
                    longer[k],
                ) by {
                    assert(longer[q] == region[q]);
                }
            }
        }
        assert forall|j: int, k: int|
            #![trigger from[j], from[k]]
            0 < j < k < longer.len() implies from[j] < from[k] || (from[j] == from[k] && longer[j]
            < longer[k]) by {
            if k < region.len() {
                assert(found_from[j] < found_from[k] || (found_from[j] == found_from[k]
                    && region[j] < region[k]));
            } else {
                assert(found_from[j] <= bound);
            }
        }
    }

    /// A discovery lists its cells breadth first, each after a cell that it
    /// is adjacent to.
    pub proof fn lemma_discovery_is_breadth_first(
        self,
        region: Seq<CellRef>,
        found_from: Seq<int>,
        bound: int,
    )
        requires
            self.is_discovery(region, found_from, bound),
        ensures
            self.is_breadth_first(region),
            forall|k: int| 0 < k < region.len() ==> #[trigger] self.follows_neighbour(region, k),
    {
        assert forall|j: int, k: int, p: int, q: int|
            #![trigger self.is_first_neighbour(region, p, j), self.is_first_neighbour(region, q, k)]
            j < k && self.is_first_neighbour(region, p, j) && self.is_first_neighbour(
                region,
                q,
                k,
            ) implies p < q || (p == q && region[j] < region[k]) by {
            assert(self.is_first_neighbour(region, found_from[j], j));
            assert(self.is_first_neighbour(region, found_from[k], k));
            self.lemma_first_neighbour_unique(region, p, found_from[j], j);
            self.lemma_first_neighbour_unique(region, q, found_from[k], k);
        }
        assert forall|k: int| 0 < k < region.len() implies #[trigger] self.follows_neighbour(
            region,
            k,
        ) by {
            assert(self.is_first_neighbour(region, found_from[k], k));
            assert(self.adjacent(region[found_from[k]], region[k]));
        }
    }

    /// A cell that is adjacent to a cell at an earlier place of a list has a
    /// first neighbour in the list: the result is its place.
    pub proof fn lemma_first_neighbour_exists(self, region: Seq<CellRef>, p: int, k: int) -> (first:
        int)
        requires
            0 <= p < k < region.len(),
            self.adjacent(region[p], region[k]),
        ensures
            self.is_first_neighbour(region, first, k),
            first <= p,
        decreases p,
    {
        if exists|q: int| 0 <= q < p && self.adjacent(#[trigger] region[q], region[k]) {
            let q = choose|q: int| 0 <= q < p && self.adjacent(#[trigger] region[q], region[k]);
            self.lemma_first_neighbour_exists(region, q, k)
        } else {
            p
        }
    }

    /// Two breadth-first lists of the same cells that start with the same
    /// cell agree place by place, as far as both go.
    pub proof fn lemma_breadth_first_agree(
        self,
        first: Seq<CellRef>,
        second: Seq<CellRef>,
        k: int,
    )
        requires
            first.len() > 0,
            second.len() > 0,
            first[0] == second[0],
            first.no_duplicates(),
            second.no_duplicates(),
            forall|c: CellRef| first.contains(c) <==> second.contains(c),
            forall|i: int| 0 < i < first.len() ==> #[trigger] self.follows_neighbour(first, i),
            forall|i: int| 0 < i < second.len() ==> #[trigger] self.follows_neighbour(second, i),
            self.is_breadth_first(first),
            self.is_breadth_first(second),
            0 <= k <= first.len(),
            k <= second.len(),
        ensures
            forall|i: int| 0 <= i < k ==> first[i] == second[i],
        decreases k,
    {
        if k > 1 {
            self.lemma_breadth_first_agree(first, second, k - 1);
            let at = k - 1;
            let mine = first[at];
            let theirs = second[at];
            if mine != theirs {
                // where each list holds what the other has at this place
                assert(first.contains(mine));
                let there = choose|i: int| 0 <= i < second.len() && second[i] == mine;
                assert(second.contains(theirs));
                let here = choose|i: int| 0 <= i < first.len() && first[i] == theirs;
                if there < at {
                    assert(first[there] == second[there]);
                }
                if here < at {
                    assert(second[here] == first[here]);
                }
                assert(there > at && here > at);
                // the first neighbour of each is the same in both lists
                assert(self.follows_neighbour(first, at));
                let p0 = choose|p: int| 0 <= p < at && self.adjacent(#[trigger] first[p], first[at]);
                let p = self.lemma_first_neighbour_exists(first, p0, at);
                assert(self.follows_neighbour(second, at));
                let q0 = choose|q: int|
                    0 <= q < at && self.adjacent(#[trigger] second[q], second[at]);
                let q = self.lemma_first_neighbour_exists(second, q0, at);
                assert(self.is_first_neighbour(second, p, there)) by {
                    assert(second[p] == first[p]);
                    assert forall|i: int| 0 <= i < p implies !self.adjacent(
                        #[trigger] second[i],
                        second[there],
                    ) by {
                        assert(second[i] == first[i]);
                        assert(!self.adjacent(first[i], first[at]));
                    }
                }
                assert(self.is_first_neighbour(first, q, here)) by {
                    assert(first[q] == second[q]);
                    assert forall|i: int| 0 <= i < q implies !self.adjacent(
                        #[trigger] first[i],
                        first[here],
                    ) by {
                        assert(first[i] == second[i]);
                        assert(!self.adjacent(second[i], second[at]));
                    }
                }
                // so each list puts its own cell before the other's
                assert(self.is_first_neighbour(first, p, at) && self.is_first_neighbour(
                    first,
                    q,
                    here,
                ));
                assert(p < q || (p == q && first[at] < first[here]));
                assert(self.is_first_neighbour(second, q, at) && self.is_first_neighbour(
                    second,
                    p,
                    there,
                ));
                assert(q < p || (q == p && second[at] < second[there]));
                assert(false);
            }
        }
    }

    /// There is one breadth-first list of a region: two lists that start
    /// with the same cell, hold the same cells, each once and each but the
    /// first after a cell that it is adjacent to, and that are both breadth
    /// first, are the same list.
    pub proof fn lemma_breadth_first_unique(self, first: Seq<CellRef>, second: Seq<CellRef>)
        requires
            first.len() > 0,
            second.len() > 0,
            first[0] == second[0],
            first.no_duplicates(),
            second.no_duplicates(),
            forall|c: CellRef| first.contains(c) <==> second.contains(c),
            forall|i: int| 0 < i < first.len() ==> #[trigger] self.follows_neighbour(first, i),
            forall|i: int| 0 < i < second.len() ==> #[trigger] self.follows_neighbour(second, i),
            self.is_breadth_first(first),
            self.is_breadth_first(second),
        ensures
            first == second,
    {
        let shorter = if first.len() <= second.len() {
            first.len() as int
        } else {
            second.len() as int
        };
        self.lemma_breadth_first_agree(first, second, shorter);
        if first.len() < second.len() {
            let extra = second[shorter];
            assert(second.contains(extra));
            assert(first.contains(extra));
            let i = choose|i: int| 0 <= i < first.len() && first[i] == extra;
            assert(second[i] == extra);
        }
        if second.len() < first.len() {
            let extra = first[shorter];
            assert(first.contains(extra));
            assert(second.contains(extra));
            let i = choose|i: int| 0 <= i < second.len() && second[i] == extra;
            assert(first[i] == extra);
        }
        assert(first =~= second);
    }

    /// If `b` is adjacent to `a`, then `a` is adjacent to `b`.
    pub proof fn lemma_adjacent_symmetric(self, a: CellRef, b: CellRef)
        ensures
            self.adjacent(a, b) == self.adjacent(b, a),
    {
        if self.adjacent(a, b) {
            let edge = choose|edge: EdgeRef|
                #![trigger self.borders(a, edge)]
                self.borders(a, edge) && self.borders(b, edge);
            assert(self.borders(b, edge) && self.borders(a, edge));
        }
        if self.adjacent(b, a) {
            let edge = choose|edge: EdgeRef|
                #![trigger self.borders(b, edge)]
                self.borders(b, edge) && self.borders(a, edge);
            assert(self.borders(a, edge) && self.borders(b, edge));
        }
    }

    /// If the cells listed in `around_a` are those adjacent to `a`, and
    /// those in `around_b` are those adjacent to `b`, then `b` is listed
    /// with `a` exactly if `a` is listed with `b`.
    pub proof fn lemma_neighbours_symmetric(
        self,
        a: CellRef,
        b: CellRef,
        around_a: Seq<CellRef>,
        around_b: Seq<CellRef>,
    )
        requires
            forall|c: CellRef| around_a.contains(c) <==> self.adjacent(a, c),
            forall|c: CellRef| around_b.contains(c) <==> self.adjacent(b, c),
        ensures
            around_a.contains(b) <==> around_b.contains(a),
    {
        self.lemma_adjacent_symmetric(a, b);
    }

    /// Every cell can be reached from itself.
    pub proof fn lemma_connected_to_itself(self, a: CellRef)
        requires
            a < self.cells.len(),
        ensures
            self.connected(a, a),
    {
        let path = seq![a];
        assert(self.is_path(path));
        assert(path[0] == a && path.last() == a);
    }

    /// What can be reached from `a` can be left for an adjacent cell.
    pub proof fn lemma_connected_step(self, a: CellRef, b: CellRef, c: CellRef)
        requires
            self.connected(a, b),
            self.adjacent(b, c),
        ensures
            self.connected(a, c),
    {
        let path = choose|path: Seq<CellRef>|
            #![trigger self.is_path(path)]
            self.is_path(path) && path[0] == a && path.last() == b;
        let longer = path.push(c);
        assert forall|i: int| 0 <= i < longer.len() - 1 implies self.adjacent(
            #[trigger] longer[i],
            longer[i + 1],
        ) by {
            if i < path.len() - 1 {
                assert(longer[i] == path[i]);
                assert(longer[i + 1] == path[i + 1]);
            } else {
                assert(longer[i] == b);
                assert(longer[i + 1] == c);
            }
        }
        assert(self.is_path(longer));
        assert(longer[0] == a && longer.last() == c);
    }

    /// Reaching goes both ways.
    pub proof fn lemma_connected_symmetric(self, a: CellRef, b: CellRef)
        requires
            self.connected(a, b),
        ensures
            self.connected(b, a),
    {
        let path = choose|path: Seq<CellRef>|
            #![trigger self.is_path(path)]
            self.is_path(path) && path[0] == a && path.last() == b;
        let back = path.reverse();
        assert forall|i: int| 0 <= i < back.len() - 1 implies self.adjacent(
            #[trigger] back[i],
            back[i + 1],
        ) by {
            let j = path.len() - 2 - i;
            assert(back[i] == path[j + 1]);
            assert(back[i + 1] == path[j]);
            assert(self.adjacent(path[j], path[j + 1]));
            self.lemma_adjacent_symmetric(path[j], path[j + 1]);
        }
        assert forall|i: int| 0 <= i < back.len() implies (#[trigger] back[i])
            < self.cells.len() by {
            assert(back[i] == path[path.len() - 1 - i]);
        }
        assert(self.is_path(back));
        assert(back[0] == b && back.last() == a);
    }

    /// What can be reached from something that can be reached can be
    /// reached.
    pub proof fn lemma_connected_transitive(self, a: CellRef, b: CellRef, c: CellRef)
        requires
            self.connected(a, b),
            self.connected(b, c),
        ensures
            self.connected(a, c),
    {
        let path = choose|path: Seq<CellRef>|
            #![trigger self.is_path(path)]
            self.is_path(path) && path[0] == b && path.last() == c;
        self.lemma_connected_along(a, path, path.len() - 1);
    }

    /// From what reaches the start of a path, every cell on the path can be
    /// reached.
    pub proof fn lemma_connected_along(self, a: CellRef, path: Seq<CellRef>, i: int)
        requires
            self.is_path(path),
            self.connected(a, path[0]),
            0 <= i < path.len(),
        ensures
            self.connected(a, path[i]),
        decreases i,
    {
        if i > 0 {
            self.lemma_connected_along(a, path, i - 1);
            assert(self.adjacent(path[i - 1], path[i - 1 + 1]));
            self.lemma_connected_step(a, path[i - 1], path[i]);
        }
    }

    /// A closed region holds every cell of a path that starts in it.
    pub proof fn lemma_closed_holds_path(self, region: Seq<CellRef>, path: Seq<CellRef>, i: int)
        requires
            self.is_closed(region),
            self.is_path(path),
            region.contains(path[0]),
            0 <= i < path.len(),
        ensures
            region.contains(path[i]),
        decreases i,
    {
        if i > 0 {
            self.lemma_closed_holds_path(region, path, i - 1);
            let k = choose|k: int| 0 <= k < region.len() && region[k] == path[i - 1];
            assert(self.adjacent(path[i - 1], path[i - 1 + 1]));
            assert(self.adjacent(region[k], path[i]));
        }
    }

    /// A closed region holds every cell that can be reached from one of its
    /// cells.
    pub proof fn lemma_closed_holds_connected(self, region: Seq<CellRef>, a: CellRef, b: CellRef)
        requires
            self.is_closed(region),
            region.contains(a),
            self.connected(a, b),
        ensures
            region.contains(b),
    {
        let path = choose|path: Seq<CellRef>|
            #![trigger self.is_path(path)]
            self.is_path(path) && path[0] == a && path.last() == b;
        self.lemma_closed_holds_path(region, path, path.len() - 1);
    }

    /// In the grid of a lattice, a cell with a given edge is one of the two
    /// unit squares on either side of that edge. The result names the
    /// corner of the cell, then the lattice point that made the edge and
    /// whether the edge runs vertically.
    pub proof fn lemma_cell_beside_edge(self, cell: CellRef, edge: EdgeRef) -> (r: (
        int,
        int,
        int,
        int,
        bool,
    ))
        requires
            self.wf(),
            self.borders(cell, edge),
        ensures
            is_cell(self.width(), self.height(), r.0, r.1),
            cell == cell_index(self.height(), r.0, r.1),
            0 <= r.2,
            0 <= r.3 <= self.height(),
            r.4 ==> r.3 >= 1 && edge == vertical_edge_index(self.height(), r.2, r.3) && r.1 == r.3
                - 1 && (r.0 == r.2 - 1 || r.0 == r.2),
            !r.4 ==> r.2 >= 1 && edge == horizontal_edge_index(self.height(), r.2, r.3) && r.0
                == r.2 - 1 && (r.1 == r.3 || r.1 == r.3 - 1),
    {
        let w = self.width();
        let h = self.height();
        let (x, y) = lemma_cell_index_decode(w, h, cell as int);
        let boundary = self.cells[cell_index(h, x, y)]@.edges;
        assert(is_square_boundary(boundary, h, x, y));
        let i = choose|i: int| 0 <= i < boundary.len() && boundary[i] == edge;
        if i == 0 {
            (x, y, x + 1, y, false)
        } else if i == 1 {
            (x, y, x + 1, y + 1, true)
        } else if i == 2 {
            (x, y, x + 1, y + 1, false)
        } else {
            (x, y, x, y + 1, true)
        }
    }

    /// In the grid of a lattice, no edge is on the boundary of more than two
    /// cells.
    pub proof fn lemma_edge_borders_two(
        self,
        edge: EdgeRef,
        first: CellRef,
        second: CellRef,
        third: CellRef,
    )
        requires
            self.wf(),
            self.borders(first, edge),
            self.borders(second, edge),
            self.borders(third, edge),
        ensures
            first == second || first == third || second == third,
    {
        let h = self.height();
        let (x1, y1, a1, b1, v1) = self.lemma_cell_beside_edge(first, edge);
        let (x2, y2, a2, b2, v2) = self.lemma_cell_beside_edge(second, edge);
        let (x3, y3, a3, b3, v3) = self.lemma_cell_beside_edge(third, edge);
        lemma_edge_index_injective(h, a1, b1, v1, a2, b2, v2);
        lemma_edge_index_injective(h, a1, b1, v1, a3, b3, v3);
    }

    /// In the grid of a lattice, the unit squares one step apart are
    /// adjacent.
    pub proof fn lemma_neighbouring_squares_adjacent(self, x: int, y: int, right: bool)
        requires
            self.wf(),
            is_cell(self.width(), self.height(), x, y),
            right ==> x + 1 < self.width(),
            !right ==> y + 1 < self.height(),
        ensures
            0 <= cell_index(self.height(), x, y) < self.cells.len(),
            right ==> 0 <= cell_index(self.height(), x + 1, y) < self.cells.len()
                && self.adjacent(
                cell_index(self.height(), x, y) as usize,
                cell_index(self.height(), x + 1, y) as usize,
            ),
            !right ==> 0 <= cell_index(self.height(), x, y + 1) < self.cells.len()
                && self.adjacent(
                cell_index(self.height(), x, y) as usize,
                cell_index(self.height(), x, y + 1) as usize,
            ),
    {
        let w = self.width();
        let h = self.height();
        lemma_cell_index_bounds(w, h, x, y);
        lemma_cell_count_bounds(w, h);
        lemma_square_edges_distinct(w, h, x, y);
        let here = cell_index(h, x, y);
        let mine = self.cells[here]@.edges;
        assert(is_square_boundary(mine, h, x, y));
        if right {
            lemma_cell_index_bounds(w, h, x + 1, y);
            let there = cell_index(h, x + 1, y);
            let theirs = self.cells[there]@.edges;
            assert(is_square_boundary(theirs, h, x + 1, y));
            let edge = mine[1];
            assert(theirs[3] == edge);
            assert(self.borders(here as usize, edge));
            assert(self.borders(there as usize, edge));
            if here == there {
                lemma_cell_index_injective(h, x, y, x + 1, y);
            }
        } else {
            lemma_cell_index_bounds(w, h, x, y + 1);
            let there = cell_index(h, x, y + 1);
            let theirs = self.cells[there]@.edges;
            assert(is_square_boundary(theirs, h, x, y + 1));
            let edge = mine[2];
            assert(theirs[0] == edge);
            assert(self.borders(here as usize, edge));
            assert(self.borders(there as usize, edge));
            if here == there {
                lemma_cell_index_injective(h, x, y, x, y + 1);
            }
        }
    }
}

impl GridView {
    /// In the grid of a lattice, every cell has four edges around it, all
    /// different and all in the edge table.
    pub proof fn lemma_cells_have_four_edges(self, cell: CellRef)
        requires
            self.wf(),
            cell < self.cells.len(),
        ensures
            self.cells[cell as int]@.edges.len() == 4,
            self.cells[cell as int]@.edges.no_duplicates(),
            forall|i: int| 0 <= i < 4 ==> (#[trigger] self.cells[cell as int]@.edges[i])
                < self.edges.len(),
    {
        let (x, y) = lemma_cell_index_decode(self.width(), self.height(), cell as int);
        assert(is_square_boundary(
            self.cells[cell_index(self.height(), x, y)]@.edges,
            self.height(),
            x,
            y,
        ));
        lemma_square_edges_distinct(self.width(), self.height(), x, y);
    }

    /// In the grid of a lattice, every edge joins two different vertices of
    /// the grid that are one step apart on the lattice, the lower id first.
    pub proof fn lemma_edges_join_neighbours(self, edge: EdgeRef)
        requires
            self.wf(),
            edge < self.edges.len(),
        ensures
            self.edges[edge as int]@.from < self.edges[edge as int]@.to < self.vertices.len(),
            is_next_to(
                vertex_x(self.width(), self.edges[edge as int]@.from as int),
                vertex_y(self.width(), self.edges[edge as int]@.from as int),
                vertex_x(self.width(), self.edges[edge as int]@.to as int),
                vertex_y(self.width(), self.edges[edge as int]@.to as int),
            ),
    {
        let w = self.width();
        let h = self.height();
        let (x, y, vertical) = lemma_edge_at(self.edges, w, h, edge as int);
        lemma_position_round_trip(w, h, x, y);
        if vertical {
            lemma_position_round_trip(w, h, x, y - 1);
            assert((w + 1) * y == (w + 1) * (y - 1) + (w + 1)) by (nonlinear_arith);
        } else {
            lemma_position_round_trip(w, h, x - 1, y);
        }
    }

    /// In the grid of a lattice, every unit square can be reached from the
    /// one in the top left corner of the board.
    pub proof fn lemma_connected_to_corner(self, x: int, y: int)
        requires
            self.wf(),
            is_cell(self.width(), self.height(), x, y),
        ensures
            0 <= cell_index(self.height(), x, y) < self.cells.len(),
            self.connected(0, cell_index(self.height(), x, y) as usize),
        decreases x, y,
    {
        let w = self.width();
        let h = self.height();
        lemma_cell_index_bounds(w, h, x, y);
        lemma_cell_count_bounds(w, h);
        if x > 0 {
            self.lemma_connected_to_corner(x - 1, y);
            self.lemma_neighbouring_squares_adjacent(x - 1, y, true);
            self.lemma_connected_step(
                0,
                cell_index(h, x - 1, y) as usize,
                cell_index(h, x, y) as usize,
            );
        } else if y > 0 {
            self.lemma_connected_to_corner(x, y - 1);
            self.lemma_neighbouring_squares_adjacent(x, y - 1, false);
            self.lemma_connected_step(
                0,
                cell_index(h, x, y - 1) as usize,
                cell_index(h, x, y) as usize,
            );
        } else {
            assert(cell_index(h, 0, 0) == 0) by (nonlinear_arith);
            self.lemma_connected_to_itself(0);
        }
    }

    /// In the grid of a lattice, every cell can be reached from every cell.
    pub proof fn lemma_all_connected(self, a: CellRef, b: CellRef)
        requires
            self.wf(),
            a < self.cells.len(),
            b < self.cells.len(),
        ensures
            self.connected(a, b),
    {
        let w = self.width();
        let h = self.height();
        let (xa, ya) = lemma_cell_index_decode(w, h, a as int);
        let (xb, yb) = lemma_cell_index_decode(w, h, b as int);
        self.lemma_connected_to_corner(xa, ya);
        self.lemma_connected_to_corner(xb, yb);
        self.lemma_connected_symmetric(0, a);
        self.lemma_connected_transitive(a, 0, b);
    }

    /// In the grid of a lattice, the region of a cell is the whole board:
    /// a list without repetitions of the cells that can be reached from a
    /// cell lists every cell of the grid once.
    pub proof fn lemma_region_is_board(self, cell: CellRef, region: Seq<CellRef>)
        requires
            self.wf(),
            cell < self.cells.len(),
            region.no_duplicates(),
            forall|c: CellRef| region.contains(c) <==> self.connected(cell, c),
        ensures
            region.len() == self.cells.len(),
            forall|c: CellRef| c < self.cells.len() ==> region.contains(c),
    {
        let n = self.cells.len() as int;
        assert forall|c: CellRef| c < n implies region.contains(c) by {
            self.lemma_all_connected(cell, c);
        }
        assert forall|i: int| 0 <= i < region.len() implies (#[trigger] region[i]) < n by {
            assert(region.contains(region[i]));
            let path = choose|path: Seq<CellRef>|
                #![trigger self.is_path(path)]
                self.is_path(path) && path[0] == cell && path.last() == region[i];
            assert(path[path.len() - 1] < self.cells.len());
        }
        lemma_cell_count_bounds(self.width(), self.height());
        lemma_distinct_below(region, n);
        lemma_holds_all_below(region, n);
    }
}

/// A list that holds every number below `n` is at least `n` long.
pub proof fn lemma_holds_all_below(list: Seq<usize>, n: int)
    requires
        0 <= n <= usize::MAX + 1,
        forall|v: usize| v < n ==> list.contains(v),
    ensures
        list.len() >= n,
    decreases n,
{
    if n > 0 {
        let last = (n - 1) as usize;
        assert(list.contains(last));
        let i = choose|i: int| 0 <= i < list.len() && list[i] == last;
        let rest = list.remove(i);
        assert forall|v: usize| v < n - 1 implies rest.contains(v) by {
            assert(list.contains(v));
            let j = choose|j: int| 0 <= j < list.len() && list[j] == v;
            if j < i {
                assert(rest[j] == v);
            } else {
                assert(rest[j - 1] == v);
            }
        }
        lemma_holds_all_below(rest, n - 1);
    }
}

/// A list of different numbers, all below `n`, is not longer than `n`.
pub proof fn lemma_distinct_below(list: Seq<usize>, n: int)
    requires
        0 <= n,
        list.no_duplicates(),
        forall|i: int| 0 <= i < list.len() ==> (#[trigger] list[i]) < n,
    ensures
        list.len() <= n,
    decreases n,
{
    if n == 0 {
        if list.len() > 0 {
            assert(list[0] < 0);
        }
    } else if exists|i: int| 0 <= i < list.len() && list[i] == n - 1 {
        let i = choose|i: int| 0 <= i < list.len() && list[i] == n - 1;
        let rest = list.remove(i);
        assert forall|j: int| 0 <= j < rest.len() implies (#[trigger] rest[j]) < n - 1 by {
            if j < i {
                assert(rest[j] == list[j]);
            } else {
                assert(rest[j] == list[j + 1]);
            }
        }
        assert forall|j: int, k: int| 0 <= j < rest.len() && 0 <= k < rest.len() && j != k implies rest[j]
            != rest[k] by {
            let jj = if j < i {
                j
            } else {
                j + 1
            };
            let kk = if k < i {
                k
            } else {
                k + 1
            };
            assert(rest[j] == list[jj]);
            assert(rest[k] == list[kk]);
        }
        lemma_distinct_below(rest, n - 1);
    } else {
        assert forall|j: int| 0 <= j < list.len() implies (#[trigger] list[j]) < n - 1 by {}
        lemma_distinct_below(list, n - 1);
    }
}

} // verus!
