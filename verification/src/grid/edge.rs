//! Edges: undirected connections between two vertices.

use vstd::prelude::*;

use super::lattice::{is_next_to, vertex_count, vertex_x, vertex_y};
use super::vertex::VertexID;
use super::{Grid, GridVector2, Vector2Extensions};

verus! {

/// An edge is referred to by its position in an edge table.
pub type EdgeRef = usize;

/// Describes the kind of edge it's attached to.
#[derive(Debug, Clone, Copy, PartialEq, Eq, Structural)]
pub enum EdgeType {
    /// This is an edge that's mostly present but has a gap in the middle so you can't fully cross it; a gap in the road.
    Gap,
    /// This is a standard edge with nothing special going on.
    Edge,
    /// This is a edge with a dot on it, meaning the solution requires the line drawing over it.
    Dot,
}

/// Why two vertices cannot be joined by an edge of a board.
#[derive(Debug, Clone, Copy, PartialEq, Eq, Structural)]
pub enum NewEdgeError {
    /// One of the two ids is not the id of a vertex of the board.
    UnknownVertex,
    /// The two ids are the same.
    SameVertex,
    /// The two vertices are not one step apart on the lattice.
    NotAdjacent,
}

/// An undirected connection between two different vertices.
///
/// The endpoints are kept in ascending order, so that the two ways of
/// naming the same connection give the same edge.
#[derive(Debug, Clone, Copy, PartialEq, Eq, Structural)]
pub struct Edge {
    from: VertexID,
    to: VertexID,
    kind: EdgeType,
}

/// What an edge is: its two endpoints and its kind.
pub struct EdgeView {
    pub from: VertexID,
    pub to: VertexID,
    pub kind: EdgeType,
}

impl EdgeView {
    /// The edge between the different vertices `a` and `b`, whichever of the
    /// two is named first.
    pub open spec fn canonical(a: VertexID, b: VertexID, kind: EdgeType) -> EdgeView {
        EdgeView { from: if a <= b { a } else { b }, to: if a <= b { b } else { a }, kind }
    }

    /// What joining the vertices `a` and `b` of a board of the given size
    /// gives: the edge between them where they are neighbours on the
    /// lattice, and else the reason why there is none.
    pub open spec fn on_lattice(size: GridVector2, a: VertexID, b: VertexID, kind: EdgeType) -> Result<
        EdgeView,
        NewEdgeError,
    > {
        let w = size.x as int;
        let h = size.y as int;
        if a >= vertex_count(w, h) || b >= vertex_count(w, h) {
            Err(NewEdgeError::UnknownVertex)
        } else if a == b {
            Err(NewEdgeError::SameVertex)
        } else if !is_next_to(
            vertex_x(w, a as int),
            vertex_y(w, a as int),
            vertex_x(w, b as int),
            vertex_y(w, b as int),
        ) {
            Err(NewEdgeError::NotAdjacent)
        } else {
            Ok(EdgeView::canonical(a, b, kind))
        }
    }

    /// Whether `id` is one of the two endpoints.
    pub open spec fn connects_to(self, id: VertexID) -> bool {
        self.from == id || self.to == id
    }

    /// Whether the two edges have an endpoint in common.
    pub open spec fn connects_to_edge(self, other: EdgeView) -> bool {
        other.connects_to(self.from) || other.connects_to(self.to)
    }

    /// The endpoint of `self` that `other` also has; the lower one if it has
    /// both.
    pub open spec fn which_vertex_connects(self, other: EdgeView) -> Option<VertexID> {
        if other.connects_to(self.from) {
            Some(self.from)
        } else if other.connects_to(self.to) {
            Some(self.to)
        } else {
            None
        }
    }

    /// The endpoint opposite to `id`, if `id` is an endpoint.
    pub open spec fn get_other_vertex(self, id: VertexID) -> Option<VertexID> {
        if self.from == id {
            Some(self.to)
        } else if self.to == id {
            Some(self.from)
        } else {
            None
        }
    }

    /// Whether the edge runs between `a` and `b`, in either direction.
    pub open spec fn joins(self, a: VertexID, b: VertexID) -> bool {
        (self.from == a && self.to == b) || (self.from == b && self.to == a)
    }
}

impl View for Edge {
    type V = EdgeView;

    closed spec fn view(&self) -> EdgeView {
        EdgeView { from: self.from, to: self.to, kind: self.kind }
    }
}

impl Edge {
    #[verifier::type_invariant]
    spec fn ordered(self) -> bool {
        self.from < self.to
    }

    /// Creates a standard edge between two vertices, given in either order.
    /// The two must be different vertices: an edge from a vertex to itself
    /// is refused.
    pub fn new(from: VertexID, to: VertexID) -> (r: Result<Self, NewEdgeError>)
        ensures
            from == to ==> r == Err::<Edge, NewEdgeError>(NewEdgeError::SameVertex),
            from != to ==> (r matches Ok(e) && e@ == EdgeView::canonical(
                from,
                to,
                EdgeType::Edge,
            )),
    {
        Edge::new_of_kind(from, to, EdgeType::Edge)
    }

    /// Creates an edge of a given kind between two vertices, given in either
    /// order. The two must be different vertices: an edge from a vertex to
    /// itself is refused.
    pub fn new_of_kind(from: VertexID, to: VertexID, kind: EdgeType) -> (r: Result<
        Self,
        NewEdgeError,
    >)
        ensures
            from == to ==> r == Err::<Edge, NewEdgeError>(NewEdgeError::SameVertex),
            from != to ==> (r matches Ok(e) && e@ == EdgeView::canonical(from, to, kind)),
    {
        if from == to {
            Err(NewEdgeError::SameVertex)
        } else if from < to {
            Ok(Edge { from, to, kind })
        } else {
            Ok(Edge { from: to, to: from, kind })
        }
    }

    /// Creates an edge of a given kind between two vertices of a board of
    /// the given size, given in either order, if the two are neighbours on
    /// the lattice of that board.
    pub fn new_checked(size: GridVector2, from: VertexID, to: VertexID, kind: EdgeType) -> (r: Result<
        Self,
        NewEdgeError,
    >)
        ensures
            r matches Ok(e) ==> EdgeView::on_lattice(size, from, to, kind) == Ok::<
                EdgeView,
                NewEdgeError,
            >(e@),
            r matches Err(e) ==> EdgeView::on_lattice(size, from, to, kind) == Err::<
                EdgeView,
                NewEdgeError,
            >(e),
    {
        let first = match Grid::vertex_id_to_vector(size, from) {
            Some(position) => position,
            None => {
                return Err(NewEdgeError::UnknownVertex);
            },
        };
        let second = match Grid::vertex_id_to_vector(size, to) {
            Some(position) => position,
            None => {
                return Err(NewEdgeError::UnknownVertex);
            },
        };
        if from == to {
            return Err(NewEdgeError::SameVertex);
        }
        proof {
            super::lattice::lemma_vertex_position_in_range(size.x as int, from as int);
            super::lattice::lemma_vertex_position_in_range(size.x as int, to as int);
        }
        if !first.is_immediately_next_to(&second) {
            return Err(NewEdgeError::NotAdjacent);
        }
        Edge::new_of_kind(from, to, kind)
    }

    /// Returns whether this edge is connected to the given vertex.
    pub fn connects_to(&self, id: VertexID) -> (r: bool)
        ensures
            r == self@.connects_to(id),
    {
        self.from == id || self.to == id
    }

    /// Returns whether this edge is connected to the given edge by a shared vertex.
    pub fn connects_to_edge(&self, other: &Edge) -> (r: bool)
        ensures
            r == self@.connects_to_edge(other@),
    {
        other.connects_to(self.from) || other.connects_to(self.to)
    }

    /// Returns which vertex connects this edge and some other edge, if any.
    pub fn which_vertex_connects(&self, other: &Edge) -> (r: Option<VertexID>)
        ensures
            r == self@.which_vertex_connects(other@),
    {
        if other.connects_to(self.from) {
            Some(self.from)
        } else if other.connects_to(self.to) {
            Some(self.to)
        } else {
            None
        }
    }

    /// Returns the vertex at the other end of this edge from `id`, if `id`
    /// is one of its ends.
    pub fn get_other_vertex(&self, id: VertexID) -> (r: Option<VertexID>)
        ensures
            r == self@.get_other_vertex(id),
    {
        if self.from == id {
            Some(self.to)
        } else if self.to == id {
            Some(self.from)
        } else {
            None
        }
    }

    /// Gets the vertex IDs of the vertices this edge is connected to.
    /// IDs are sorted from low to high numerically.
    pub fn get_vertices_tuple(&self) -> (r: (VertexID, VertexID))
        ensures
            r == (self@.from, self@.to),
            r.0 < r.1,
    {
        proof {
            use_type_invariant(self);
        }
        (self.from, self.to)
    }

    /// Gets the vertex IDs of the vertices this edge is connected to.
    /// IDs are sorted from low to high numerically.
    pub fn get_vertices_array(&self) -> (r: [VertexID; 2])
        ensures
            r@ == seq![self@.from, self@.to],
            r[0] < r[1],
    {
        proof {
            use_type_invariant(self);
        }
        [self.from, self.to]
    }

    /// Gets the kind of this edge.
    pub fn get_kind(&self) -> (kind: EdgeType)
        ensures
            kind == self@.kind,
    {
        self.kind
    }

    /// Changes the kind of this edge; its endpoints stay.
    pub fn set_kind(&mut self, kind: EdgeType)
        ensures
            final(self)@ == (EdgeView { kind, ..old(self)@ }),
    {
        proof {
            use_type_invariant(&*self);
        }
        self.kind = kind;
    }

    /// Naming the endpoints in the other order gives the same result: the
    /// same edge, its lower end first, or the same refusal.
    pub proof fn lemma_endpoint_order_irrelevant(
        first: Result<Edge, NewEdgeError>,
        second: Result<Edge, NewEdgeError>,
        a: VertexID,
        b: VertexID,
        kind: EdgeType,
    )
        requires
            a == b ==> first == Err::<Edge, NewEdgeError>(NewEdgeError::SameVertex),
            a != b ==> (first matches Ok(e) && e@ == EdgeView::canonical(a, b, kind)),
            b == a ==> second == Err::<Edge, NewEdgeError>(NewEdgeError::SameVertex),
            b != a ==> (second matches Ok(e) && e@ == EdgeView::canonical(b, a, kind)),
        ensures
            first == second,
            first matches Ok(e) ==> e@.from < e@.to,
    {
    }

    /// No edge runs from a vertex to itself: whatever the constructors give
    /// has two different ends, the lower one first.
    pub proof fn lemma_ends_differ(
        r: Result<Edge, NewEdgeError>,
        a: VertexID,
        b: VertexID,
        kind: EdgeType,
    )
        requires
            a == b ==> r == Err::<Edge, NewEdgeError>(NewEdgeError::SameVertex),
            a != b ==> (r matches Ok(e) && e@ == EdgeView::canonical(a, b, kind)),
        ensures
            r is Ok <==> a != b,
            r matches Ok(e) ==> e@.from < e@.to && e@.connects_to(a) && e@.connects_to(b),
    {
    }
}

} // verus!
