use gameplay::grid::{Edge, EdgeType, NewEdgeError};
use gameplay::vector2::Vector2;

#[test]
fn edge_new_orders_its_endpoints() {
    assert_eq!(Edge::new(4, 1).unwrap().get_vertices_tuple(), (1, 4));
    assert_eq!(Edge::new(1, 4).unwrap().get_vertices_tuple(), (1, 4));
    assert_eq!(Edge::new(4, 1).unwrap().get_vertices_array(), [1, 4]);
    assert_eq!(Edge::new(4, 1).unwrap().get_kind(), EdgeType::Edge);
    assert_eq!(Edge::new_of_kind(4, 1, EdgeType::Gap).unwrap().get_kind(), EdgeType::Gap);
    assert_eq!(Edge::new_of_kind(4, 1, EdgeType::Gap).unwrap().get_vertices_tuple(), (1, 4));
}

#[test]
fn edge_is_the_same_whichever_endpoint_is_named_first() {
    assert_eq!(Edge::new(7, 2), Edge::new(2, 7));
    assert_eq!(Edge::new_of_kind(7, 2, EdgeType::Dot), Edge::new_of_kind(2, 7, EdgeType::Dot));
    assert_ne!(Edge::new_of_kind(7, 2, EdgeType::Dot), Edge::new_of_kind(2, 7, EdgeType::Gap));
    assert!(Edge::new(7, 2).is_ok());
}

#[test]
fn edge_from_a_vertex_to_itself_is_refused() {
    assert_eq!(Edge::new(3, 3), Err(NewEdgeError::SameVertex));
    assert_eq!(Edge::new(0, 0), Err(NewEdgeError::SameVertex));
    assert_eq!(Edge::new_of_kind(5, 5, EdgeType::Dot), Err(NewEdgeError::SameVertex));
    assert_eq!(
        Edge::new_of_kind(usize::MAX, usize::MAX, EdgeType::Gap),
        Err(NewEdgeError::SameVertex)
    );
    // the order in which the one vertex is named twice makes no difference
    assert_eq!(Edge::new(3, 3), Edge::new(3, 3));
}

#[test]
fn edge_connects_to_its_endpoints_only() {
    let edge = Edge::new(3, 4).unwrap();
    assert!(edge.connects_to(3));
    assert!(edge.connects_to(4));
    assert!(!edge.connects_to(5));
}

#[test]
fn edge_connects_to_edge_by_a_shared_vertex() {
    let edge = Edge::new(3, 4).unwrap();
    assert!(edge.connects_to_edge(&Edge::new(4, 7).unwrap()));
    assert!(edge.connects_to_edge(&Edge::new(0, 3).unwrap()));
    assert!(edge.connects_to_edge(&edge));
    assert!(!edge.connects_to_edge(&Edge::new(6, 7).unwrap()));
}

#[test]
fn edge_which_vertex_connects_names_the_shared_vertex() {
    let edge = Edge::new(3, 4).unwrap();
    assert_eq!(edge.which_vertex_connects(&Edge::new(4, 7).unwrap()), Some(4));
    assert_eq!(edge.which_vertex_connects(&Edge::new(0, 3).unwrap()), Some(3));
    assert_eq!(edge.which_vertex_connects(&Edge::new(3, 4).unwrap()), Some(3));
    assert_eq!(edge.which_vertex_connects(&Edge::new(6, 7).unwrap()), None);
}

#[test]
fn edge_get_other_vertex_crosses_the_edge() {
    let edge = Edge::new(3, 4).unwrap();
    assert_eq!(edge.get_other_vertex(3), Some(4));
    assert_eq!(edge.get_other_vertex(4), Some(3));
    assert_eq!(edge.get_other_vertex(5), None);
}

#[test]
fn edge_set_kind_keeps_the_endpoints() {
    let mut edge = Edge::new(3, 4).unwrap();
    edge.set_kind(EdgeType::Gap);
    assert_eq!(edge.get_kind(), EdgeType::Gap);
    assert_eq!(edge.get_vertices_tuple(), (3, 4));
}

#[test]
fn edge_new_checked_accepts_lattice_neighbours() {
    let size = Vector2::new(2, 2);
    let across = Edge::new_checked(size, 4, 1, EdgeType::Edge).unwrap();
    assert_eq!(across.get_vertices_tuple(), (1, 4));
    let along = Edge::new_checked(size, 3, 4, EdgeType::Dot).unwrap();
    assert_eq!(along.get_vertices_tuple(), (3, 4));
    assert_eq!(along.get_kind(), EdgeType::Dot);
}

#[test]
fn edge_new_checked_rejects_what_is_no_lattice_edge() {
    let size = Vector2::new(2, 2);
    assert_eq!(Edge::new_checked(size, 4, 4, EdgeType::Edge), Err(NewEdgeError::SameVertex));
    assert_eq!(Edge::new_checked(size, 0, 9, EdgeType::Edge), Err(NewEdgeError::UnknownVertex));
    assert_eq!(Edge::new_checked(size, 9, 9, EdgeType::Edge), Err(NewEdgeError::UnknownVertex));
    // diagonal
    assert_eq!(Edge::new_checked(size, 0, 4, EdgeType::Edge), Err(NewEdgeError::NotAdjacent));
    // the end of one row and the start of the next
    assert_eq!(Edge::new_checked(size, 2, 3, EdgeType::Edge), Err(NewEdgeError::NotAdjacent));
    // two steps apart
    assert_eq!(Edge::new_checked(size, 0, 2, EdgeType::Edge), Err(NewEdgeError::NotAdjacent));
}
