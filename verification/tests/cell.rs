use gameplay::grid::{
    Cell, CellType, Color, Edge, InvalidTriangleCount, NewCellError, TriangleCount,
};

fn edge(from: usize, to: usize) -> Edge {
    Edge::new(from, to).unwrap()
}

fn square() -> Vec<Edge> {
    // the unit square with corners 0, 1, 4, 3: top, right, bottom, left
    vec![edge(0, 1), edge(1, 4), edge(3, 4), edge(0, 3)]
}

#[test]
fn cell_from_two_edges_is_refused() {
    let table = square();
    assert_eq!(Cell::new(vec![0, 1], &table).err(), Some(NewCellError::NotEnoughEdges));
    assert_eq!(Cell::new(vec![], &table).err(), Some(NewCellError::NotEnoughEdges));
}

#[test]
fn cell_from_disconnected_edges_is_refused() {
    let table = vec![edge(0, 1), edge(2, 3), edge(4, 5), edge(6, 7)];
    assert_eq!(
        Cell::new(vec![0, 1, 2, 3], &table).err(),
        Some(NewCellError::NotInWindingOrder)
    );
}

#[test]
fn cell_whose_last_pair_is_disconnected_is_refused() {
    let table = vec![edge(0, 1), edge(1, 4), edge(7, 8)];
    assert_eq!(Cell::new(vec![0, 1, 2], &table).err(), Some(NewCellError::NotInWindingOrder));
}

#[test]
fn cell_naming_an_edge_outside_the_table_is_refused() {
    let table = square();
    assert_eq!(Cell::new(vec![0, 1, 2, 4], &table).err(), Some(NewCellError::UnknownEdge));
}

#[test]
fn cell_keeps_its_edges_in_the_order_given() {
    let table = square();
    let cell = Cell::new(vec![0, 1, 2, 3], &table).unwrap();
    assert_eq!(cell.get_edges(), &vec![0, 1, 2, 3]);
    assert_eq!(cell.get_edgerefs_iter(), vec![0, 1, 2, 3]);
    assert_eq!(cell.get_kind(), CellType::Blank);
    assert_eq!(cell.kind, CellType::Blank);
    let turned = Cell::new(vec![3, 2, 1, 0], &table).unwrap();
    assert_eq!(turned.get_edges(), &vec![3, 2, 1, 0]);
}

#[test]
fn cell_new_of_kind_holds_the_kind() {
    let table = square();
    let kind = CellType::Square(Color::new(255, 0, 0));
    let cell = Cell::new_of_kind(vec![0, 1, 2, 3], kind, &table).unwrap();
    assert_eq!(cell.get_kind(), kind);
}

#[test]
fn cell_set_kind_and_with_kind_keep_the_edges() {
    let table = square();
    let mut cell = Cell::new(vec![0, 1, 2, 3], &table).unwrap();
    cell.set_kind(CellType::Triangle(TriangleCount::Two));
    assert_eq!(cell.get_kind(), CellType::Triangle(TriangleCount::Two));
    assert_eq!(cell.get_edges(), &vec![0, 1, 2, 3]);
    let star = cell.with_kind(CellType::Star(Color::new(0, 0, 255)));
    assert_eq!(star.get_kind(), CellType::Star(Color::new(0, 0, 255)));
    assert_eq!(star.get_edges(), &vec![0, 1, 2, 3]);
}

#[test]
fn cell_has_edge_goes_by_the_place_in_the_table() {
    let table = vec![edge(0, 1), edge(1, 4), edge(3, 4), edge(0, 3), edge(0, 1)];
    let cell = Cell::new(vec![0, 1, 2, 3], &table).unwrap();
    assert!(cell.has_edge(&0));
    assert!(cell.has_edge(&3));
    // the same endpoints at another place of the table are another edge
    assert!(!cell.has_edge(&4));
}

#[test]
fn cell_has_vertex_asks_every_edge() {
    let table = square();
    let cell = Cell::new(vec![0, 1, 2, 3], &table).unwrap();
    assert!(cell.has_vertex(0, &table));
    assert!(cell.has_vertex(4, &table));
    assert!(!cell.has_vertex(2, &table));
    // against a shorter table the edges that are not in it touch nothing
    let shorter = vec![edge(0, 1)];
    assert!(cell.has_vertex(1, &shorter));
    assert!(!cell.has_vertex(4, &shorter));
}

#[test]
fn cell_winding_order_has_as_many_vertices_as_edges() {
    let table = square();
    let cell = Cell::new(vec![0, 1, 2, 3], &table).unwrap();
    assert!(cell.has_winding_order(&table));
    let vertices = cell.get_vertices_in_winding_order(&table);
    assert_eq!(vertices.len(), cell.get_edges().len());
    assert_eq!(vertices, vec![0, 1, 4, 3]);
}

#[test]
fn cell_winding_order_follows_the_order_of_the_edges() {
    let table = square();
    let turned = Cell::new(vec![3, 2, 1, 0], &table).unwrap();
    assert!(turned.has_winding_order(&table));
    assert_eq!(turned.get_vertices_in_winding_order(&table), vec![0, 3, 4, 1]);
}

#[test]
fn cell_winding_order_of_a_triangle() {
    let table = vec![edge(5, 9), edge(9, 2), edge(2, 5)];
    let cell = Cell::new(vec![0, 1, 2], &table).unwrap();
    assert!(cell.has_winding_order(&table));
    assert_eq!(cell.get_vertices_in_winding_order(&table), vec![5, 9, 2]);
}

#[test]
fn cell_of_edges_that_only_meet_in_one_vertex_has_no_winding_order() {
    // three edges out of vertex 0: each has a vertex in common with the next,
    // but they cannot be walked one after the other
    let table = vec![edge(0, 1), edge(0, 2), edge(0, 3)];
    let cell = Cell::new(vec![0, 1, 2], &table).unwrap();
    assert!(!cell.has_winding_order(&table));
}

#[test]
fn cell_has_no_winding_order_in_a_table_that_lacks_its_edges() {
    let table = square();
    let cell = Cell::new(vec![0, 1, 2, 3], &table).unwrap();
    assert!(!cell.has_winding_order(&vec![edge(0, 1), edge(1, 4)]));
}

#[test]
fn triangle_count_accepts_one_to_three() {
    assert_eq!(TriangleCount::try_from(1u8), Ok(TriangleCount::One));
    assert_eq!(TriangleCount::try_from(2u8), Ok(TriangleCount::Two));
    assert_eq!(TriangleCount::try_from(3u8), Ok(TriangleCount::Three));
    assert_eq!(TriangleCount::One.as_u8(), 1);
    assert_eq!(TriangleCount::Two.as_u8(), 2);
    assert_eq!(TriangleCount::Three.as_u8(), 3);
}

#[test]
fn triangle_count_hands_back_what_it_refuses() {
    assert_eq!(TriangleCount::try_from(0u8), Err(InvalidTriangleCount(0)));
    assert_eq!(TriangleCount::try_from(4u8), Err(InvalidTriangleCount(4)));
    assert_eq!(TriangleCount::try_from(255u8), Err(InvalidTriangleCount(255)));
}
