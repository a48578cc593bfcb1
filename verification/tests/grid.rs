use gameplay::grid::{
    CellType, Color, EdgeType, Grid, GridVector2, Vector2Extensions, Vertex,
};
use gameplay::vector2::Vector2;

fn board(width: usize, height: usize) -> Grid {
    Grid::new(Vector2::new(width, height))
}

fn endpoints(grid: &Grid, edge: usize) -> (usize, usize) {
    grid.get_edge(edge).unwrap().get_vertices_tuple()
}

#[test]
fn grid_two_by_two_has_nine_vertices_twelve_edges_four_cells() {
    let grid = board(2, 2);
    assert_eq!(grid.get_size(), Vector2::new(2, 2));
    assert_eq!(grid.vertex_count(), 9);
    assert_eq!(grid.edge_count(), 12);
    assert_eq!(grid.cell_count(), 4);
    assert_eq!(Grid::vector_to_vertex_id(Vector2::new(2, 2), Vector2::new(1, 1)), Some(4));
    assert_eq!(grid.get_vertex_position(4), Some(Vector2::new(1, 1)));
    assert_eq!(Grid::vertex_id_to_vector(Vector2::new(2, 2), 4), Some(Vector2::new(1, 1)));
}

#[test]
fn grid_counts_follow_the_size() {
    for width in 0..5usize {
        for height in 0..5usize {
            let grid = board(width, height);
            assert_eq!(grid.vertex_count(), (width + 1) * (height + 1));
            assert_eq!(grid.edge_count(), width * (height + 1) + height * (width + 1));
            assert_eq!(grid.cell_count(), width * height);
            assert_eq!(grid.get_edges().len(), grid.edge_count());
        }
    }
    assert_eq!(board(3, 2).edge_count(), 17);
}

#[test]
fn grid_ids_and_positions_round_trip() {
    let size = Vector2::new(3, 2);
    let grid = Grid::new(size);
    for id in 0..grid.vertex_count() {
        let position = grid.get_vertex_position(id).unwrap();
        assert_eq!(Grid::vector_to_vertex_id(size, position), Some(id));
    }
    for x in 0..=3usize {
        for y in 0..=2usize {
            let id = Grid::vector_to_vertex_id(size, Vector2::new(x, y)).unwrap();
            assert_eq!(id, x + 4 * y);
            assert_eq!(grid.get_vertex_position(id), Some(Vector2::new(x, y)));
        }
    }
}

#[test]
fn grid_lookups_outside_the_board_find_nothing() {
    let size = Vector2::new(2, 2);
    let mut grid = Grid::new(size);
    assert_eq!(Grid::vector_to_vertex_id(size, Vector2::new(3, 0)), None);
    assert_eq!(Grid::vector_to_vertex_id(size, Vector2::new(0, 3)), None);
    assert_eq!(Grid::vertex_id_to_vector(size, 9), None);
    assert_eq!(grid.get_vertex_position(9), None);
    assert_eq!(grid.get_vertex_type(9), None);
    assert!(!grid.vertex_exists(9));
    assert!(grid.vertex_exists(8));
    // the sum of the sides is no bound on the ids
    assert!(grid.vertex_exists(6));
    assert!(grid.vertex_exists(7));
    assert_eq!(grid.get_edge(12), None);
    assert!(grid.get_cell(4).is_none());
    assert_eq!(grid.get_cells_around_cell(4), Vec::<usize>::new());
    assert_eq!(grid.get_cell_on_the_other_side_of_edge(9, 100), None);
    assert_eq!(grid.floodfill_from_cell(4), Vec::<usize>::new());
    assert_eq!(grid.get_cell_vertices_in_winding_order(4), None);
    assert_eq!(grid.get_edges_connected_to_vertex(9), Vec::<usize>::new());
    assert!(!grid.set_vertex_type(9, Vertex::Dot));
    assert!(!grid.set_edge_type(12, EdgeType::Gap));
    assert!(!grid.set_cell_type(4, CellType::Blank));
}

#[test]
fn grid_vertex_ids_that_cannot_be_held_are_not_given() {
    let size = Vector2::new(usize::MAX, 1);
    assert_eq!(Grid::vector_to_vertex_id(size, Vector2::new(5, 0)), Some(5));
    assert_eq!(Grid::vector_to_vertex_id(size, Vector2::new(5, 1)), None);
    assert_eq!(Grid::vertex_id_to_vector(size, 7), Some(Vector2::new(7, 0)));
    assert!(Grid::try_new(size).is_none());
    assert!(Grid::try_new(Vector2::new(usize::MAX / 2, 2)).is_none());
    assert_eq!(Grid::try_new(Vector2::new(2, 3)).unwrap().cell_count(), 6);
}

#[test]
fn grid_starts_with_absent_vertices_standard_edges_and_blank_cells() {
    let grid = board(2, 3);
    for id in 0..grid.vertex_count() {
        assert_eq!(grid.get_vertex_type(id), Some(Vertex::Absent));
    }
    for edge in 0..grid.edge_count() {
        assert_eq!(grid.get_edge(edge).unwrap().get_kind(), EdgeType::Edge);
    }
    for cell in 0..grid.cell_count() {
        assert_eq!(grid.get_cell(cell).unwrap().get_kind(), CellType::Blank);
    }
}

#[test]
fn grid_edge_table_of_two_by_two() {
    let grid = board(2, 2);
    let expected = [
        (0, 3),
        (3, 6),
        (0, 1),
        (3, 4),
        (1, 4),
        (6, 7),
        (4, 7),
        (1, 2),
        (4, 5),
        (2, 5),
        (7, 8),
        (5, 8),
    ];
    for (edge, ends) in expected.iter().enumerate() {
        assert_eq!(endpoints(&grid, edge), *ends);
    }
}

#[test]
fn grid_edges_join_lattice_neighbours_and_none_comes_twice() {
    let size = Vector2::new(3, 2);
    let grid = Grid::new(size);
    for edge in 0..grid.edge_count() {
        let (from, to) = endpoints(&grid, edge);
        assert!(from < to);
        let first = grid.get_vertex_position(from).unwrap();
        let second = grid.get_vertex_position(to).unwrap();
        assert!(first.is_immediately_next_to(&second));
        for other in 0..edge {
            assert_ne!(endpoints(&grid, other), (from, to));
        }
    }
}

#[test]
fn grid_every_cell_has_four_different_edges() {
    let grid = board(3, 2);
    for cell in 0..grid.cell_count() {
        let edges = grid.get_cell(cell).unwrap().get_edges().clone();
        assert_eq!(edges.len(), 4);
        for i in 0..4 {
            assert!(edges[i] < grid.edge_count());
            for j in 0..i {
                assert_ne!(edges[i], edges[j]);
            }
        }
    }
}

#[test]
fn grid_cells_of_two_by_two() {
    let grid = board(2, 2);
    assert_eq!(grid.get_cell(0).unwrap().get_edges(), &vec![2, 4, 3, 0]);
    assert_eq!(grid.get_cell(1).unwrap().get_edges(), &vec![3, 6, 5, 1]);
    assert_eq!(grid.get_cell(2).unwrap().get_edges(), &vec![7, 9, 8, 4]);
    assert_eq!(grid.get_cell(3).unwrap().get_edges(), &vec![8, 11, 10, 6]);
}

#[test]
fn grid_top_left_cell_and_the_cell_to_its_right_share_one_edge() {
    let grid = board(2, 2);
    let left = grid.get_cell(0).unwrap();
    let right = grid.get_cell(2).unwrap();
    let shared: Vec<usize> =
        left.get_edges().iter().copied().filter(|edge| right.has_edge(edge)).collect();
    assert_eq!(shared.len(), 1);
    // the vertical edge between the lattice points (1, 0) and (1, 1)
    assert_eq!(endpoints(&grid, shared[0]), (1, 4));
    assert_eq!(grid.get_vertex_position(1), Some(Vector2::new(1, 0)));
    assert_eq!(grid.get_vertex_position(4), Some(Vector2::new(1, 1)));
    assert_eq!(grid.get_cell_on_the_other_side_of_edge(0, shared[0]), Some(2));
    assert_eq!(grid.get_cell_on_the_other_side_of_edge(2, shared[0]), Some(0));
}

#[test]
fn grid_cell_corners_in_winding_order() {
    let grid = board(2, 2);
    assert_eq!(grid.get_cell_vertices_in_winding_order(0), Some(vec![0, 1, 4, 3]));
    assert_eq!(grid.get_cell_vertices_in_winding_order(1), Some(vec![3, 4, 7, 6]));
    assert_eq!(grid.get_cell_vertices_in_winding_order(2), Some(vec![1, 2, 5, 4]));
    assert_eq!(grid.get_cell_vertices_in_winding_order(3), Some(vec![4, 5, 8, 7]));
    for cell in 0..grid.cell_count() {
        let handle = grid.get_cell(cell).unwrap();
        assert!(handle.has_winding_order(grid.get_edges()));
        let corners = handle.get_vertices_in_winding_order(grid.get_edges());
        assert_eq!(corners.len(), handle.get_edges().len());
        assert_eq!(Some(corners.clone()), grid.get_cell_vertices_in_winding_order(cell));
        for corner in corners {
            assert!(handle.has_vertex(corner, grid.get_edges()));
        }
    }
}

#[test]
fn grid_edges_connected_to_vertex_come_in_table_order() {
    let grid = board(2, 2);
    // the middle vertex has four edges, a corner has two
    assert_eq!(grid.get_edges_connected_to_vertex(4), vec![3, 4, 6, 8]);
    assert_eq!(grid.get_edges_connected_to_vertex_iter(4), vec![3, 4, 6, 8]);
    assert_eq!(grid.get_edges_connected_to_vertex(0), vec![0, 2]);
    assert_eq!(grid.get_edges_connected_to_vertex(8), vec![10, 11]);
    assert_eq!(grid.get_edges_connected_to_vertex(1), vec![2, 4, 7]);
}

#[test]
fn grid_cells_around_cell_are_sorted_by_their_place() {
    let grid = board(3, 3);
    // the place of the cell in column x and row y is 3 * x + y
    assert_eq!(grid.get_cells_around_cell(4), vec![1, 3, 5, 7]);
    assert_eq!(grid.get_cells_around_cell(0), vec![1, 3]);
    assert_eq!(grid.get_cells_around_cell(8), vec![5, 7]);
    assert_eq!(grid.get_cells_around_cell(3), vec![0, 4, 6]);
    let small = board(2, 2);
    assert_eq!(small.get_cells_around_cell(0), vec![1, 2]);
    assert_eq!(small.get_cells_around_cell(3), vec![1, 2]);
    assert_eq!(board(1, 1).get_cells_around_cell(0), Vec::<usize>::new());
}

#[test]
fn grid_adjacency_is_symmetric() {
    let grid = board(4, 3);
    for a in 0..grid.cell_count() {
        for b in 0..grid.cell_count() {
            let forth = grid.get_cells_around_cell(a).contains(&b);
            let back = grid.get_cells_around_cell(b).contains(&a);
            assert_eq!(forth, back);
        }
        assert!(!grid.get_cells_around_cell(a).contains(&a));
    }
}

#[test]
fn grid_cell_on_the_other_side_of_a_rim_edge_is_none() {
    let grid = board(2, 2);
    // cell 0 has the edges 2 (top) and 0 (left) on the rim of the board
    assert_eq!(grid.get_cell_on_the_other_side_of_edge(0, 2), None);
    assert_eq!(grid.get_cell_on_the_other_side_of_edge(0, 0), None);
    assert_eq!(grid.get_cell_on_the_other_side_of_edge(0, 3), Some(1));
    assert_eq!(grid.get_cell_on_the_other_side_of_edge(1, 3), Some(0));
    // asked from a cell that does not border the edge: the first that does
    assert_eq!(grid.get_cell_on_the_other_side_of_edge(3, 3), Some(0));
    assert_eq!(grid.get_cell_on_the_other_side_of_edge(3, 2), Some(0));
}

#[test]
fn grid_floodfill_of_two_by_two_reaches_all_four_cells() {
    let grid = board(2, 2);
    for start in 0..4usize {
        let mut region = grid.floodfill_from_cell(start);
        assert_eq!(region.len(), 4);
        assert_eq!(region[0], start);
        region.sort();
        assert_eq!(region, vec![0, 1, 2, 3]);
    }
    assert_eq!(grid.floodfill_from_cell(0), vec![0, 1, 2, 3]);
    assert_eq!(grid.floodfill_from_cell(3), vec![3, 1, 2, 0]);
}

#[test]
fn grid_floodfill_goes_breadth_first() {
    let grid = board(3, 3);
    assert_eq!(grid.floodfill_from_cell(0), vec![0, 1, 3, 2, 4, 6, 5, 7, 8]);
    assert_eq!(grid.floodfill_from_cell(4), vec![4, 1, 3, 5, 7, 0, 2, 6, 8]);
    let row = board(4, 1);
    assert_eq!(row.floodfill_from_cell(2), vec![2, 1, 3, 0]);
    assert_eq!(board(1, 1).floodfill_from_cell(0), vec![0]);
}

#[test]
fn grid_kinds_can_be_set_and_the_lattice_stays() {
    let mut grid = board(2, 2);
    assert!(grid.set_vertex_type(4, Vertex::Dot));
    assert!(grid.set_vertex_type(0, Vertex::Vertex));
    assert_eq!(grid.get_vertex_type(4), Some(Vertex::Dot));
    assert_eq!(grid.get_vertex_type(0), Some(Vertex::Vertex));
    assert_eq!(grid.get_vertex_type(1), Some(Vertex::Absent));
    assert!(grid.set_edge_type(4, EdgeType::Gap));
    assert_eq!(grid.get_edge(4).unwrap().get_kind(), EdgeType::Gap);
    assert_eq!(endpoints(&grid, 4), (1, 4));
    assert_eq!(grid.get_edge(3).unwrap().get_kind(), EdgeType::Edge);
    let red = CellType::Square(Color::new(255, 0, 0));
    assert!(grid.set_cell_type(2, red));
    assert_eq!(grid.get_cell(2).unwrap().get_kind(), red);
    assert_eq!(grid.get_cell(2).unwrap().get_edges(), &vec![7, 9, 8, 4]);
    assert_eq!(grid.get_cell(0).unwrap().get_kind(), CellType::Blank);
    // a gap in an edge does not part the cells on its two sides
    assert_eq!(grid.get_cells_around_cell(0), vec![1, 2]);
    assert_eq!(grid.floodfill_from_cell(0).len(), 4);
}

#[test]
fn grid_boards_without_cells() {
    let flat = board(3, 0);
    assert_eq!(flat.vertex_count(), 4);
    assert_eq!(flat.edge_count(), 3);
    assert_eq!(flat.cell_count(), 0);
    assert_eq!(endpoints(&flat, 0), (0, 1));
    assert_eq!(endpoints(&flat, 2), (2, 3));
    let thin = board(0, 3);
    assert_eq!(thin.vertex_count(), 4);
    assert_eq!(thin.edge_count(), 3);
    assert_eq!(thin.cell_count(), 0);
    assert_eq!(endpoints(&thin, 1), (1, 2));
    let point = board(0, 0);
    assert_eq!(point.vertex_count(), 1);
    assert_eq!(point.edge_count(), 0);
    assert_eq!(point.floodfill_from_cell(0), Vec::<usize>::new());
}

#[test]
fn positions_next_to_each_other() {
    let here: GridVector2 = Vector2::new(3, 3);
    assert!(here.is_immediately_next_to(&Vector2::new(3, 4)));
    assert!(here.is_immediately_next_to(&Vector2::new(3, 2)));
    assert!(here.is_immediately_next_to(&Vector2::new(2, 3)));
    assert!(here.is_immediately_next_to(&Vector2::new(4, 3)));
    assert!(!here.is_immediately_next_to(&Vector2::new(4, 4)));
    assert!(!here.is_immediately_next_to(&Vector2::new(3, 3)));
    assert!(!here.is_immediately_next_to(&Vector2::new(3, 5)));
    let far: GridVector2 = Vector2::new(usize::MAX, 0);
    assert!(!far.is_immediately_next_to(&Vector2::new(0, 0)));
    assert!(far.is_immediately_next_to(&Vector2::new(usize::MAX - 1, 0)));
}
