use grid_games::grid::Grid;

#[test]
fn grid_new_fills_every_cell_from_the_factory() {
    let grid: Grid<u32> = Grid::new(4, || 7u32);
    assert_eq!(grid.size(), 4);
    for r in 0..4 {
        for c in 0..4 {
            assert_eq!(*grid.get(r, c), 7);
        }
    }
}

#[test]
fn grid_set_changes_one_cell_only() {
    let mut grid: Grid<u32> = Grid::new(3, || 0u32);
    grid.set(1, 2, 9);
    for r in 0..3 {
        for c in 0..3 {
            let expected = if r == 1 && c == 2 { 9 } else { 0 };
            assert_eq!(*grid.get(r, c), expected);
        }
    }
    assert_eq!(grid.size(), 3);
}

#[test]
fn neighbors_of_center_lists_all_eight_row_by_row() {
    let grid: Grid<bool> = Grid::new(3, || false);
    assert_eq!(
        grid.neighbors_of(1, 1),
        vec![(0, 0), (0, 1), (0, 2), (1, 0), (1, 2), (2, 0), (2, 1), (2, 2)]
    );
}

#[test]
fn neighbors_of_corners_lists_three() {
    let grid: Grid<bool> = Grid::new(4, || false);
    assert_eq!(grid.neighbors_of(0, 0), vec![(0, 1), (1, 0), (1, 1)]);
    assert_eq!(grid.neighbors_of(0, 3), vec![(0, 2), (1, 2), (1, 3)]);
    assert_eq!(grid.neighbors_of(3, 0), vec![(2, 0), (2, 1), (3, 1)]);
    assert_eq!(grid.neighbors_of(3, 3), vec![(2, 2), (2, 3), (3, 2)]);
}

#[test]
fn neighbors_of_edges_lists_five() {
    let grid: Grid<bool> = Grid::new(4, || false);
    assert_eq!(grid.neighbors_of(0, 2), vec![(0, 1), (0, 3), (1, 1), (1, 2), (1, 3)]);
    assert_eq!(grid.neighbors_of(2, 0), vec![(1, 0), (1, 1), (2, 1), (3, 0), (3, 1)]);
    assert_eq!(grid.neighbors_of(3, 1), vec![(2, 0), (2, 1), (2, 2), (3, 0), (3, 2)]);
    assert_eq!(grid.neighbors_of(1, 3), vec![(0, 2), (0, 3), (1, 2), (2, 2), (2, 3)]);
}

#[test]
fn neighbors_of_single_cell_grid_is_empty() {
    let grid: Grid<bool> = Grid::new(1, || false);
    assert_eq!(grid.neighbors_of(0, 0), vec![]);
}

#[test]
fn neighbors_of_keeps_cells_where_row_equals_column() {
    let grid: Grid<bool> = Grid::new(5, || false);
    let around = grid.neighbors_of(2, 3);
    assert!(around.contains(&(1, 1)) == false);
    assert!(around.contains(&(2, 2)));
    assert!(around.contains(&(3, 3)));
    assert_eq!(around.len(), 8);
}
