use grid_games::life::Board;

fn board_with(size: usize, alive: &[(usize, usize)]) -> Board {
    let mut board = Board::new(size);
    for &(r, c) in alive {
        board.alive_cell_toggle(r, c);
    }
    board
}

fn living(board: &Board) -> Vec<(usize, usize)> {
    let mut cells = Vec::new();
    for r in 0..board.size() {
        for c in 0..board.size() {
            if board.is_alive(r, c) {
                cells.push((r, c));
            }
        }
    }
    cells
}

#[test]
fn new_board_is_dead() {
    let board = Board::new(10);
    assert_eq!(board.size(), 10);
    for r in 0..10 {
        for c in 0..10 {
            assert!(!board.is_alive(r, c));
            assert!(!board.was_alive(r, c));
        }
    }
}

#[test]
fn toggle_flips_the_cell_and_settles_it() {
    let mut board = Board::new(3);
    board.alive_cell_toggle(1, 2);
    assert!(board.is_alive(1, 2));
    assert!(board.was_alive(1, 2));
    assert_eq!(living(&board), vec![(1, 2)]);
    board.alive_cell_toggle(1, 2);
    assert!(!board.is_alive(1, 2));
    assert!(!board.was_alive(1, 2));
    assert_eq!(living(&board), vec![]);
}

#[test]
fn neighbor_count_covers_the_full_ring() {
    let board = board_with(
        3,
        &[(0, 0), (0, 1), (0, 2), (1, 0), (1, 1), (1, 2), (2, 0), (2, 1), (2, 2)],
    );
    assert_eq!(board.num_of_alive_neighbors(1, 1), 8);
    assert_eq!(board.num_of_alive_neighbors(0, 0), 3);
    assert_eq!(board.num_of_alive_neighbors(0, 1), 5);
    assert_eq!(board.num_of_alive_neighbors(2, 2), 3);
    assert_eq!(board.num_of_alive_neighbors(1, 2), 5);
}

#[test]
fn neighbor_count_includes_diagonal_cells_on_the_main_diagonal() {
    let board = board_with(4, &[(1, 1), (3, 3)]);
    assert_eq!(board.num_of_alive_neighbors(2, 2), 2);
    assert_eq!(board.num_of_alive_neighbors(1, 2), 1);
    assert_eq!(board.num_of_alive_neighbors(0, 0), 1);
    assert_eq!(board.num_of_alive_neighbors(1, 1), 0);
}

#[test]
fn neighbor_count_reads_the_backup() {
    let mut board = board_with(5, &[(2, 1), (2, 2), (2, 3)]);
    board.update();
    assert_eq!(living(&board), vec![(1, 2), (2, 2), (3, 2)]);
    assert_eq!(board.num_of_alive_neighbors(1, 2), 3);
    assert_eq!(board.num_of_alive_neighbors(2, 1), 1);
    assert!(board.was_alive(2, 1));
    assert!(!board.is_alive(2, 1));
    board.backup();
    assert_eq!(board.num_of_alive_neighbors(1, 2), 1);
    assert_eq!(board.num_of_alive_neighbors(2, 1), 3);
    assert!(!board.was_alive(2, 1));
}

#[test]
fn backup_copies_the_present_state() {
    let mut board = board_with(4, &[(0, 3), (2, 2), (2, 3), (3, 2)]);
    board.update();
    board.backup();
    for r in 0..4 {
        for c in 0..4 {
            assert_eq!(board.was_alive(r, c), board.is_alive(r, c));
        }
    }
}

#[test]
fn two_neighbors_keep_a_living_cell_alive() {
    let mut board = board_with(3, &[(1, 1), (0, 0), (2, 2)]);
    board.update();
    assert!(board.is_alive(1, 1));
    assert!(board.was_alive(1, 1));
}

#[test]
fn two_neighbors_leave_a_dead_cell_dead() {
    let mut board = board_with(3, &[(0, 0), (2, 2)]);
    board.update();
    assert!(!board.is_alive(1, 1));
}

#[test]
fn three_neighbors_bring_a_dead_cell_to_life() {
    let mut board = board_with(3, &[(0, 0), (0, 2), (2, 1)]);
    board.update();
    assert!(board.is_alive(1, 1));
    assert!(!board.was_alive(1, 1));
}

#[test]
fn three_neighbors_keep_a_living_cell_alive() {
    let mut board = board_with(3, &[(1, 1), (0, 0), (0, 2), (2, 1)]);
    board.update();
    assert!(board.is_alive(1, 1));
}

#[test]
fn no_neighbors_kill_a_cell() {
    let mut board = board_with(3, &[(1, 1)]);
    board.update();
    assert!(!board.is_alive(1, 1));
    assert_eq!(living(&board), vec![]);
}

#[test]
fn one_neighbor_kills_a_cell() {
    let mut board = board_with(3, &[(1, 1), (0, 1)]);
    board.update();
    assert!(!board.is_alive(1, 1));
}

#[test]
fn four_neighbors_kill_a_cell() {
    let mut board = board_with(3, &[(1, 1), (0, 0), (0, 2), (2, 0), (2, 2)]);
    board.update();
    assert!(!board.is_alive(1, 1));
}

#[test]
fn more_than_four_neighbors_kill_a_cell_and_bear_none() {
    for count in 4..=8usize {
        let ring = [(0, 0), (0, 1), (0, 2), (1, 0), (1, 2), (2, 0), (2, 1), (2, 2)];
        let mut alive = board_with(3, &ring[..count]);
        alive.alive_cell_toggle(1, 1);
        alive.update();
        assert!(!alive.is_alive(1, 1));
        let mut dead = board_with(3, &ring[..count]);
        dead.update();
        assert!(!dead.is_alive(1, 1));
    }
}

#[test]
fn blinker_oscillates_with_period_two() {
    let across = vec![(2, 1), (2, 2), (2, 3)];
    let down = vec![(1, 2), (2, 2), (3, 2)];
    let mut board = board_with(5, &across);
    for _ in 0..4 {
        board.update();
        assert_eq!(living(&board), down);
        board.update();
        assert_eq!(living(&board), across);
    }
}

#[test]
fn block_is_still() {
    let block = vec![(1, 1), (1, 2), (2, 1), (2, 2)];
    let mut board = board_with(4, &block);
    board.update();
    assert_eq!(living(&board), block);
}

#[test]
fn glider_takes_its_next_shape() {
    let mut board = board_with(6, &[(0, 1), (1, 2), (2, 0), (2, 1), (2, 2)]);
    board.update();
    assert_eq!(living(&board), vec![(1, 0), (1, 2), (2, 1), (2, 2), (3, 1)]);
}

#[test]
fn update_remembers_the_former_generation() {
    let mut board = board_with(5, &[(2, 1), (2, 2), (2, 3)]);
    board.update();
    for r in 0..5 {
        for c in 0..5 {
            assert_eq!(board.was_alive(r, c), r == 2 && (1..=3).contains(&c));
        }
    }
}

#[test]
fn cells_at_the_edge_have_no_neighbors_beyond_it() {
    let mut board = board_with(3, &[(0, 0), (0, 1), (0, 2)]);
    board.update();
    assert_eq!(living(&board), vec![(0, 1), (1, 1)]);
}
