use grid_games::mine_model::MineCell;
use grid_games::minefield::Minefield;

fn visible_cells(field: &Minefield) -> Vec<(usize, usize)> {
    let mut cells = Vec::new();
    for r in 0..field.size() {
        for c in 0..field.size() {
            if field.is_visible(r, c) {
                cells.push((r, c));
            }
        }
    }
    cells
}

fn bomb_positions(field: &Minefield) -> Vec<(usize, usize)> {
    let mut cells = Vec::new();
    for r in 0..field.size() {
        for c in 0..field.size() {
            if field.is_bomb(r, c) {
                cells.push((r, c));
            }
        }
    }
    cells
}

fn marked_cells(field: &Minefield) -> Vec<(usize, usize)> {
    let mut cells = Vec::new();
    for r in 0..field.size() {
        for c in 0..field.size() {
            if field.is_marked(r, c) {
                cells.push((r, c));
            }
        }
    }
    cells
}

fn wall_field() -> Minefield {
    let wall: Vec<(usize, usize)> = (0..6).map(|r| (r, 3)).collect();
    Minefield::with_bombs(6, &wall)
}

#[test]
fn mine_cell_holds_three_flags() {
    let cell = MineCell { is_bomb: true, is_visible: false, is_marked: true };
    assert!(cell.is_bomb && !cell.is_visible && cell.is_marked);
    assert_eq!(cell, cell.clone());
}

#[test]
fn with_bombs_lays_the_listed_bombs_and_hides_everything() {
    let field = Minefield::with_bombs(4, &vec![(3, 1), (0, 2)]);
    assert_eq!(field.size(), 4);
    assert_eq!(field.bomb_count(), 2);
    assert_eq!(bomb_positions(&field), vec![(0, 2), (3, 1)]);
    assert_eq!(visible_cells(&field), vec![]);
    assert_eq!(marked_cells(&field), vec![]);
}

#[test]
fn with_bombs_counts_a_repeated_position_once() {
    let field = Minefield::with_bombs(3, &vec![(1, 1), (0, 0), (1, 1), (0, 0)]);
    assert_eq!(field.bomb_count(), 2);
    assert_eq!(bomb_positions(&field), vec![(0, 0), (1, 1)]);
}

#[test]
fn with_bombs_takes_an_empty_list() {
    let field = Minefield::with_bombs(2, &vec![]);
    assert_eq!(field.bomb_count(), 0);
    assert_eq!(bomb_positions(&field), vec![]);
    assert!(!field.check_win());
}

#[test]
fn neighbor_bomb_count_on_a_handmade_field() {
    let field =
        Minefield::with_bombs(5, &vec![(0, 0), (0, 4), (1, 2), (2, 2), (3, 0), (4, 4), (4, 3)]);
    let expected = [
        [0, 2, 1, 2, 0],
        [1, 3, 1, 3, 1],
        [1, 3, 1, 2, 0],
        [0, 2, 2, 3, 2],
        [1, 1, 1, 1, 1],
    ];
    for r in 0..5 {
        for c in 0..5 {
            assert_eq!(field.neighbor_bomb_count(r, c), expected[r][c], "cell ({}, {})", r, c);
        }
    }
}

#[test]
fn neighbor_bomb_count_reaches_eight() {
    let ring = vec![(0, 0), (0, 1), (0, 2), (1, 0), (1, 2), (2, 0), (2, 1), (2, 2)];
    let field = Minefield::with_bombs(3, &ring);
    assert_eq!(field.neighbor_bomb_count(1, 1), 8);
    assert_eq!(field.neighbor_bomb_count(0, 0), 2);
    assert_eq!(field.neighbor_bomb_count(0, 1), 4);
}

#[test]
fn neighbor_bomb_count_leaves_out_the_cell_itself() {
    let field = Minefield::with_bombs(3, &vec![(1, 1)]);
    assert_eq!(field.neighbor_bomb_count(1, 1), 0);
    assert_eq!(field.neighbor_bomb_count(0, 0), 1);
    assert_eq!(field.neighbor_bomb_count(2, 2), 1);
}

#[test]
fn reveal_of_a_numbered_cell_shows_that_cell_only() {
    let mut field = wall_field();
    field.reveal_cell(2, 2);
    assert_eq!(visible_cells(&field), vec![(2, 2)]);
    assert!(!field.is_bomb(2, 2));
}

#[test]
fn reveal_of_a_bomb_shows_that_cell_only() {
    let mut field = wall_field();
    field.reveal_cell(4, 3);
    assert_eq!(visible_cells(&field), vec![(4, 3)]);
    assert!(field.is_bomb(4, 3));
}

#[test]
fn reveal_of_a_lone_bomb_does_not_cascade() {
    let mut field = Minefield::with_bombs(3, &vec![(0, 0)]);
    assert_eq!(field.neighbor_bomb_count(0, 0), 0);
    field.reveal_cell(0, 0);
    assert_eq!(visible_cells(&field), vec![(0, 0)]);
}

#[test]
fn reveal_floods_the_region_and_its_ring() {
    let mut field = wall_field();
    field.reveal_cell(0, 0);
    let mut expected = Vec::new();
    for r in 0..6 {
        for c in 0..3 {
            expected.push((r, c));
        }
    }
    assert_eq!(visible_cells(&field), expected);
    for (r, c) in visible_cells(&field) {
        assert!(!field.is_bomb(r, c));
    }
    assert_eq!(bomb_positions(&field), (0..6).map(|r| (r, 3)).collect::<Vec<_>>());
}

#[test]
fn reveal_floods_the_same_region_from_any_of_its_cells() {
    let mut from_corner = wall_field();
    from_corner.reveal_cell(0, 0);
    for r in 0..6 {
        for c in 0..2 {
            let mut field = wall_field();
            field.reveal_cell(r, c);
            assert_eq!(visible_cells(&field), visible_cells(&from_corner));
        }
    }
}

#[test]
fn reveal_stays_on_its_side_of_the_wall() {
    let mut field = wall_field();
    field.reveal_cell(5, 5);
    let mut expected = Vec::new();
    for r in 0..6 {
        for c in 4..6 {
            expected.push((r, c));
        }
    }
    assert_eq!(visible_cells(&field), expected);
}

#[test]
fn reveal_of_an_empty_field_shows_everything() {
    let mut field = Minefield::with_bombs(30, &vec![]);
    field.reveal_cell(17, 4);
    assert_eq!(visible_cells(&field).len(), 900);
}

#[test]
fn reveal_cascades_around_a_single_bomb() {
    let mut field = Minefield::with_bombs(5, &vec![(2, 2)]);
    field.reveal_cell(0, 0);
    assert_eq!(visible_cells(&field).len(), 24);
    assert!(!field.is_visible(2, 2));
    assert!(field.check_win());
}

#[test]
fn reveal_twice_is_reveal_once() {
    for &(r, c) in &[(0, 0), (2, 2), (4, 3), (5, 5)] {
        let mut once = wall_field();
        once.reveal_cell(r, c);
        let mut twice = wall_field();
        twice.reveal_cell(r, c);
        twice.reveal_cell(r, c);
        assert_eq!(visible_cells(&once), visible_cells(&twice));
        assert_eq!(bomb_positions(&once), bomb_positions(&twice));
        assert_eq!(marked_cells(&once), marked_cells(&twice));
    }
}

#[test]
fn reveal_keeps_what_was_visible() {
    let mut field = wall_field();
    field.reveal_cell(2, 4);
    field.reveal_cell(0, 0);
    assert!(field.is_visible(2, 4));
    assert_eq!(visible_cells(&field).len(), 19);
}

#[test]
fn reveal_passes_marked_cells_and_keeps_their_marks() {
    let mut field = wall_field();
    field.toggle_mark(3, 1);
    field.toggle_mark(3, 3);
    field.reveal_cell(0, 0);
    assert!(field.is_visible(3, 1));
    assert!(field.is_visible(5, 2));
    assert_eq!(marked_cells(&field), vec![(3, 1), (3, 3)]);
    assert_eq!(field.bomb_count(), 6);
}

#[test]
fn check_win_counts_hidden_cells_against_bombs() {
    let mut field = Minefield::with_bombs(3, &vec![(1, 1)]);
    let safe = [(0, 0), (0, 1), (0, 2), (1, 0), (1, 2), (2, 0), (2, 1), (2, 2)];
    assert!(!field.check_win());
    for (k, &(r, c)) in safe.iter().enumerate() {
        field.reveal_cell(r, c);
        assert_eq!(visible_cells(&field).len(), k + 1);
        assert_eq!(field.check_win(), k + 1 == 8);
    }
    assert!(!field.is_visible(1, 1));
}

#[test]
fn check_win_is_false_with_seven_of_eight_revealed() {
    let mut field = Minefield::with_bombs(3, &vec![(1, 1)]);
    for &(r, c) in &[(0, 0), (0, 1), (0, 2), (1, 0), (1, 2), (2, 0), (2, 1)] {
        field.reveal_cell(r, c);
    }
    assert_eq!(visible_cells(&field).len(), 7);
    assert!(!field.check_win());
    field.reveal_cell(2, 2);
    assert_eq!(visible_cells(&field).len(), 8);
    assert!(field.check_win());
}

#[test]
fn check_win_is_false_once_more_than_the_safe_cells_are_visible() {
    let mut field = Minefield::with_bombs(2, &vec![(0, 0)]);
    field.reveal_cell(0, 1);
    field.reveal_cell(1, 0);
    field.reveal_cell(1, 1);
    assert!(field.check_win());
    field.reveal_cell(0, 0);
    assert!(!field.check_win());
}

#[test]
fn check_win_holds_at_once_on_a_field_of_bombs() {
    let field = Minefield::with_bombs(2, &vec![(0, 0), (0, 1), (1, 0), (1, 1)]);
    assert!(field.check_win());
}

#[test]
fn toggle_mark_flips_a_hidden_cell_each_call() {
    let mut field = wall_field();
    field.toggle_mark(1, 4);
    assert!(field.is_marked(1, 4));
    assert_eq!(marked_cells(&field), vec![(1, 4)]);
    field.toggle_mark(1, 4);
    assert!(!field.is_marked(1, 4));
    field.toggle_mark(1, 4);
    assert!(field.is_marked(1, 4));
    assert_eq!(visible_cells(&field), vec![]);
    assert_eq!(field.bomb_count(), 6);
}

#[test]
fn toggle_mark_leaves_a_visible_cell_alone() {
    let mut field = wall_field();
    field.reveal_cell(2, 2);
    field.toggle_mark(2, 2);
    assert!(!field.is_marked(2, 2));
    field.toggle_mark(2, 2);
    assert!(!field.is_marked(2, 2));
    assert_eq!(marked_cells(&field), vec![]);
}

#[test]
fn toggle_mark_keeps_a_mark_that_was_set_before_the_reveal() {
    let mut field = wall_field();
    field.toggle_mark(2, 2);
    field.reveal_cell(2, 2);
    field.toggle_mark(2, 2);
    assert!(field.is_marked(2, 2));
    assert!(field.is_visible(2, 2));
}

#[test]
fn new_lays_the_asked_number_of_bombs() {
    for &(size, count) in &[(1usize, 0usize), (1, 1), (3, 4), (20, 40), (7, 49), (9, 0)] {
        let field = Minefield::new(size, count);
        assert_eq!(field.size(), size);
        assert_eq!(field.bomb_count(), count);
        assert_eq!(bomb_positions(&field).len(), count);
        assert_eq!(visible_cells(&field), vec![]);
        assert_eq!(marked_cells(&field), vec![]);
    }
}

#[test]
fn new_does_not_always_take_the_first_cells() {
    let first_cells: Vec<(usize, usize)> = (0..40).map(|k| (k / 20, k % 20)).collect();
    let mut other_seen = false;
    for _ in 0..8 {
        let field = Minefield::new(20, 40);
        if bomb_positions(&field) != first_cells {
            other_seen = true;
        }
    }
    assert!(other_seen);
}

#[test]
fn new_draws_different_layouts() {
    let first = bomb_positions(&Minefield::new(20, 40));
    let mut differs = false;
    for _ in 0..8 {
        if bomb_positions(&Minefield::new(20, 40)) != first {
            differs = true;
        }
    }
    assert!(differs);
}
