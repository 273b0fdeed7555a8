use grid_games::control::Cursor;
use grid_games::life::Board;
use grid_games::minefield::Minefield;
use grid_games::screen::{frame, glyph, mine_glyph, Glyph, MineGlyph, BLOCK};

fn text(lines: &Vec<Vec<Glyph>>) -> Vec<String> {
    lines.iter().map(|line| line.iter().map(|g| g.ch).collect()).collect()
}

fn highlights(lines: &Vec<Vec<Glyph>>) -> Vec<(usize, usize)> {
    let mut found = Vec::new();
    for (y, line) in lines.iter().enumerate() {
        for (x, g) in line.iter().enumerate() {
            if g.highlighted {
                found.push((y, x));
            }
        }
    }
    found
}

#[test]
fn frame_of_a_dead_board_with_the_cursor_in_the_corner() {
    let board = Board::new(2);
    let lines = frame(&board, Cursor { row: 0, col: 0 });
    assert_eq!(
        text(&lines),
        vec![
            "+---+---+".to_string(),
            "|\u{2588} \u{2588}|   |".to_string(),
            "+---+---+".to_string(),
            "|   |   |".to_string(),
            "+---+---+".to_string(),
        ]
    );
    assert_eq!(highlights(&lines), vec![(1, 1), (1, 2), (1, 3), (1, 4)]);
}

#[test]
fn frame_shows_living_cells_as_blocks() {
    let mut board = Board::new(3);
    board.alive_cell_toggle(0, 2);
    board.alive_cell_toggle(1, 1);
    let lines = frame(&board, Cursor { row: 1, col: 1 });
    assert_eq!(
        text(&lines),
        vec![
            "+---+---+---+".to_string(),
            "|   |   | \u{2588} |".to_string(),
            "+---+---+---+".to_string(),
            "|   |\u{2588}\u{2588}\u{2588}|   |".to_string(),
            "+---+---+---+".to_string(),
            "|   |   |   |".to_string(),
            "+---+---+---+".to_string(),
        ]
    );
    assert_eq!(highlights(&lines), vec![(3, 5), (3, 6), (3, 7), (3, 8)]);
}

#[test]
fn frame_has_two_lines_per_row_and_four_columns_per_cell() {
    let board = Board::new(10);
    let lines = frame(&board, Cursor { row: 5, col: 5 });
    assert_eq!(lines.len(), 21);
    for line in &lines {
        assert_eq!(line.len(), 41);
    }
}

#[test]
fn glyph_agrees_with_the_frame() {
    let mut board = Board::new(3);
    board.alive_cell_toggle(2, 0);
    let cursor = Cursor { row: 2, col: 2 };
    let lines = frame(&board, cursor);
    for y in 0..7 {
        for x in 0..13 {
            assert_eq!(glyph(&board, cursor, y, x), lines[y][x]);
        }
    }
    assert_eq!(glyph(&board, cursor, 5, 2), Glyph { ch: BLOCK, highlighted: false });
    assert_eq!(glyph(&board, cursor, 5, 10), Glyph { ch: ' ', highlighted: true });
    assert_eq!(glyph(&board, cursor, 5, 12), Glyph { ch: '|', highlighted: true });
    assert_eq!(glyph(&board, cursor, 5, 0), Glyph { ch: '|', highlighted: false });
    assert_eq!(glyph(&board, cursor, 6, 12), Glyph { ch: '+', highlighted: false });
    assert_eq!(glyph(&board, cursor, 6, 11), Glyph { ch: '-', highlighted: false });
}

#[test]
fn mine_glyph_shows_each_face() {
    let mut field = Minefield::with_bombs(4, &vec![(0, 0), (0, 1)]);
    assert_eq!(mine_glyph(&field, 1, 0), MineGlyph::Hidden);
    field.toggle_mark(1, 0);
    assert_eq!(mine_glyph(&field, 1, 0), MineGlyph::Marked);
    field.reveal_cell(1, 0);
    assert_eq!(mine_glyph(&field, 1, 0), MineGlyph::Digit(2));
    field.reveal_cell(1, 2);
    assert_eq!(mine_glyph(&field, 1, 2), MineGlyph::Digit(1));
    field.reveal_cell(3, 3);
    assert_eq!(mine_glyph(&field, 3, 3), MineGlyph::Blank);
    assert_eq!(mine_glyph(&field, 2, 0), MineGlyph::Blank);
    assert_eq!(mine_glyph(&field, 0, 0), MineGlyph::Hidden);
    field.reveal_cell(0, 0);
    assert_eq!(mine_glyph(&field, 0, 0), MineGlyph::Bomb);
}

#[test]
fn mine_glyph_counts_up_to_eight() {
    let ring = vec![(0, 0), (0, 1), (0, 2), (1, 0), (1, 2), (2, 0), (2, 1), (2, 2)];
    let mut field = Minefield::with_bombs(3, &ring);
    field.reveal_cell(1, 1);
    assert_eq!(mine_glyph(&field, 1, 1), MineGlyph::Digit(8));
}
