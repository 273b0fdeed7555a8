//! What the games show: the Game of Life as a picture of characters, and the
//! face that each cell of the minefield turns to the player.

use crate::control::Cursor;
use crate::life::{Board, Cell};
use crate::mine_model::{adjacent_bombs, MineCell};
use crate::minefield::Minefield;
use vstd::prelude::*;

verus! {

/// The character that fills a living cell and frames the cell under the cursor.
pub const BLOCK: char = '\u{2588}';

/// One character of the picture, and whether it is drawn highlighted.
#[derive(Clone, Copy, Debug, PartialEq, Eq, Structural)]
pub struct Glyph {
    pub ch: char,
    pub highlighted: bool,
}

/// The character in line `y`, column `x` of the picture of a board. Even lines
/// are borders, `+---` for each cell and a closing `+`. Odd lines show a row of
/// the board: a `|`, then for each cell a margin, the cell, a margin and a `|`.
/// A living cell is a block, a dead one a blank. The cell under the cursor is
/// highlighted together with the bar that closes it, and its margins are
/// blocks.
pub open spec fn glyph_at(cells: Seq<Seq<Cell>>, cursor: Cursor, y: int, x: int) -> Glyph {
    if y % 2 == 0 {
        Glyph { ch: if x % 4 == 0 { '+' } else { '-' }, highlighted: false }
    } else if x == 0 {
        Glyph { ch: '|', highlighted: false }
    } else {
        let r = y / 2;
        let c = (x - 1) / 4;
        let part = (x - 1) % 4;
        let pointed = cursor.row == r && cursor.col == c;
        Glyph {
            ch: if part == 3 {
                '|'
            } else if part == 1 {
                if cells[r][c].is_alive {
                    BLOCK
                } else {
                    ' '
                }
            } else if pointed {
                BLOCK
            } else {
                ' '
            },
            highlighted: pointed,
        }
    }
}

/// Computes the character in line `y`, column `x` of the picture of `board`.
pub fn glyph(board: &Board, cursor: Cursor, y: usize, x: usize) -> (glyph: Glyph)
    requires
        board.wf(),
        y <= 2 * board.dim(),
        x <= 4 * board.dim(),
    ensures
        glyph == glyph_at(board@, cursor, y as int, x as int),
{
    if y % 2 == 0 {
        Glyph { ch: if x % 4 == 0 { '+' } else { '-' }, highlighted: false }
    } else if x == 0 {
        Glyph { ch: '|', highlighted: false }
    } else {
        let r = y / 2;
        let c = (x - 1) / 4;
        let part = (x - 1) % 4;
        let pointed = cursor.row == r && cursor.col == c;
        let ch = if part == 3 {
            '|'
        } else if part == 1 {
            if board.is_alive(r, c) {
                BLOCK
            } else {
                ' '
            }
        } else if pointed {
            BLOCK
        } else {
            ' '
        };
        Glyph { ch, highlighted: pointed }
    }
}

/// Draws the picture of `board`: `2 * size + 1` lines of `4 * size + 1`
/// characters each.
pub fn frame(board: &Board, cursor: Cursor) -> (lines: Vec<Vec<Glyph>>)
    requires
        board.wf(),
        4 * board.dim() + 1 <= usize::MAX,
    ensures
        lines@.len() == 2 * board.dim() + 1,
        forall|y: int| 0 <= y < lines@.len() ==> (#[trigger] lines@[y])@.len() == 4 * board.dim() + 1,
        forall|y: int, x: int|
            0 <= y <= 2 * board.dim() && 0 <= x <= 4 * board.dim() ==> #[trigger] lines@[y]@[x]
                == glyph_at(board@, cursor, y, x),
{
    let size = board.size();
    let height = 2 * size + 1;
    let width = 4 * size + 1;
    let mut lines: Vec<Vec<Glyph>> = Vec::new();
    let mut y: usize = 0;
    while y < height
        invariant
            board.wf(),
            size == board.dim(),
            height == 2 * size + 1,
            width == 4 * size + 1,
            y <= height,
            lines@.len() == y,
            forall|v: int| 0 <= v < y ==> (#[trigger] lines@[v])@.len() == width,
            forall|v: int, u: int|
                0 <= v < y && 0 <= u < width ==> #[trigger] lines@[v]@[u] == glyph_at(
                    board@,
                    cursor,
                    v,
                    u,
                ),
        decreases height - y,
    {
        let mut line: Vec<Glyph> = Vec::new();
        let mut x: usize = 0;
        while x < width
            invariant
                board.wf(),
                size == board.dim(),
                width == 4 * size + 1,
                y <= 2 * size,
                x <= width,
                line@.len() == x,
                forall|u: int|
                    0 <= u < x ==> #[trigger] line@[u] == glyph_at(board@, cursor, y as int, u),
            decreases width - x,
        {
            line.push(glyph(board, cursor, y, x));
            x += 1;
        }
        lines.push(line);
        y += 1;
    }
    lines
}

/// The face that a cell of the minefield turns to the player.
#[derive(Clone, Copy, Debug, PartialEq, Eq, Structural)]
pub enum MineGlyph {
    /// A hidden cell without a mark.
    Hidden,
    /// A hidden cell with a mark.
    Marked,
    /// A revealed cell that no bomb touches.
    Blank,
    /// A revealed cell and the number of bombs around it, from 1 to 8.
    Digit(u8),
    /// A revealed bomb.
    Bomb,
}

/// The face of the cell at `(r, c)`.
pub open spec fn mine_glyph_at(cells: Seq<Seq<MineCell>>, r: int, c: int) -> MineGlyph {
    if !cells[r][c].is_visible {
        if cells[r][c].is_marked {
            MineGlyph::Marked
        } else {
            MineGlyph::Hidden
        }
    } else if cells[r][c].is_bomb {
        MineGlyph::Bomb
    } else if adjacent_bombs(cells, r, c) == 0 {
        MineGlyph::Blank
    } else {
        MineGlyph::Digit(adjacent_bombs(cells, r, c) as u8)
    }
}

/// Computes the face of the cell at `(r, c)` of `field`.
pub fn mine_glyph(field: &Minefield, r: usize, c: usize) -> (glyph: MineGlyph)
    requires
        field.wf(),
        field.in_bounds(r as int, c as int),
    ensures
        glyph == mine_glyph_at(field@, r as int, c as int),
{
    if !field.is_visible(r, c) {
        if field.is_marked(r, c) {
            MineGlyph::Marked
        } else {
            MineGlyph::Hidden
        }
    } else if field.is_bomb(r, c) {
        MineGlyph::Bomb
    } else {
        let count = field.neighbor_bomb_count(r, c);
        if count == 0 {
            MineGlyph::Blank
        } else {
            MineGlyph::Digit(count as u8)
        }
    }
}

} // verus!
