//! The players' side of both games: the actions a player can take, the cursor
//! that wraps around the edges of the grid, and what each action does to a game.

use crate::life::{next_generation, Board, Cell};
use crate::mine_model::{hidden_cells, mark_toggled, revealed, MineCell};
use crate::minefield::Minefield;
use vstd::prelude::*;

verus! {

/// What a player can ask for. `Primary` toggles a cell of the Game of Life and
/// reveals a cell of the minefield; `Secondary` advances the Game of Life by a
/// generation and toggles a mark on the minefield.
#[derive(Clone, Copy, Debug, PartialEq, Eq, Structural)]
pub enum UserAction {
    MoveUp,
    MoveDown,
    MoveLeft,
    MoveRight,
    Primary,
    Secondary,
    Quit,
}

/// How a game has ended.
#[derive(Clone, Copy, Debug, PartialEq, Eq, Structural)]
pub enum GameOutcome {
    Won,
    Lost,
    Quit,
}

/// The action that a key stands for, if it stands for one.
pub open spec fn key_binding(key: char) -> Option<UserAction> {
    if key == 'q' {
        Some(UserAction::Quit)
    } else if key == 'k' {
        Some(UserAction::MoveUp)
    } else if key == 'j' {
        Some(UserAction::MoveDown)
    } else if key == 'h' {
        Some(UserAction::MoveLeft)
    } else if key == 'l' {
        Some(UserAction::MoveRight)
    } else if key == ' ' {
        Some(UserAction::Primary)
    } else if key == 'n' {
        Some(UserAction::Secondary)
    } else {
        None
    }
}

/// Maps a key to the action it stands for. A key that stands for none is to be
/// ignored.
pub fn action_for_key(key: char) -> (action: Option<UserAction>)
    ensures
        action == key_binding(key),
{
    match key {
        'q' => Some(UserAction::Quit),
        'k' => Some(UserAction::MoveUp),
        'j' => Some(UserAction::MoveDown),
        'h' => Some(UserAction::MoveLeft),
        'l' => Some(UserAction::MoveRight),
        ' ' => Some(UserAction::Primary),
        'n' => Some(UserAction::Secondary),
        _ => None,
    }
}

/// One step towards the start of an axis of `size` positions; from the first
/// position the step leads to the last.
pub open spec fn step_back(at: int, size: int) -> int {
    if at == 0 {
        size - 1
    } else {
        at - 1
    }
}

/// One step towards the end of an axis of `size` positions; from the last
/// position the step leads to the first.
pub open spec fn step_on(at: int, size: int) -> int {
    if at == size - 1 {
        0
    } else {
        at + 1
    }
}

/// The steps stay on the axis, move by one modulo its length, and undo each
/// other.
pub proof fn lemma_steps_wrap(at: int, size: int)
    requires
        0 <= at < size,
    ensures
        0 <= step_back(at, size) < size,
        0 <= step_on(at, size) < size,
        step_on(at, size) == (at + 1) % size,
        step_back(at, size) == (at + size - 1) % size,
        step_on(step_back(at, size), size) == at,
        step_back(step_on(at, size), size) == at,
{
    if at == size - 1 {
        assert((at + 1) % size == 0) by (nonlinear_arith)
            requires
                at + 1 == size,
                size > 0,
        ;
    } else {
        assert((at + 1) % size == at + 1) by (nonlinear_arith)
            requires
                0 <= at + 1 < size,
        ;
    }
    if at == 0 {
        assert((at + size - 1) % size == size - 1) by (nonlinear_arith)
            requires
                at == 0,
                size > 0,
        ;
    } else {
        assert((at + size - 1) % size == at - 1) by (nonlinear_arith)
            requires
                0 < at < size,
        ;
    }
}

/// The position that the player points at.
#[derive(Clone, Copy, Debug, PartialEq, Eq, Structural)]
pub struct Cursor {
    pub row: usize,
    pub col: usize,
}

impl Cursor {
    /// Whether the cursor lies on a grid of `size` by `size` cells.
    pub open spec fn within(&self, size: int) -> bool {
        self.row < size && self.col < size
    }

    /// Where the cursor stands after `action` on a grid of `size` by `size`
    /// cells: a move takes it one step, around the edge if need be, and any
    /// other action leaves it in place.
    pub open spec fn after(&self, action: UserAction, size: int) -> Cursor {
        match action {
            UserAction::MoveUp => Cursor {
                row: step_back(self.row as int, size) as usize,
                col: self.col,
            },
            UserAction::MoveDown => Cursor {
                row: step_on(self.row as int, size) as usize,
                col: self.col,
            },
            UserAction::MoveLeft => Cursor {
                row: self.row,
                col: step_back(self.col as int, size) as usize,
            },
            UserAction::MoveRight => Cursor {
                row: self.row,
                col: step_on(self.col as int, size) as usize,
            },
            _ => *self,
        }
    }

    /// The cursor in the middle of a grid of `size` by `size` cells.
    pub fn centered(size: usize) -> (cursor: Cursor)
        requires
            size > 0,
        ensures
            cursor.row == size / 2,
            cursor.col == size / 2,
            cursor.within(size as int),
    {
        Cursor { row: size / 2, col: size / 2 }
    }

    /// Moves the cursor as `action` asks, on a grid of `size` by `size` cells.
    pub fn shift(&mut self, action: UserAction, size: usize)
        requires
            old(self).within(size as int),
        ensures
            *final(self) == old(self).after(action, size as int),
            final(self).within(size as int),
    {
        match action {
            UserAction::MoveUp => {
                if self.row == 0 {
                    self.row = size - 1;
                } else {
                    self.row -= 1;
                }
            },
            UserAction::MoveDown => {
                if self.row == size - 1 {
                    self.row = 0;
                } else {
                    self.row += 1;
                }
            },
            UserAction::MoveLeft => {
                if self.col == 0 {
                    self.col = size - 1;
                } else {
                    self.col -= 1;
                }
            },
            UserAction::MoveRight => {
                if self.col == size - 1 {
                    self.col = 0;
                } else {
                    self.col += 1;
                }
            },
            _ => {},
        }
    }
}

/// The board as it stands after the cell at `(r, c)` was toggled by hand.
pub open spec fn toggled(cells: Seq<Seq<Cell>>, r: int, c: int) -> Seq<Seq<Cell>> {
    cells.update(
        r,
        cells[r].update(
            c,
            Cell { is_alive: !cells[r][c].is_alive, was_alive: !cells[r][c].is_alive },
        ),
    )
}

/// A session of the Game of Life: the board and the player's cursor.
pub struct Game {
    board: Board,
    player_pos: Cursor,
}

impl Game {
    /// The rows of the board.
    pub closed spec fn cells(&self) -> Seq<Seq<Cell>> {
        self.board@
    }

    /// The player's cursor.
    pub closed spec fn cursor(&self) -> Cursor {
        self.player_pos
    }

    /// The board is well formed and the cursor lies on it.
    pub closed spec fn wf(&self) -> bool {
        self.board.wf() && self.player_pos.within(self.board.dim())
    }

    /// A session on a board of `size` by `size` dead cells, with the cursor in
    /// the middle.
    pub fn new(size: usize) -> (game: Self)
        requires
            size > 0,
        ensures
            game.wf(),
            game.cells().len() == size,
            forall|r: int| 0 <= r < size ==> (#[trigger] game.cells()[r]).len() == size,
            forall|r: int, c: int|
                0 <= r < size && 0 <= c < size ==> #[trigger] game.cells()[r][c] == (Cell {
                    is_alive: false,
                    was_alive: false,
                }),
            game.cursor() == (Cursor { row: size / 2, col: size / 2 }),
    {
        let board = Board::new(size);
        Game { board, player_pos: Cursor::centered(size) }
    }

    /// The board.
    pub fn board(&self) -> (board: &Board)
        requires
            self.wf(),
        ensures
            board@ == self.cells(),
            board.wf(),
            self.cursor().within(board.dim()),
    {
        &self.board
    }

    /// The player's cursor.
    pub fn player_pos(&self) -> (cursor: Cursor)
        ensures
            cursor == self.cursor(),
    {
        self.player_pos
    }

    /// Carries out one action of the player and says whether the session has
    /// ended. A move shifts the cursor, `Primary` toggles the cell under the
    /// cursor, `Secondary` advances the board by a generation, and `Quit` ends
    /// the session.
    pub fn apply(&mut self, action: UserAction) -> (outcome: Option<GameOutcome>)
        requires
            old(self).wf(),
        ensures
            final(self).wf(),
            outcome == (if action == UserAction::Quit {
                Some(GameOutcome::Quit)
            } else {
                None
            }),
            final(self).cursor() == old(self).cursor().after(action, old(self).cells().len() as int),
            final(self).cells() == (match action {
                UserAction::Primary => toggled(
                    old(self).cells(),
                    old(self).cursor().row as int,
                    old(self).cursor().col as int,
                ),
                UserAction::Secondary => next_generation(old(self).cells()),
                _ => old(self).cells(),
            }),
    {
        match action {
            UserAction::Quit => {
                return Some(GameOutcome::Quit);
            },
            UserAction::Primary => {
                self.board.alive_cell_toggle(self.player_pos.row, self.player_pos.col);
            },
            UserAction::Secondary => {
                self.board.update();
            },
            _ => {
                let size = self.board.size();
                self.player_pos.shift(action, size);
            },
        }
        None
    }
}

/// A session of the mine-sweeping puzzle: the field and the player's cursor.
pub struct MineGame {
    field: Minefield,
    cursor: Cursor,
}

impl MineGame {
    /// The rows of the field.
    pub closed spec fn cells(&self) -> Seq<Seq<MineCell>> {
        self.field@
    }

    /// The number of bombs on the field.
    pub closed spec fn bombs(&self) -> int {
        self.field.bombs()
    }

    /// The player's cursor.
    pub closed spec fn pointer(&self) -> Cursor {
        self.cursor
    }

    /// The field is well formed and the cursor lies on it.
    pub closed spec fn wf(&self) -> bool {
        self.field.wf() && self.cursor.within(self.field.dim())
    }

    /// What `Primary` leads to on a field that stands as `cells` after the
    /// reveal at `(r, c)`: a loss if a bomb lies there, a win if as many cells
    /// are hidden as there are bombs, and otherwise the game goes on.
    pub open spec fn verdict(cells: Seq<Seq<MineCell>>, bombs: int, r: int, c: int) -> Option<
        GameOutcome,
    > {
        if cells[r][c].is_bomb {
            Some(GameOutcome::Lost)
        } else if hidden_cells(cells).len() == bombs {
            Some(GameOutcome::Won)
        } else {
            None
        }
    }

    /// A session on `field`, with the cursor in the middle.
    pub fn new(field: Minefield) -> (game: Self)
        requires
            field.wf(),
        ensures
            game.wf(),
            game.cells() == field@,
            game.bombs() == field.bombs(),
            game.pointer().row == field@.len() / 2,
            game.pointer().col == field@.len() / 2,
    {
        let cursor = Cursor::centered(field.size());
        MineGame { field, cursor }
    }

    /// The field.
    pub fn field(&self) -> (field: &Minefield)
        requires
            self.wf(),
        ensures
            field@ == self.cells(),
            field.bombs() == self.bombs(),
            field.wf(),
            self.pointer().within(field.dim()),
    {
        &self.field
    }

    /// The player's cursor.
    pub fn cursor(&self) -> (cursor: Cursor)
        ensures
            cursor == self.pointer(),
    {
        self.cursor
    }

    /// Carries out one action of the player and says whether the session has
    /// ended. A move shifts the cursor. `Primary` reveals the cell under the
    /// cursor: the game is lost if a bomb lies there, and won if after the
    /// reveal as many cells are hidden as there are bombs. `Secondary` toggles
    /// the mark under the cursor, and `Quit` ends the session.
    pub fn apply(&mut self, action: UserAction) -> (outcome: Option<GameOutcome>)
        requires
            old(self).wf(),
        ensures
            final(self).wf(),
            final(self).bombs() == old(self).bombs(),
            final(self).pointer() == old(self).pointer().after(
                action,
                old(self).cells().len() as int,
            ),
            final(self).cells() == (match action {
                UserAction::Primary => revealed(
                    old(self).cells(),
                    old(self).pointer().row as int,
                    old(self).pointer().col as int,
                ),
                UserAction::Secondary => mark_toggled(
                    old(self).cells(),
                    old(self).pointer().row as int,
                    old(self).pointer().col as int,
                ),
                _ => old(self).cells(),
            }),
            outcome == (match action {
                UserAction::Quit => Some(GameOutcome::Quit),
                UserAction::Primary => Self::verdict(
                    final(self).cells(),
                    final(self).bombs(),
                    old(self).pointer().row as int,
                    old(self).pointer().col as int,
                ),
                _ => None,
            }),
    {
        match action {
            UserAction::Quit => {
                return Some(GameOutcome::Quit);
            },
            UserAction::Primary => {
                self.field.reveal_cell(self.cursor.row, self.cursor.col);
                if self.field.is_bomb(self.cursor.row, self.cursor.col) {
                    return Some(GameOutcome::Lost);
                }
                if self.field.check_win() {
                    return Some(GameOutcome::Won);
                }
            },
            UserAction::Secondary => {
                self.field.toggle_mark(self.cursor.row, self.cursor.col);
            },
            _ => {
                let size = self.field.size();
                self.cursor.shift(action, size);
            },
        }
        None
    }
}

} // verus!
