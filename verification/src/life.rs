//! Conway's Game of Life on a bounded square board.

use crate::grid::{count_around, count_in_row, count_in_rows, Grid};
use vstd::prelude::*;

verus! {

/// One cell of the board: whether it lives now, and whether it lived when the
/// board was last backed up.
#[derive(Clone, Copy, Debug, PartialEq, Eq, Structural)]
pub struct Cell {
    pub is_alive: bool,
    pub was_alive: bool,
}

/// Whether the board `cells` has a cell at `(r, c)` that lives now.
pub open spec fn alive_at(cells: Seq<Seq<Cell>>, r: int, c: int) -> bool {
    0 <= r < cells.len() && 0 <= c < cells[r].len() && cells[r][c].is_alive
}

/// Whether the board `cells` has a cell at `(r, c)` that lived at the last backup.
pub open spec fn settled_at(cells: Seq<Seq<Cell>>, r: int, c: int) -> bool {
    0 <= r < cells.len() && 0 <= c < cells[r].len() && cells[r][c].was_alive
}

/// The number of cells around `(r, c)` that live now.
pub open spec fn alive_neighbors(cells: Seq<Seq<Cell>>, r: int, c: int) -> int {
    count_around(|i: int, j: int| alive_at(cells, i, j), r, c)
}

/// The number of cells around `(r, c)` that lived at the last backup.
pub open spec fn settled_neighbors(cells: Seq<Seq<Cell>>, r: int, c: int) -> int {
    count_around(|i: int, j: int| settled_at(cells, i, j), r, c)
}

/// The rule of the game: a cell lives in the next generation if it has three
/// living neighbors, or if it has two and lives already.
pub open spec fn lives_on(alive: bool, neighbors: int) -> bool {
    neighbors == 3 || (neighbors == 2 && alive)
}

/// The board with every cell's backup set to its present state.
pub open spec fn backed_up(cells: Seq<Seq<Cell>>) -> Seq<Seq<Cell>> {
    Seq::new(
        cells.len(),
        |r: int|
            Seq::new(
                cells[r].len(),
                |c: int| Cell { is_alive: cells[r][c].is_alive, was_alive: cells[r][c].is_alive },
            ),
    )
}

/// The generation that follows `cells`: every cell is judged by `lives_on`
/// against the neighbors that live in `cells`, and remembers what it was.
pub open spec fn next_generation(cells: Seq<Seq<Cell>>) -> Seq<Seq<Cell>> {
    Seq::new(
        cells.len(),
        |r: int|
            Seq::new(
                cells[r].len(),
                |c: int|
                    Cell {
                        is_alive: lives_on(cells[r][c].is_alive, alive_neighbors(cells, r, c)),
                        was_alive: cells[r][c].is_alive,
                    },
            ),
    )
}

/// The rule, spelled out for a cell on the board: three living neighbors give
/// a living cell, two leave the cell as it was, and any other number gives a
/// dead cell. The next generation remembers what the cell was.
pub proof fn lemma_rule_table(cells: Seq<Seq<Cell>>, r: int, c: int)
    requires
        0 <= r < cells.len(),
        0 <= c < cells[r].len(),
    ensures
        alive_neighbors(cells, r, c) == 3 ==> next_generation(cells)[r][c].is_alive,
        alive_neighbors(cells, r, c) == 2 ==> next_generation(cells)[r][c].is_alive
            == cells[r][c].is_alive,
        alive_neighbors(cells, r, c) < 2 || alive_neighbors(cells, r, c) > 3 ==> !next_generation(
            cells,
        )[r][c].is_alive,
        next_generation(cells)[r][c].was_alive == cells[r][c].is_alive,
        0 <= alive_neighbors(cells, r, c) <= 8,
{
}

/// After a backup every cell's backup agrees with its present state, and a
/// second backup changes nothing.
pub proof fn lemma_backup_settles(cells: Seq<Seq<Cell>>, r: int, c: int)
    requires
        0 <= r < cells.len(),
        0 <= c < cells[r].len(),
    ensures
        backed_up(cells)[r][c].was_alive == backed_up(cells)[r][c].is_alive,
        backed_up(cells)[r][c].is_alive == cells[r][c].is_alive,
        backed_up(backed_up(cells)) == backed_up(cells),
{
    assert(backed_up(backed_up(cells)) =~~= backed_up(cells));
}

/// Whether `cells` is a square board with room around `(r, c)` for a blinker.
pub open spec fn holds_blinker(cells: Seq<Seq<Cell>>, r: int, c: int) -> bool {
    &&& forall|i: int| 0 <= i < cells.len() ==> (#[trigger] cells[i]).len() == cells.len()
    &&& 1 <= r < cells.len() - 1
    &&& 1 <= c < cells.len() - 1
}

/// Whether the living cells of `cells` are the three in a row around `(r, c)`.
pub open spec fn row_blinker(cells: Seq<Seq<Cell>>, r: int, c: int) -> bool {
    &&& holds_blinker(cells, r, c)
    &&& forall|i: int, j: int|
        0 <= i < cells.len() && 0 <= j < cells.len() ==> (#[trigger] cells[i][j]).is_alive == (i
            == r && c - 1 <= j <= c + 1)
}

/// Whether the living cells of `cells` are the three in a column around `(r, c)`.
pub open spec fn column_blinker(cells: Seq<Seq<Cell>>, r: int, c: int) -> bool {
    &&& holds_blinker(cells, r, c)
    &&& forall|i: int, j: int|
        0 <= i < cells.len() && 0 <= j < cells.len() ==> (#[trigger] cells[i][j]).is_alive == (j
            == c && r - 1 <= i <= r + 1)
}

/// On a row blinker the living positions are the three of its row.
proof fn lemma_row_blinker_alive(cells: Seq<Seq<Cell>>, r: int, c: int, i: int, j: int)
    requires
        row_blinker(cells, r, c),
    ensures
        alive_at(cells, i, j) == (i == r && c - 1 <= j <= c + 1),
{
    if 0 <= i < cells.len() && 0 <= j < cells.len() {
        assert(cells[i][j].is_alive == (i == r && c - 1 <= j <= c + 1));
    }
}

/// On a column blinker the living positions are the three of its column.
proof fn lemma_column_blinker_alive(cells: Seq<Seq<Cell>>, r: int, c: int, i: int, j: int)
    requires
        column_blinker(cells, r, c),
    ensures
        alive_at(cells, i, j) == (j == c && r - 1 <= i <= r + 1),
{
    if 0 <= i < cells.len() && 0 <= j < cells.len() {
        assert(cells[i][j].is_alive == (j == c && r - 1 <= i <= r + 1));
    }
}

/// A blinker that lies in a row stands in a column one generation later.
pub proof fn lemma_blinker_turns(cells: Seq<Seq<Cell>>, r: int, c: int)
    requires
        row_blinker(cells, r, c),
    ensures
        column_blinker(next_generation(cells), r, c),
{
    let next = next_generation(cells);
    assert forall|i: int, j: int| 0 <= i < next.len() && 0 <= j < next.len() implies (#[trigger] next[i][j]).is_alive
        == (j == c && r - 1 <= i <= r + 1) by {
        lemma_row_blinker_alive(cells, r, c, i - 1, j - 1);
        lemma_row_blinker_alive(cells, r, c, i - 1, j);
        lemma_row_blinker_alive(cells, r, c, i - 1, j + 1);
        lemma_row_blinker_alive(cells, r, c, i, j - 1);
        lemma_row_blinker_alive(cells, r, c, i, j);
        lemma_row_blinker_alive(cells, r, c, i, j + 1);
        lemma_row_blinker_alive(cells, r, c, i + 1, j - 1);
        lemma_row_blinker_alive(cells, r, c, i + 1, j);
        lemma_row_blinker_alive(cells, r, c, i + 1, j + 1);
    }
}

/// A blinker that stands in a column lies in a row one generation later.
pub proof fn lemma_blinker_turns_back(cells: Seq<Seq<Cell>>, r: int, c: int)
    requires
        column_blinker(cells, r, c),
    ensures
        row_blinker(next_generation(cells), r, c),
{
    let next = next_generation(cells);
    assert forall|i: int, j: int| 0 <= i < next.len() && 0 <= j < next.len() implies (#[trigger] next[i][j]).is_alive
        == (i == r && c - 1 <= j <= c + 1) by {
        lemma_column_blinker_alive(cells, r, c, i - 1, j - 1);
        lemma_column_blinker_alive(cells, r, c, i - 1, j);
        lemma_column_blinker_alive(cells, r, c, i - 1, j + 1);
        lemma_column_blinker_alive(cells, r, c, i, j - 1);
        lemma_column_blinker_alive(cells, r, c, i, j);
        lemma_column_blinker_alive(cells, r, c, i, j + 1);
        lemma_column_blinker_alive(cells, r, c, i + 1, j - 1);
        lemma_column_blinker_alive(cells, r, c, i + 1, j);
        lemma_column_blinker_alive(cells, r, c, i + 1, j + 1);
    }
}

/// A blinker oscillates with period two: after two generations the same
/// cells live as at the start.
pub proof fn lemma_blinker_period_two(cells: Seq<Seq<Cell>>, r: int, c: int)
    requires
        row_blinker(cells, r, c),
    ensures
        row_blinker(next_generation(next_generation(cells)), r, c),
        forall|i: int, j: int|
            0 <= i < cells.len() && 0 <= j < cells.len() ==> (#[trigger] next_generation(
                next_generation(cells),
            )[i][j]).is_alive == cells[i][j].is_alive,
{
    lemma_blinker_turns(cells, r, c);
    lemma_blinker_turns_back(next_generation(cells), r, c);
}

/// The board of the Game of Life.
pub struct Board {
    grid: Grid<Cell>,
}

impl View for Board {
    type V = Seq<Seq<Cell>>;

    /// The rows of the board, top to bottom.
    closed spec fn view(&self) -> Seq<Seq<Cell>> {
        self.grid@
    }
}

impl Board {
    /// The board is square and not empty.
    pub open spec fn wf(&self) -> bool {
        &&& self@.len() > 0
        &&& forall|r: int| 0 <= r < self@.len() ==> (#[trigger] self@[r]).len() == self@.len()
    }

    /// The number of rows, which is also the number of columns.
    pub open spec fn dim(&self) -> int {
        self@.len() as int
    }

    /// Whether `(r, c)` is a position of the board.
    pub open spec fn in_bounds(&self, r: int, c: int) -> bool {
        0 <= r < self.dim() && 0 <= c < self.dim()
    }

    /// A board of `size` by `size` cells, none of which lives or has lived.
    pub fn new(size: usize) -> (board: Self)
        requires
            size > 0,
        ensures
            board.wf(),
            board.dim() == size,
            forall|r: int, c: int|
                board.in_bounds(r, c) ==> #[trigger] board@[r][c] == (Cell {
                    is_alive: false,
                    was_alive: false,
                }),
    {
        let dead = || -> (cell: Cell)
            ensures
                cell == (Cell { is_alive: false, was_alive: false }),
            { Cell { is_alive: false, was_alive: false } };
        let grid = Grid::new(size, dead);
        assert forall|r: int, c: int| grid.in_bounds(r, c) implies #[trigger] grid@[r][c] == (Cell {
            is_alive: false,
            was_alive: false,
        }) by {
            assert(dead.ensures((), grid.at(r, c)));
        }
        Board { grid }
    }

    /// The number of rows, which is also the number of columns.
    pub fn size(&self) -> (size: usize)
        ensures
            size == self.dim(),
    {
        self.grid.size()
    }

    /// Flips the cell at `(x, y)` between living and dead. The edit counts as
    /// settled: the cell's backup takes the new state too.
    pub fn alive_cell_toggle(&mut self, x: usize, y: usize)
        requires
            old(self).wf(),
            old(self).in_bounds(x as int, y as int),
        ensures
            final(self).wf(),
            final(self)@ == old(self)@.update(
                x as int,
                old(self)@[x as int].update(
                    y as int,
                    Cell {
                        is_alive: !old(self)@[x as int][y as int].is_alive,
                        was_alive: !old(self)@[x as int][y as int].is_alive,
                    },
                ),
            ),
    {
        let alive = !self.grid.get(x, y).is_alive;
        self.grid.set(x, y, Cell { is_alive: alive, was_alive: alive });
    }

    /// Whether the cell at `(x, y)` lived at the last backup.
    pub fn was_alive(&self, x: usize, y: usize) -> (alive: bool)
        requires
            self.wf(),
            self.in_bounds(x as int, y as int),
        ensures
            alive == self@[x as int][y as int].was_alive,
    {
        self.grid.get(x, y).was_alive
    }

    /// Whether the cell at `(x, y)` lives now.
    pub fn is_alive(&self, x: usize, y: usize) -> (alive: bool)
        requires
            self.wf(),
            self.in_bounds(x as int, y as int),
        ensures
            alive == self@[x as int][y as int].is_alive,
    {
        self.grid.get(x, y).is_alive
    }

    /// Counts the cells around `(x, y)` that lived at the last backup.
    pub fn num_of_alive_neighbors(&self, x: usize, y: usize) -> (count: usize)
        requires
            self.wf(),
            self.in_bounds(x as int, y as int),
        ensures
            count == settled_neighbors(self@, x as int, y as int),
            count <= 8,
    {
        let n = self.grid.size();
        let x_lo = if x > 0 { x - 1 } else { x };
        let x_hi = if x + 1 < n { x + 1 } else { x };
        let y_lo = if y > 0 { y - 1 } else { y };
        let y_hi = if y + 1 < n { y + 1 } else { y };
        let ghost hit = |i: int, j: int| settled_at(self@, i, j);
        let mut noan: usize = 0;
        let mut i = x_lo;
        while i <= x_hi
            invariant
                self.wf(),
                n == self.dim(),
                x < n,
                y < n,
                hit == (|i: int, j: int| settled_at(self@, i, j)),
                x_lo == (if x > 0 { x - 1 } else { x as int }),
                x_hi == (if x + 1 < n { x + 1 } else { x as int }),
                y_lo == (if y > 0 { y - 1 } else { y as int }),
                y_hi == (if y + 1 < n { y + 1 } else { y as int }),
                x_lo <= i <= x_hi + 1,
                noan == count_in_rows(hit, x as int, y as int, i - (x - 1)),
            decreases x_hi + 1 - i,
        {
            let mut j = y_lo;
            while j <= y_hi
                invariant
                    self.wf(),
                    n == self.dim(),
                    x < n,
                    y < n,
                    hit == (|i: int, j: int| settled_at(self@, i, j)),
                    x_lo == (if x > 0 { x - 1 } else { x as int }),
                    x_hi == (if x + 1 < n { x + 1 } else { x as int }),
                    y_lo == (if y > 0 { y - 1 } else { y as int }),
                    y_hi == (if y + 1 < n { y + 1 } else { y as int }),
                    x_lo <= i <= x_hi,
                    y_lo <= j <= y_hi + 1,
                    noan == count_in_rows(hit, x as int, y as int, i - (x - 1)) + count_in_row(
                        hit,
                        x as int,
                        y as int,
                        i as int,
                        j - (y - 1),
                    ),
                decreases y_hi + 1 - j,
            {
                if !(i == x && j == y) && self.was_alive(i, j) {
                    noan += 1;
                }
                j += 1;
            }
            i += 1;
        }
        noan
    }

    /// Sets every cell's backup to its present state.
    pub fn backup(&mut self)
        requires
            old(self).wf(),
        ensures
            final(self).wf(),
            final(self)@ == backed_up(old(self)@),
    {
        let n = self.grid.size();
        let mut i: usize = 0;
        while i < n
            invariant
                self.wf(),
                old(self).wf(),
                n == self.dim(),
                self.dim() == old(self).dim(),
                i <= n,
                forall|r: int, c: int|
                    self.in_bounds(r, c) ==> #[trigger] self@[r][c] == (if r < i {
                        backed_up(old(self)@)[r][c]
                    } else {
                        old(self)@[r][c]
                    }),
            decreases n - i,
        {
            let mut j: usize = 0;
            while j < n
                invariant
                    self.wf(),
                    old(self).wf(),
                    n == self.dim(),
                    self.dim() == old(self).dim(),
                    i < n,
                    j <= n,
                    forall|r: int, c: int|
                        self.in_bounds(r, c) ==> #[trigger] self@[r][c] == (if r < i || (r == i && c
                            < j) {
                            backed_up(old(self)@)[r][c]
                        } else {
                            old(self)@[r][c]
                        }),
                decreases n - j,
            {
                let alive = self.grid.get(i, j).is_alive;
                self.grid.set(i, j, Cell { is_alive: alive, was_alive: alive });
                j += 1;
            }
            i += 1;
        }
        assert(self@ =~~= backed_up(old(self)@));
    }

    /// Advances the board by one generation. Every cell is judged against the
    /// board as it stood before the call, never against a neighbor's new state.
    pub fn update(&mut self)
        requires
            old(self).wf(),
        ensures
            final(self).wf(),
            final(self)@ == next_generation(old(self)@),
    {
        self.backup();
        let n = self.grid.size();
        let mut i: usize = 0;
        while i < n
            invariant
                self.wf(),
                old(self).wf(),
                n == self.dim(),
                self.dim() == old(self).dim(),
                i <= n,
                forall|r: int, c: int|
                    self.in_bounds(r, c) ==> #[trigger] self@[r][c] == (if r < i {
                        next_generation(old(self)@)[r][c]
                    } else {
                        backed_up(old(self)@)[r][c]
                    }),
            decreases n - i,
        {
            let mut j: usize = 0;
            while j < n
                invariant
                    self.wf(),
                    old(self).wf(),
                    n == self.dim(),
                    self.dim() == old(self).dim(),
                    i < n,
                    j <= n,
                    forall|r: int, c: int|
                        self.in_bounds(r, c) ==> #[trigger] self@[r][c] == (if r < i || (r == i && c
                            < j) {
                            next_generation(old(self)@)[r][c]
                        } else {
                            backed_up(old(self)@)[r][c]
                        }),
                decreases n - j,
            {
                let noan = self.num_of_alive_neighbors(i, j);
                proof {
                    Self::lemma_settled_is_former(self@, old(self)@, i as int, j as int);
                }
                let cell = *self.grid.get(i, j);
                let alive = noan == 3 || (noan == 2 && cell.is_alive);
                self.grid.set(i, j, Cell { is_alive: alive, was_alive: cell.was_alive });
                j += 1;
            }
            i += 1;
        }
        assert(self@ =~~= next_generation(old(self)@));
    }

    /// On a board whose backups all hold what lived in `former`, the backed-up
    /// neighbors of a cell are the neighbors that lived in `former`.
    proof fn lemma_settled_is_former(cells: Seq<Seq<Cell>>, former: Seq<Seq<Cell>>, r: int, c: int)
        requires
            cells.len() == former.len(),
            forall|i: int| 0 <= i < cells.len() ==> (#[trigger] cells[i]).len() == cells.len(),
            forall|i: int| 0 <= i < former.len() ==> (#[trigger] former[i]).len() == former.len(),
            forall|i: int, j: int|
                0 <= i < cells.len() && 0 <= j < cells.len() ==> (#[trigger] cells[i][j]).was_alive
                    == former[i][j].is_alive,
        ensures
            settled_neighbors(cells, r, c) == alive_neighbors(former, r, c),
    {
        assert forall|i: int, j: int| settled_at(cells, i, j) == alive_at(former, i, j) by {
            if 0 <= i < cells.len() && 0 <= j < cells.len() {
                assert(cells[i][j].was_alive == former[i][j].is_alive);
            }
        }
    }
}

} // verus!
