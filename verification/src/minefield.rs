//! The mine-sweeping puzzle: bombs on a square field, reveal with cascade,
//! marks, and the test for a win.

use crate::grid::{
    count_in_row, count_in_rows, lemma_lists_grow, lemma_lists_joined, lists, Grid,
};
use crate::mine_model::{
    adjacent_bombs, bomb_at, bomb_cells, cascade_done_but, cascade_path, cascade_reaches,
    hidden_at, hidden_before, hidden_cells, lemma_cascade_covered, lemma_cascade_start, lemma_cascade_step,
    lemma_field_finite, lemma_same_bombs_around, mark_toggled, on_field, only_revealed, revealed,
    square, within_cascade, MineCell,
};
use crate::sampling::sample_positions;
use vstd::prelude::*;
use vstd::set_lib::lemma_len_subset;

verus! {

/// A minefield: a square field of cells and the number of bombs laid on it.
pub struct Minefield {
    grid: Grid<MineCell>,
    bomb_count: usize,
}

impl View for Minefield {
    type V = Seq<Seq<MineCell>>;

    /// The rows of the field, top to bottom.
    closed spec fn view(&self) -> Seq<Seq<MineCell>> {
        self.grid@
    }
}

impl Minefield {
    /// The number of bombs that the field was made with.
    pub closed spec fn bombs(&self) -> int {
        self.bomb_count as int
    }

    /// The field is square and not empty, and holds as many bombs as it says.
    pub open spec fn wf(&self) -> bool {
        &&& square(self@)
        &&& bomb_cells(self@).len() == self.bombs()
    }

    /// The number of rows, which is also the number of columns.
    pub open spec fn dim(&self) -> int {
        self@.len() as int
    }

    /// Whether `(r, c)` is a position of the field.
    pub open spec fn in_bounds(&self, r: int, c: int) -> bool {
        0 <= r < self.dim() && 0 <= c < self.dim()
    }

    /// A field of `size` by `size` hidden, unmarked cells, `bomb_count` of which
    /// hold a bomb. The bombs lie on positions drawn at random.
    pub fn new(size: usize, bomb_count: usize) -> (field: Self)
        requires
            size > 0,
            bomb_count <= size * size,
        ensures
            field.wf(),
            field.dim() == size,
            field.bombs() == bomb_count,
            forall|r: int, c: int|
                field.in_bounds(r, c) ==> !(#[trigger] field@[r][c]).is_visible
                    && !field@[r][c].is_marked,
    {
        let bombs = sample_positions(size, bomb_count);
        Self::with_bombs(size, &bombs)
    }

    /// A field of `size` by `size` hidden, unmarked cells with a bomb at each of
    /// the positions that `bombs` lists. A position listed twice is one bomb.
    pub fn with_bombs(size: usize, bombs: &Vec<(usize, usize)>) -> (field: Self)
        requires
            size > 0,
            forall|k: int| 0 <= k < bombs@.len() ==> (#[trigger] bombs@[k]).0 < size && bombs@[k].1 < size,
        ensures
            field.wf(),
            field.dim() == size,
            forall|r: int, c: int|
                field.in_bounds(r, c) ==> #[trigger] field@[r][c] == (MineCell {
                    is_bomb: lists(bombs@, r, c),
                    is_visible: false,
                    is_marked: false,
                }),
            bombs@.no_duplicates() ==> field.bombs() == bombs@.len(),
    {
        let blank = || -> (cell: MineCell)
            ensures
                cell == (MineCell { is_bomb: false, is_visible: false, is_marked: false }),
            { MineCell { is_bomb: false, is_visible: false, is_marked: false } };
        let mut grid = Grid::new(size, blank);
        let mut laid: usize = 0;
        let mut k: usize = 0;
        proof {
            assert forall|r: int, c: int| grid.in_bounds(r, c) implies #[trigger] grid@[r][c] == (MineCell {
                is_bomb: lists(bombs@.subrange(0, 0), r, c),
                is_visible: false,
                is_marked: false,
            }) by {
                assert(blank.ensures((), grid.at(r, c)));
            }
            assert(bomb_cells(grid@) =~= Set::<(int, int)>::empty());
        }
        while k < bombs.len()
            invariant
                k <= bombs@.len(),
                laid <= k,
                grid.wf(),
                grid.dim() == size,
                forall|m: int|
                    0 <= m < bombs@.len() ==> (#[trigger] bombs@[m]).0 < size && bombs@[m].1 < size,
                forall|r: int, c: int|
                    grid.in_bounds(r, c) ==> #[trigger] grid@[r][c] == (MineCell {
                        is_bomb: lists(bombs@.subrange(0, k as int), r, c),
                        is_visible: false,
                        is_marked: false,
                    }),
                bomb_cells(grid@).finite(),
                bomb_cells(grid@).len() == laid,
                bombs@.no_duplicates() ==> laid == k,
            decreases bombs@.len() - k,
        {
            let (i, j) = bombs[k];
            let ghost before = grid@;
            let fresh = !grid.get(i, j).is_bomb;
            grid.set(i, j, MineCell { is_bomb: true, is_visible: false, is_marked: false });
            proof {
                assert forall|r: int, c: int| grid.in_bounds(r, c) implies #[trigger] grid@[r][c] == (MineCell {
                    is_bomb: lists(bombs@.subrange(0, k + 1), r, c),
                    is_visible: false,
                    is_marked: false,
                }) by {
                    lemma_lists_grow(bombs@, k as int, r, c);
                }
                assert(bomb_cells(grid@) =~= bomb_cells(before).insert((i as int, j as int)));
                if bombs@.no_duplicates() && !fresh {
                    let short = bombs@.subrange(0, k as int);
                    let m = choose|m: int|
                        0 <= m < short.len() && (#[trigger] short[m]).0 == i && short[m].1 == j;
                    assert(bombs@[m] == short[m]);
                    assert(bombs@[m] == bombs@[k as int]);
                }
            }
            if fresh {
                laid += 1;
            }
            k += 1;
        }
        assert(bombs@.subrange(0, k as int) =~= bombs@);
        Minefield { grid, bomb_count: laid }
    }

    /// The number of rows, which is also the number of columns.
    pub fn size(&self) -> (size: usize)
        ensures
            size == self.dim(),
    {
        self.grid.size()
    }

    /// The number of bombs that the field was made with.
    pub fn bomb_count(&self) -> (count: usize)
        ensures
            count == self.bombs(),
    {
        self.bomb_count
    }

    /// Whether the cell at `(r, c)` holds a bomb.
    pub fn is_bomb(&self, r: usize, c: usize) -> (bomb: bool)
        requires
            self.wf(),
            self.in_bounds(r as int, c as int),
        ensures
            bomb == self@[r as int][c as int].is_bomb,
    {
        self.grid.get(r, c).is_bomb
    }

    /// Whether the cell at `(r, c)` has been revealed.
    pub fn is_visible(&self, r: usize, c: usize) -> (visible: bool)
        requires
            self.wf(),
            self.in_bounds(r as int, c as int),
        ensures
            visible == self@[r as int][c as int].is_visible,
    {
        self.grid.get(r, c).is_visible
    }

    /// Whether the cell at `(r, c)` carries a mark.
    pub fn is_marked(&self, r: usize, c: usize) -> (marked: bool)
        requires
            self.wf(),
            self.in_bounds(r as int, c as int),
        ensures
            marked == self@[r as int][c as int].is_marked,
    {
        self.grid.get(r, c).is_marked
    }

    /// Counts the bombs around `(r, c)`.
    pub fn neighbor_bomb_count(&self, r: usize, c: usize) -> (count: usize)
        requires
            self.wf(),
            self.in_bounds(r as int, c as int),
        ensures
            count == adjacent_bombs(self@, r as int, c as int),
            count <= 8,
    {
        let n = self.grid.size();
        let r_lo = if r > 0 { r - 1 } else { r };
        let r_hi = if r + 1 < n { r + 1 } else { r };
        let c_lo = if c > 0 { c - 1 } else { c };
        let c_hi = if c + 1 < n { c + 1 } else { c };
        let ghost hit = |i: int, j: int| bomb_at(self@, i, j);
        let mut count: usize = 0;
        let mut i = r_lo;
        while i <= r_hi
            invariant
                self.wf(),
                n == self.dim(),
                r < n,
                c < n,
                hit == (|i: int, j: int| bomb_at(self@, i, j)),
                r_lo == (if r > 0 { r - 1 } else { r as int }),
                r_hi == (if r + 1 < n { r + 1 } else { r as int }),
                c_lo == (if c > 0 { c - 1 } else { c as int }),
                c_hi == (if c + 1 < n { c + 1 } else { c as int }),
                r_lo <= i <= r_hi + 1,
                count == count_in_rows(hit, r as int, c as int, i - (r - 1)),
            decreases r_hi + 1 - i,
        {
            let mut j = c_lo;
            while j <= c_hi
                invariant
                    self.wf(),
                    n == self.dim(),
                    r < n,
                    c < n,
                    hit == (|i: int, j: int| bomb_at(self@, i, j)),
                    r_lo == (if r > 0 { r - 1 } else { r as int }),
                    r_hi == (if r + 1 < n { r + 1 } else { r as int }),
                    c_lo == (if c > 0 { c - 1 } else { c as int }),
                    c_hi == (if c + 1 < n { c + 1 } else { c as int }),
                    r_lo <= i <= r_hi,
                    c_lo <= j <= c_hi + 1,
                    count == count_in_rows(hit, r as int, c as int, i - (r - 1)) + count_in_row(
                        hit,
                        r as int,
                        c as int,
                        i as int,
                        j - (c - 1),
                    ),
                decreases c_hi + 1 - j,
            {
                if !(i == r && j == c) && self.is_bomb(i, j) {
                    count += 1;
                }
                j += 1;
            }
            i += 1;
        }
        count
    }

    /// Reveals the cell at `(r, c)`. A cell that is visible already stays as it
    /// is. A hidden cell becomes visible; if it is no bomb and no bomb touches
    /// it, the cells around it are revealed in the same way, and so on. Bombs
    /// and marks stay as they are.
    pub fn reveal_cell(&mut self, r: usize, c: usize)
        requires
            old(self).wf(),
            old(self).in_bounds(r as int, c as int),
        ensures
            final(self).wf(),
            final(self).bombs() == old(self).bombs(),
            final(self)@ == revealed(old(self)@, r as int, c as int),
    {
        let mut pending: Vec<(usize, usize)> = Vec::new();
        pending.push((r, c));
        proof {
            lemma_field_finite(self@);
            if hidden_at(self@, r as int, c as int) {
                lemma_cascade_start(self@, r as int, c as int);
            }
            assert(pending@[0] == (r, c));
        }
        while pending.len() > 0
            invariant
                old(self).wf(),
                self.wf(),
                self.bombs() == old(self).bombs(),
                old(self).in_bounds(r as int, c as int),
                only_revealed(old(self)@, self@),
                within_cascade(old(self)@, self@, r as int, c as int),
                cascade_done_but(old(self)@, self@, pending@),
                self@[r as int][c as int].is_visible || lists(pending@, r as int, c as int),
                forall|k: int|
                    0 <= k < pending@.len() ==> {
                        &&& on_field(old(self)@, (#[trigger] pending@[k]).0 as int, pending@[k].1 as int)
                        &&& old(self)@[pending@[k].0 as int][pending@[k].1 as int].is_visible
                            || cascade_reaches(
                            old(self)@,
                            r as int,
                            c as int,
                            pending@[k].0 as int,
                            pending@[k].1 as int,
                        )
                    },
                hidden_cells(self@).finite(),
            decreases hidden_cells(self@).len(), pending@.len(),
        {
            let ghost waiting = pending@;
            let ghost shown = self@;
            let last = pending.pop();
            let (i, j) = last.unwrap();
            proof {
                assert(waiting.subrange(0, waiting.len() as int) =~= waiting);
                assert forall|a: int, b: int| lists(waiting, a, b) implies lists(pending@, a, b) || (a
                    == i && b == j) by {
                    lemma_lists_grow(waiting, waiting.len() - 1, a, b);
                }
                assert forall|k: int| 0 <= k < pending@.len() implies pending@[k] == waiting[k] by {}
            }
            let cell = *self.grid.get(i, j);
            if !cell.is_visible {
                self.grid.set(
                    i,
                    j,
                    MineCell { is_bomb: cell.is_bomb, is_visible: true, is_marked: cell.is_marked },
                );
                proof {
                    assert(bomb_cells(self@) =~= bomb_cells(shown));
                    assert(hidden_cells(self@) =~= hidden_cells(shown).remove((i as int, j as int)));
                }
                let spreading = !cell.is_bomb && self.neighbor_bomb_count(i, j) == 0;
                proof {
                    lemma_same_bombs_around(old(self)@, self@, i as int, j as int);
                }
                if spreading {
                    let mut around = self.grid.neighbors_of(i, j);
                    let ghost waiting_still = pending@;
                    let ghost ring = around@;
                    pending.append(&mut around);
                    proof {
                        assert forall|a: int, b: int|
                            lists(pending@, a, b) == (lists(waiting_still, a, b) || lists(
                                ring,
                                a,
                                b,
                            )) by {
                            lemma_lists_joined(waiting_still, ring, a, b);
                        }
                        assert forall|k: int| 0 <= k < pending@.len() implies {
                            &&& on_field(
                                old(self)@,
                                (#[trigger] pending@[k]).0 as int,
                                pending@[k].1 as int,
                            )
                            &&& old(self)@[pending@[k].0 as int][pending@[k].1 as int].is_visible
                                || cascade_reaches(
                                old(self)@,
                                r as int,
                                c as int,
                                pending@[k].0 as int,
                                pending@[k].1 as int,
                            )
                        } by {
                            if k < waiting_still.len() {
                                assert(pending@[k] == waiting_still[k]);
                            } else {
                                let m = k - waiting_still.len();
                                assert(pending@[k] == ring[m]);
                                let a = ring[m].0 as int;
                                let b = ring[m].1 as int;
                                if !old(self)@[a][b].is_visible {
                                    lemma_cascade_step(
                                        old(self)@,
                                        r as int,
                                        c as int,
                                        i as int,
                                        j as int,
                                        a,
                                        b,
                                    );
                                }
                            }
                        }
                    }
                }
            }
        }
        proof {
            let before = old(self)@;
            let now = self@;
            assert(pending@ =~= Seq::<(usize, usize)>::empty());
            assert forall|i: int, j: int|
                on_field(before, i, j) && cascade_reaches(
                    before,
                    r as int,
                    c as int,
                    i,
                    j,
                ) implies now[i][j].is_visible by {
                let path = choose|path: Seq<(int, int)>|
                    #[trigger] cascade_path(before, path) && path[0] == (r as int, c as int)
                        && path.last() == (i, j);
                lemma_cascade_covered(before, now, path, path.len() - 1);
            }
            assert(now =~~= revealed(before, r as int, c as int));
        }
    }

    /// Whether the game is won: as many cells are hidden as there are bombs.
    pub fn check_win(&self) -> (won: bool)
        requires
            self.wf(),
        ensures
            won == (hidden_cells(self@).len() == self.bombs()),
    {
        let n = self.grid.size();
        let mut hidden: usize = 0;
        let mut i: usize = 0;
        proof {
            lemma_field_finite(self@);
            assert(hidden_before(self@, 0, 0) =~= Set::<(int, int)>::empty());
        }
        while i < n
            invariant
                self.wf(),
                n == self.dim(),
                i <= n,
                hidden_cells(self@).finite(),
                hidden_before(self@, i as int, 0).finite(),
                hidden == hidden_before(self@, i as int, 0).len(),
                hidden <= self.bomb_count,
            decreases n - i,
        {
            let mut j: usize = 0;
            while j < n
                invariant
                    self.wf(),
                    n == self.dim(),
                    i < n,
                    j <= n,
                    hidden_cells(self@).finite(),
                    hidden_before(self@, i as int, j as int).finite(),
                    hidden == hidden_before(self@, i as int, j as int).len(),
                    hidden <= self.bomb_count,
                decreases n - j,
            {
                if !self.grid.get(i, j).is_visible {
                    proof {
                        assert(hidden_before(self@, i as int, j + 1) =~= hidden_before(
                            self@,
                            i as int,
                            j as int,
                        ).insert((i as int, j as int)));
                    }
                    if hidden == self.bomb_count {
                        proof {
                            lemma_len_subset(hidden_before(self@, i as int, j + 1), hidden_cells(self@));
                        }
                        return false;
                    }
                    hidden += 1;
                } else {
                    assert(hidden_before(self@, i as int, j + 1) =~= hidden_before(
                        self@,
                        i as int,
                        j as int,
                    ));
                }
                j += 1;
            }
            assert(hidden_before(self@, i + 1, 0) =~= hidden_before(self@, i as int, n as int));
            i += 1;
        }
        assert(hidden_before(self@, n as int, 0) =~= hidden_cells(self@));
        hidden == self.bomb_count
    }

    /// Flips the mark on the cell at `(r, c)` if the cell is hidden, and does
    /// nothing if it has been revealed.
    pub fn toggle_mark(&mut self, r: usize, c: usize)
        requires
            old(self).wf(),
            old(self).in_bounds(r as int, c as int),
        ensures
            final(self).wf(),
            final(self).bombs() == old(self).bombs(),
            final(self)@ == mark_toggled(old(self)@, r as int, c as int),
    {
        let cell = *self.grid.get(r, c);
        if !cell.is_visible {
            self.grid.set(
                r,
                c,
                MineCell { is_bomb: cell.is_bomb, is_visible: cell.is_visible, is_marked: !cell.is_marked },
            );
            assert(bomb_cells(self@) =~= bomb_cells(old(self)@));
        }
    }
}

} // verus!
