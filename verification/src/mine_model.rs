//! The mathematical model of the minefield: what is hidden, where the bombs
//! lie, and how far a reveal cascades.

use crate::grid::{adjacent, count_around, lists};
use vstd::prelude::*;
use vstd::set_lib::lemma_set_subset_finite;

verus! {

/// One cell of the minefield.
#[derive(Clone, Copy, Debug, PartialEq, Eq, Structural)]
pub struct MineCell {
    pub is_bomb: bool,
    pub is_visible: bool,
    pub is_marked: bool,
}

/// The field is square and not empty.
pub open spec fn square(cells: Seq<Seq<MineCell>>) -> bool {
    &&& cells.len() > 0
    &&& forall|r: int| 0 <= r < cells.len() ==> (#[trigger] cells[r]).len() == cells.len()
}

/// Whether `(r, c)` is a position of the field.
pub open spec fn on_field(cells: Seq<Seq<MineCell>>, r: int, c: int) -> bool {
    0 <= r < cells.len() && 0 <= c < cells[r].len()
}

/// Whether the field has a bomb at `(r, c)`.
pub open spec fn bomb_at(cells: Seq<Seq<MineCell>>, r: int, c: int) -> bool {
    on_field(cells, r, c) && cells[r][c].is_bomb
}

/// Whether the field has a cell at `(r, c)` that has not been revealed.
pub open spec fn hidden_at(cells: Seq<Seq<MineCell>>, r: int, c: int) -> bool {
    on_field(cells, r, c) && !cells[r][c].is_visible
}

/// The positions of the bombs.
pub open spec fn bomb_cells(cells: Seq<Seq<MineCell>>) -> Set<(int, int)> {
    Set::new(|p: (int, int)| bomb_at(cells, p.0, p.1))
}

/// The positions that have not been revealed.
pub open spec fn hidden_cells(cells: Seq<Seq<MineCell>>) -> Set<(int, int)> {
    Set::new(|p: (int, int)| hidden_at(cells, p.0, p.1))
}

/// The hidden positions that come before `(i, j)` when the field is read row
/// by row.
pub open spec fn hidden_before(cells: Seq<Seq<MineCell>>, i: int, j: int) -> Set<(int, int)> {
    Set::new(|p: (int, int)| hidden_at(cells, p.0, p.1) && (p.0 < i || (p.0 == i && p.1 < j)))
}

/// The number of bombs around `(r, c)`.
pub open spec fn adjacent_bombs(cells: Seq<Seq<MineCell>>, r: int, c: int) -> int {
    count_around(|i: int, j: int| bomb_at(cells, i, j), r, c)
}

/// Whether a reveal of `(r, c)` goes on to its neighbors: the cell is no bomb
/// and no bomb touches it.
pub open spec fn spreads(cells: Seq<Seq<MineCell>>, r: int, c: int) -> bool {
    on_field(cells, r, c) && !cells[r][c].is_bomb && adjacent_bombs(cells, r, c) == 0
}

/// Whether a cascade can run along `path`: every position on it is hidden, and
/// every position but the last spreads to the one that follows it.
pub open spec fn cascade_path(cells: Seq<Seq<MineCell>>, path: Seq<(int, int)>) -> bool {
    &&& path.len() > 0
    &&& forall|k: int| 0 <= k < path.len() ==> hidden_at(cells, (#[trigger] path[k]).0, path[k].1)
    &&& forall|k: int|
        0 <= k < path.len() - 1 ==> {
            &&& spreads(cells, (#[trigger] path[k]).0, path[k].1)
            &&& adjacent(path[k].0, path[k].1, path[k + 1].0, path[k + 1].1)
        }
}

/// Whether a reveal of `(r0, c0)` makes `(r, c)` visible: some cascade path
/// leads from the one to the other.
pub open spec fn cascade_reaches(cells: Seq<Seq<MineCell>>, r0: int, c0: int, r: int, c: int) -> bool {
    exists|path: Seq<(int, int)>|
        #[trigger] cascade_path(cells, path) && path[0] == (r0, c0) && path.last() == (r, c)
}

/// The field after a reveal of `(r, c)`: what the cascade reaches is visible,
/// and nothing else has changed.
pub open spec fn revealed(cells: Seq<Seq<MineCell>>, r: int, c: int) -> Seq<Seq<MineCell>> {
    Seq::new(
        cells.len(),
        |i: int|
            Seq::new(
                cells[i].len(),
                |j: int|
                    MineCell {
                        is_bomb: cells[i][j].is_bomb,
                        is_visible: cells[i][j].is_visible || cascade_reaches(cells, r, c, i, j),
                        is_marked: cells[i][j].is_marked,
                    },
            ),
    )
}

/// The field after the mark at `(r, c)` was toggled: a hidden cell's mark is
/// flipped, a visible cell stays as it is.
pub open spec fn mark_toggled(cells: Seq<Seq<MineCell>>, r: int, c: int) -> Seq<Seq<MineCell>> {
    if hidden_at(cells, r, c) {
        cells.update(
            r,
            cells[r].update(
                c,
                MineCell {
                    is_bomb: cells[r][c].is_bomb,
                    is_visible: cells[r][c].is_visible,
                    is_marked: !cells[r][c].is_marked,
                },
            ),
        )
    } else {
        cells
    }
}

/// Whether `now` is `before` with more of it revealed: the same shape, bombs
/// and marks, and every cell visible that was visible.
pub open spec fn only_revealed(before: Seq<Seq<MineCell>>, now: Seq<Seq<MineCell>>) -> bool {
    &&& now.len() == before.len()
    &&& forall|i: int| 0 <= i < before.len() ==> (#[trigger] now[i]).len() == before[i].len()
    &&& forall|i: int, j: int|
        on_field(before, i, j) ==> {
            &&& (#[trigger] now[i][j]).is_bomb == before[i][j].is_bomb
            &&& now[i][j].is_marked == before[i][j].is_marked
            &&& before[i][j].is_visible ==> now[i][j].is_visible
        }
}

/// Whether everything that `now` shows and `before` hid lies within the
/// cascade that a reveal of `(r, c)` sets off in `before`.
pub open spec fn within_cascade(
    before: Seq<Seq<MineCell>>,
    now: Seq<Seq<MineCell>>,
    r: int,
    c: int,
) -> bool {
    forall|i: int, j: int|
        on_field(before, i, j) && (#[trigger] now[i][j]).is_visible ==> before[i][j].is_visible
            || cascade_reaches(before, r, c, i, j)
}

/// Whether the cascade has gone as far as it can but for the positions in
/// `pending`: around each spreading cell that `now` shows and `before` hid,
/// every cell is visible or pending.
pub open spec fn cascade_done_but(
    before: Seq<Seq<MineCell>>,
    now: Seq<Seq<MineCell>>,
    pending: Seq<(usize, usize)>,
) -> bool {
    forall|i: int, j: int, a: int, b: int|
        hidden_at(before, i, j) && now[i][j].is_visible && spreads(before, i, j) && #[trigger] adjacent(
            i,
            j,
            a,
            b,
        ) && on_field(before, a, b) ==> now[a][b].is_visible || lists(pending, a, b)
}

/// The positions of row `r` in columns below `k`.
pub open spec fn row_positions(r: int, k: int) -> Set<(int, int)> {
    Set::new(|p: (int, int)| p.0 == r && 0 <= p.1 < k)
}

/// The positions of a field of `n` columns in rows below `m`.
pub open spec fn positions(n: int, m: int) -> Set<(int, int)> {
    Set::new(|p: (int, int)| 0 <= p.0 < m && 0 <= p.1 < n)
}

/// A row holds finitely many positions.
/// A row holds finitely many positions.
pub proof fn lemma_row_positions_finite(r: int, k: int)
    ensures
        row_positions(r, k).finite(),
    decreases k,
{
    if k <= 0 {
        assert(row_positions(r, k) =~= Set::<(int, int)>::empty());
    } else {
        lemma_row_positions_finite(r, k - 1);
        assert(row_positions(r, k) =~= row_positions(r, k - 1).insert((r, k - 1)));
    }
}

/// A field holds finitely many positions.
/// A field holds finitely many positions.
pub proof fn lemma_positions_finite(n: int, m: int)
    ensures
        positions(n, m).finite(),
    decreases m,
{
    if m <= 0 {
        assert(positions(n, m) =~= Set::<(int, int)>::empty());
    } else {
        lemma_positions_finite(n, m - 1);
        lemma_row_positions_finite(m - 1, n);
        assert(positions(n, m) =~= positions(n, m - 1).union(row_positions(m - 1, n)));
    }
}

/// A square field has finitely many hidden cells and finitely many bombs.
pub proof fn lemma_field_finite(cells: Seq<Seq<MineCell>>)
    requires
        square(cells),
    ensures
        hidden_cells(cells).finite(),
        bomb_cells(cells).finite(),
{
    let n = cells.len() as int;
    lemma_positions_finite(n, n);
    assert(hidden_cells(cells).subset_of(positions(n, n)));
    assert(bomb_cells(cells).subset_of(positions(n, n)));
    lemma_set_subset_finite(positions(n, n), hidden_cells(cells));
    lemma_set_subset_finite(positions(n, n), bomb_cells(cells));
}

/// A reveal of a hidden cell reaches that cell.
pub proof fn lemma_cascade_start(cells: Seq<Seq<MineCell>>, r: int, c: int)
    requires
        hidden_at(cells, r, c),
    ensures
        cascade_reaches(cells, r, c, r, c),
{
    let path = seq![(r, c)];
    assert(cascade_path(cells, path));
}

/// A cascade that reaches a spreading cell reaches each hidden cell that
/// touches it.
pub proof fn lemma_cascade_step(
    cells: Seq<Seq<MineCell>>,
    r0: int,
    c0: int,
    r: int,
    c: int,
    i: int,
    j: int,
)
    requires
        cascade_reaches(cells, r0, c0, r, c),
        spreads(cells, r, c),
        adjacent(r, c, i, j),
        hidden_at(cells, i, j),
    ensures
        cascade_reaches(cells, r0, c0, i, j),
{
    let path = choose|path: Seq<(int, int)>|
        #[trigger] cascade_path(cells, path) && path[0] == (r0, c0) && path.last() == (r, c);
    let longer = path.push((i, j));
    assert forall|k: int| 0 <= k < longer.len() implies hidden_at(
        cells,
        (#[trigger] longer[k]).0,
        longer[k].1,
    ) by {
        if k < path.len() {
            assert(longer[k] == path[k]);
        }
    }
    assert forall|k: int| 0 <= k < longer.len() - 1 implies {
        &&& spreads(cells, (#[trigger] longer[k]).0, longer[k].1)
        &&& adjacent(longer[k].0, longer[k].1, longer[k + 1].0, longer[k + 1].1)
    } by {
        assert(longer[k] == path[k]);
        if k < path.len() - 1 {
            assert(longer[k + 1] == path[k + 1]);
        }
    }
    assert(cascade_path(cells, longer));
    assert(longer[0] == path[0]);
}

/// Fields with the same bombs have the same number of bombs around a cell.
pub proof fn lemma_same_bombs_around(
    before: Seq<Seq<MineCell>>,
    now: Seq<Seq<MineCell>>,
    r: int,
    c: int,
)
    requires
        only_revealed(before, now),
    ensures
        adjacent_bombs(now, r, c) == adjacent_bombs(before, r, c),
{
    assert forall|i: int, j: int| bomb_at(now, i, j) == bomb_at(before, i, j) by {
        if on_field(before, i, j) {
            assert(now[i][j].is_bomb == before[i][j].is_bomb);
        }
    }
}

/// Once a cascade from `(r, c)` has gone as far as it can, every position on a
/// cascade path from `(r, c)` is visible.
pub proof fn lemma_cascade_covered(
    before: Seq<Seq<MineCell>>,
    now: Seq<Seq<MineCell>>,
    path: Seq<(int, int)>,
    k: int,
)
    requires
        only_revealed(before, now),
        cascade_done_but(before, now, Seq::empty()),
        cascade_path(before, path),
        now[path[0].0][path[0].1].is_visible,
        0 <= k < path.len(),
    ensures
        now[path[k].0][path[k].1].is_visible,
    decreases k,
{
    if k > 0 {
        lemma_cascade_covered(before, now, path, k - 1);
        let p = path[k - 1];
        let q = path[k];
        assert(spreads(before, p.0, p.1));
        assert(adjacent(p.0, p.1, q.0, q.1));
        assert(hidden_at(before, q.0, q.1));
    }
}

} // verus!
