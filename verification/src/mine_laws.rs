//! What holds of every minefield: how a reveal behaves when repeated, what a
//! cascade can and cannot reach, how marks toggle, and what a win means.

use crate::grid::adjacent;
use crate::mine_model::{
    adjacent_bombs, bomb_at, bomb_cells, cascade_path, cascade_reaches, hidden_at, hidden_cells,
    lemma_cascade_start, lemma_cascade_step, lemma_field_finite, mark_toggled, on_field, revealed, spreads, square,
    MineCell,
};
use vstd::prelude::*;
use vstd::set_lib::lemma_subset_equality;

verus! {

/// A reveal of a visible cell changes nothing.
pub proof fn lemma_reveal_visible_is_noop(cells: Seq<Seq<MineCell>>, r: int, c: int)
    requires
        !hidden_at(cells, r, c),
    ensures
        revealed(cells, r, c) == cells,
{
    assert forall|i: int, j: int| !cascade_reaches(cells, r, c, i, j) by {
        if cascade_reaches(cells, r, c, i, j) {
            let path = choose|path: Seq<(int, int)>|
                #[trigger] cascade_path(cells, path) && path[0] == (r, c) && path.last() == (i, j);
            assert(hidden_at(cells, path[0].0, path[0].1));
        }
    }
    assert(revealed(cells, r, c) =~~= cells);
}

/// Revealing the same cell twice leaves the field as revealing it once does.
pub proof fn lemma_reveal_idempotent(cells: Seq<Seq<MineCell>>, r: int, c: int)
    ensures
        revealed(revealed(cells, r, c), r, c) == revealed(cells, r, c),
{
    let once = revealed(cells, r, c);
    if hidden_at(cells, r, c) {
        lemma_cascade_start(cells, r, c);
    }
    lemma_reveal_visible_is_noop(once, r, c);
}

/// A cell that a bomb touches has at least one bomb around it.
pub proof fn lemma_touching_bomb_counts(cells: Seq<Seq<MineCell>>, r: int, c: int, i: int, j: int)
    requires
        adjacent(r, c, i, j),
        bomb_at(cells, i, j),
    ensures
        adjacent_bombs(cells, r, c) >= 1,
{
}

/// A cascade shows no bomb: the only bomb that a reveal can make visible is
/// one on the very cell that was revealed.
pub proof fn lemma_cascade_spares_bombs(cells: Seq<Seq<MineCell>>, r: int, c: int, i: int, j: int)
    requires
        cascade_reaches(cells, r, c, i, j),
        bomb_at(cells, i, j),
    ensures
        i == r && j == c,
{
    let path = choose|path: Seq<(int, int)>|
        #[trigger] cascade_path(cells, path) && path[0] == (r, c) && path.last() == (i, j);
    if path.len() >= 2 {
        let p = path[path.len() - 2];
        assert(spreads(cells, p.0, p.1));
        assert(adjacent(p.0, p.1, path[path.len() - 2 + 1].0, path[path.len() - 2 + 1].1));
        lemma_touching_bomb_counts(cells, p.0, p.1, i, j);
    }
}

/// A cascade ends on the ring around its spreading cells: whatever a reveal
/// reaches beyond the revealed cell itself touches a spreading cell that the
/// reveal reaches too.
pub proof fn lemma_cascade_frontier(cells: Seq<Seq<MineCell>>, r: int, c: int, i: int, j: int)
    requires
        cascade_reaches(cells, r, c, i, j),
        !(i == r && j == c),
    ensures
        exists|a: int, b: int|
            cascade_reaches(cells, r, c, a, b) && spreads(cells, a, b) && #[trigger] adjacent(
                a,
                b,
                i,
                j,
            ),
{
    let path = choose|path: Seq<(int, int)>|
        #[trigger] cascade_path(cells, path) && path[0] == (r, c) && path.last() == (i, j);
    assert(path.len() >= 2);
    let shorter = path.drop_last();
    let p = path[path.len() - 2];
    assert forall|k: int| 0 <= k < shorter.len() implies hidden_at(
        cells,
        (#[trigger] shorter[k]).0,
        shorter[k].1,
    ) by {
        assert(shorter[k] == path[k]);
    }
    assert forall|k: int| 0 <= k < shorter.len() - 1 implies {
        &&& spreads(cells, (#[trigger] shorter[k]).0, shorter[k].1)
        &&& adjacent(shorter[k].0, shorter[k].1, shorter[k + 1].0, shorter[k + 1].1)
    } by {
        assert(shorter[k] == path[k]);
        assert(shorter[k + 1] == path[k + 1]);
    }
    assert(cascade_path(cells, shorter));
    assert(cascade_reaches(cells, r, c, p.0, p.1));
    assert(adjacent(p.0, p.1, path[path.len() - 2 + 1].0, path[path.len() - 2 + 1].1));
}

/// Whether `path` is a chain of touching positions that all lie in `region`.
pub open spec fn chain_in(region: Set<(int, int)>, path: Seq<(int, int)>) -> bool {
    &&& path.len() > 0
    &&& forall|k: int| 0 <= k < path.len() ==> region.contains(#[trigger] path[k])
    &&& forall|k: int|
        0 <= k < path.len() - 1 ==> adjacent(
            (#[trigger] path[k]).0,
            path[k].1,
            path[k + 1].0,
            path[k + 1].1,
        )
}

/// Whether `region` is connected: a chain within it leads from each of its
/// positions to each other.
pub open spec fn connected(region: Set<(int, int)>) -> bool {
    forall|from: (int, int), to: (int, int)|
        region.contains(from) && region.contains(to) ==> exists|path: Seq<(int, int)>|
            #[trigger] chain_in(region, path) && path[0] == from && path.last() == to
}

/// Whether `region` is a region of hidden, spreading cells that is closed off:
/// no cell that touches it from outside spreads.
pub open spec fn closed_region(cells: Seq<Seq<MineCell>>, region: Set<(int, int)>) -> bool {
    &&& forall|z: (int, int)|
        #[trigger] region.contains(z) ==> hidden_at(cells, z.0, z.1) && spreads(cells, z.0, z.1)
    &&& forall|z: (int, int), a: int, b: int|
        #[trigger] region.contains(z) && #[trigger] adjacent(z.0, z.1, a, b) && on_field(cells, a, b)
            && !region.contains((a, b)) ==> !spreads(cells, a, b)
}

/// Whether `(i, j)` lies in `region` or touches it.
pub open spec fn in_or_on_ring(region: Set<(int, int)>, i: int, j: int) -> bool {
    region.contains((i, j)) || exists|z: (int, int)|
        #[trigger] region.contains(z) && adjacent(z.0, z.1, i, j)
}

/// A cascade that starts in a closed region stays in it until its last step.
proof fn lemma_path_stays_in_region(
    cells: Seq<Seq<MineCell>>,
    region: Set<(int, int)>,
    path: Seq<(int, int)>,
    k: int,
)
    requires
        closed_region(cells, region),
        cascade_path(cells, path),
        region.contains(path[0]),
        0 <= k < path.len() - 1,
    ensures
        region.contains(path[k]),
    decreases k,
{
    if k > 0 {
        lemma_path_stays_in_region(cells, region, path, k - 1);
        let z = path[k - 1];
        let p = path[k];
        assert(adjacent(z.0, z.1, path[k - 1 + 1].0, path[k - 1 + 1].1));
        assert(hidden_at(cells, p.0, p.1));
        assert(spreads(cells, p.0, p.1));
        assert(region.contains((p.0, p.1)));
    }
}

/// A reveal inside a connected, closed region of hidden spreading cells
/// reaches exactly the hidden cells of the region and of the ring around it.
pub proof fn lemma_reveal_fills_region(
    cells: Seq<Seq<MineCell>>,
    region: Set<(int, int)>,
    r: int,
    c: int,
    i: int,
    j: int,
)
    requires
        region.contains((r, c)),
        connected(region),
        closed_region(cells, region),
    ensures
        cascade_reaches(cells, r, c, i, j) <==> hidden_at(cells, i, j) && in_or_on_ring(region, i, j),
{
    if cascade_reaches(cells, r, c, i, j) {
        let path = choose|path: Seq<(int, int)>|
            #[trigger] cascade_path(cells, path) && path[0] == (r, c) && path.last() == (i, j);
        assert(hidden_at(cells, path[path.len() - 1].0, path[path.len() - 1].1));
        if path.len() >= 2 {
            lemma_path_stays_in_region(cells, region, path, path.len() - 2);
            let z = path[path.len() - 2];
            assert(adjacent(z.0, z.1, path[path.len() - 2 + 1].0, path[path.len() - 2 + 1].1));
            assert(region.contains(z) && adjacent(z.0, z.1, i, j));
        }
    }
    if hidden_at(cells, i, j) && in_or_on_ring(region, i, j) {
        if region.contains((i, j)) {
            lemma_region_reached(cells, region, r, c, i, j);
        } else {
            let z = choose|z: (int, int)| #[trigger] region.contains(z) && adjacent(z.0, z.1, i, j);
            lemma_region_reached(cells, region, r, c, z.0, z.1);
            lemma_cascade_step(cells, r, c, z.0, z.1, i, j);
        }
    }
}

/// A reveal inside a connected region of hidden spreading cells reaches every
/// cell of the region.
proof fn lemma_region_reached(
    cells: Seq<Seq<MineCell>>,
    region: Set<(int, int)>,
    r: int,
    c: int,
    i: int,
    j: int,
)
    requires
        region.contains((r, c)),
        region.contains((i, j)),
        connected(region),
        closed_region(cells, region),
    ensures
        cascade_reaches(cells, r, c, i, j),
{
    let path = choose|path: Seq<(int, int)>|
        #[trigger] chain_in(region, path) && path[0] == (r, c) && path.last() == (i, j);
    assert forall|k: int| 0 <= k < path.len() implies hidden_at(
        cells,
        (#[trigger] path[k]).0,
        path[k].1,
    ) && spreads(cells, path[k].0, path[k].1) by {
        assert(region.contains(path[k]));
    }
    assert(cascade_path(cells, path));
}

/// A reveal never hides a cell and never moves a bomb or a mark.
pub proof fn lemma_reveal_keeps(cells: Seq<Seq<MineCell>>, r: int, c: int, i: int, j: int)
    requires
        on_field(cells, i, j),
    ensures
        revealed(cells, r, c)[i][j].is_bomb == cells[i][j].is_bomb,
        revealed(cells, r, c)[i][j].is_marked == cells[i][j].is_marked,
        cells[i][j].is_visible ==> revealed(cells, r, c)[i][j].is_visible,
{
}

/// Toggling the mark of a visible cell changes nothing.
pub proof fn lemma_mark_needs_hidden(cells: Seq<Seq<MineCell>>, r: int, c: int)
    requires
        on_field(cells, r, c),
        cells[r][c].is_visible,
    ensures
        mark_toggled(cells, r, c) == cells,
{
}

/// Toggling the mark of a hidden cell flips that mark and nothing else, so
/// that toggling it twice restores the field.
pub proof fn lemma_mark_toggles(cells: Seq<Seq<MineCell>>, r: int, c: int)
    requires
        hidden_at(cells, r, c),
    ensures
        mark_toggled(cells, r, c)[r][c].is_marked == !cells[r][c].is_marked,
        mark_toggled(cells, r, c)[r][c].is_bomb == cells[r][c].is_bomb,
        mark_toggled(cells, r, c)[r][c].is_visible == cells[r][c].is_visible,
        forall|i: int, j: int|
            on_field(cells, i, j) && !(i == r && j == c) ==> #[trigger] mark_toggled(
                cells,
                r,
                c,
            )[i][j] == cells[i][j],
        mark_toggled(mark_toggled(cells, r, c), r, c) == cells,
{
    assert(mark_toggled(mark_toggled(cells, r, c), r, c) =~~= cells);
}

/// While no bomb is visible, as many cells are hidden as there are bombs
/// exactly when every cell without a bomb is visible.
pub proof fn lemma_win_means_cleared(cells: Seq<Seq<MineCell>>)
    requires
        square(cells),
        forall|i: int, j: int| bomb_at(cells, i, j) ==> #[trigger] hidden_at(cells, i, j),
    ensures
        hidden_cells(cells).len() == bomb_cells(cells).len() <==> (forall|i: int, j: int|
            on_field(cells, i, j) && !bomb_at(cells, i, j) ==> !#[trigger] hidden_at(cells, i, j)),
{
    lemma_field_finite(cells);
    let hidden = hidden_cells(cells);
    let bombs = bomb_cells(cells);
    assert(bombs.subset_of(hidden));
    if hidden.len() == bombs.len() {
        lemma_subset_equality(bombs, hidden);
        assert forall|i: int, j: int| on_field(cells, i, j) && !bomb_at(cells, i, j) implies !#[trigger] hidden_at(
            cells,
            i,
            j,
        ) by {
            if hidden_at(cells, i, j) {
                assert(bombs.contains((i, j)));
            }
        }
    }
    if forall|i: int, j: int|
        on_field(cells, i, j) && !bomb_at(cells, i, j) ==> !#[trigger] hidden_at(cells, i, j) {
        assert(hidden =~= bombs);
    }
}

} // verus!
