//! The square grid that both games are played on.

use vstd::prelude::*;

verus! {

/// Whether two positions touch: they differ, and lie at most one step apart
/// on each axis.
pub open spec fn adjacent(r1: int, c1: int, r2: int, c2: int) -> bool {
    &&& r1 - 1 <= r2 <= r1 + 1
    &&& c1 - 1 <= c2 <= c1 + 1
    &&& !(r1 == r2 && c1 == c2)
}

/// One if the position `(r, c)` satisfies `hit`, zero if not.
pub open spec fn tally(hit: spec_fn(int, int) -> bool, r: int, c: int) -> int {
    if hit(r, c) {
        1
    } else {
        0
    }
}

/// The number of positions around `(r, c)` that satisfy `hit`: the eight
/// positions that touch it, `(r, c)` itself not among them.
pub open spec fn count_around(hit: spec_fn(int, int) -> bool, r: int, c: int) -> int {
    tally(hit, r - 1, c - 1) + tally(hit, r - 1, c) + tally(hit, r - 1, c + 1)
        + tally(hit, r, c - 1) + tally(hit, r, c + 1)
        + tally(hit, r + 1, c - 1) + tally(hit, r + 1, c) + tally(hit, r + 1, c + 1)
}

/// The part of `count_around` that falls on row `i`, columns `c - 1` up to but
/// not including `c - 1 + n`.
pub open spec fn count_in_row(hit: spec_fn(int, int) -> bool, r: int, c: int, i: int, n: int) -> int {
    (if n > 0 { tally(hit, i, c - 1) } else { 0 })
        + (if n > 1 && i != r { tally(hit, i, c) } else { 0 })
        + (if n > 2 { tally(hit, i, c + 1) } else { 0 })
}

/// The part of `count_around` that falls on rows `r - 1` up to but not
/// including `r - 1 + m`.
pub open spec fn count_in_rows(hit: spec_fn(int, int) -> bool, r: int, c: int, m: int) -> int {
    (if m > 0 { count_in_row(hit, r, c, r - 1, 3) } else { 0 })
        + (if m > 1 { count_in_row(hit, r, c, r, 3) } else { 0 })
        + (if m > 2 { count_in_row(hit, r, c, r + 1, 3) } else { 0 })
}

/// Whether position `a` comes before position `b` when the grid is read row by
/// row, each row left to right.
pub open spec fn precedes(a: (usize, usize), b: (usize, usize)) -> bool {
    a.0 < b.0 || (a.0 == b.0 && a.1 < b.1)
}

/// How many of the positions `x - 1`, `x` and `x + 1` lie on an axis of `n`
/// positions, given that `x` does.
pub open spec fn span(x: int, n: int) -> int {
    1 + (if x > 0 { 1int } else { 0int }) + (if x + 1 < n { 1int } else { 0int })
}

/// Whether the list `cells` holds the position in row `r`, column `c`.
pub open spec fn lists(cells: Seq<(usize, usize)>, r: int, c: int) -> bool {
    exists|k: int| 0 <= k < cells.len() && (#[trigger] cells[k]).0 == r && cells[k].1 == c
}

/// A list grown by one position holds what it held before, and that position.
pub proof fn lemma_lists_grow(cells: Seq<(usize, usize)>, k: int, r: int, c: int)
    requires
        0 <= k < cells.len(),
    ensures
        lists(cells.subrange(0, k + 1), r, c) <==> lists(cells.subrange(0, k), r, c) || (cells[k].0
            == r && cells[k].1 == c),
{
    let short = cells.subrange(0, k);
    let long = cells.subrange(0, k + 1);
    if lists(short, r, c) {
        let m = choose|m: int| 0 <= m < short.len() && (#[trigger] short[m]).0 == r && short[m].1 == c;
        assert(long[m] == short[m]);
    }
    if cells[k].0 == r && cells[k].1 == c {
        assert(long[k] == cells[k]);
    }
    if lists(long, r, c) {
        let m = choose|m: int| 0 <= m < long.len() && (#[trigger] long[m]).0 == r && long[m].1 == c;
        if m < k {
            assert(short[m] == long[m]);
        }
    }
}

/// Two lists joined hold what either of them held.
pub proof fn lemma_lists_joined(
    front: Seq<(usize, usize)>,
    back: Seq<(usize, usize)>,
    r: int,
    c: int,
)
    ensures
        lists(front + back, r, c) <==> lists(front, r, c) || lists(back, r, c),
{
    let joined = front + back;
    if lists(front, r, c) {
        let m = choose|m: int| 0 <= m < front.len() && (#[trigger] front[m]).0 == r && front[m].1 == c;
        assert(joined[m] == front[m]);
    }
    if lists(back, r, c) {
        let m = choose|m: int| 0 <= m < back.len() && (#[trigger] back[m]).0 == r && back[m].1 == c;
        assert(joined[front.len() + m] == back[m]);
    }
    if lists(joined, r, c) {
        let m = choose|m: int|
            0 <= m < joined.len() && (#[trigger] joined[m]).0 == r && joined[m].1 == c;
        if m < front.len() {
            assert(front[m] == joined[m]);
        } else {
            assert(back[m - front.len()] == joined[m]);
        }
    }
}

/// A square arrangement of cells, `size` rows of `size` cells each.
pub struct Grid<T> {
    rows: Vec<Vec<T>>,
}

impl<T> View for Grid<T> {
    type V = Seq<Seq<T>>;

    /// The rows of the grid, top to bottom, each listing its cells left to right.
    closed spec fn view(&self) -> Seq<Seq<T>> {
        Seq::new(self.rows@.len(), |r: int| self.rows@[r]@)
    }
}

impl<T> Grid<T> {
    /// The number of rows, which is also the number of columns.
    pub open spec fn dim(&self) -> int {
        self@.len() as int
    }

    /// The grid is square and not empty.
    pub open spec fn wf(&self) -> bool {
        &&& self@.len() > 0
        &&& forall|r: int| 0 <= r < self@.len() ==> (#[trigger] self@[r]).len() == self@.len()
    }

    /// Whether `(r, c)` is a position of the grid.
    pub open spec fn in_bounds(&self, r: int, c: int) -> bool {
        0 <= r < self.dim() && 0 <= c < self.dim()
    }

    /// The cell in row `r`, column `c`.
    pub open spec fn at(&self, r: int, c: int) -> T {
        self@[r][c]
    }

    /// Builds a grid of `size` by `size` cells, each made by a call of `cell_factory`.
    pub fn new<F: Fn() -> T>(size: usize, cell_factory: F) -> (grid: Self)
        requires
            size > 0,
            cell_factory.requires(()),
        ensures
            grid.wf(),
            grid.dim() == size,
            forall|r: int, c: int|
                grid.in_bounds(r, c) ==> cell_factory.ensures((), #[trigger] grid.at(r, c)),
    {
        let mut rows: Vec<Vec<T>> = Vec::new();
        let mut r: usize = 0;
        while r < size
            invariant
                r <= size,
                rows@.len() == r,
                cell_factory.requires(()),
                forall|i: int| 0 <= i < r ==> (#[trigger] rows@[i])@.len() == size,
                forall|i: int, j: int|
                    0 <= i < r && 0 <= j < size ==> cell_factory.ensures((), #[trigger] rows@[i]@[j]),
            decreases size - r,
        {
            let mut row: Vec<T> = Vec::new();
            let mut c: usize = 0;
            while c < size
                invariant
                    c <= size,
                    row@.len() == c,
                    cell_factory.requires(()),
                    forall|j: int| 0 <= j < c ==> cell_factory.ensures((), #[trigger] row@[j]),
                decreases size - c,
            {
                row.push(cell_factory());
                c += 1;
            }
            rows.push(row);
            r += 1;
        }
        Grid { rows }
    }

    /// The number of rows, which is also the number of columns.
    pub fn size(&self) -> (size: usize)
        ensures
            size == self.dim(),
    {
        self.rows.len()
    }

    /// Reads the cell in row `r`, column `c`.
    pub fn get(&self, r: usize, c: usize) -> (cell: &T)
        requires
            self.wf(),
            self.in_bounds(r as int, c as int),
        ensures
            *cell == self.at(r as int, c as int),
    {
        assert(self.rows@[r as int]@ == self@[r as int]);
        &self.rows[r][c]
    }

    /// Replaces the cell in row `r`, column `c`, and leaves every other cell as it was.
    pub fn set(&mut self, r: usize, c: usize, value: T)
        requires
            old(self).wf(),
            old(self).in_bounds(r as int, c as int),
        ensures
            final(self).wf(),
            final(self)@ == old(self)@.update(r as int, old(self)@[r as int].update(c as int, value)),
    {
        assert(self.rows@[r as int]@ == self@[r as int]);
        self.rows[r][c] = value;
        assert(self@ =~= old(self)@.update(r as int, old(self)@[r as int].update(c as int, value)));
    }

    /// Lists the positions that touch `(r, c)` and lie on the grid: up to eight of
    /// them, row by row and left to right, without `(r, c)` itself.
    pub fn neighbors_of(&self, r: usize, c: usize) -> (cells: Vec<(usize, usize)>)
        requires
            self.wf(),
            self.in_bounds(r as int, c as int),
        ensures
            cells@.len() == span(r as int, self.dim()) * span(c as int, self.dim()) - 1,
            cells@.len() <= 8,
            forall|k: int|
                0 <= k < cells@.len() ==> {
                    &&& self.in_bounds((#[trigger] cells@[k]).0 as int, cells@[k].1 as int)
                    &&& adjacent(r as int, c as int, cells@[k].0 as int, cells@[k].1 as int)
                },
            forall|i: int, j: int|
                self.in_bounds(i, j) && adjacent(r as int, c as int, i, j) ==> lists(cells@, i, j),
            forall|k: int, l: int|
                0 <= k < l < cells@.len() ==> precedes(#[trigger] cells@[k], #[trigger] cells@[l]),
    {
        let n = self.rows.len();
        let r_lo = if r > 0 { r - 1 } else { r };
        let r_hi = if r + 1 < n { r + 1 } else { r };
        let c_lo = if c > 0 { c - 1 } else { c };
        let c_hi = if c + 1 < n { c + 1 } else { c };
        let mut cells: Vec<(usize, usize)> = Vec::new();
        let ghost width = c_hi - c_lo + 1;
        let mut i = r_lo;
        assert((i - r_lo) * width == 0);
        while i <= r_hi
            invariant
                n == self.dim(),
                r < n,
                c < n,
                r_lo == (if r > 0 { r - 1 } else { r as int }),
                r_hi == (if r + 1 < n { r + 1 } else { r as int }),
                c_lo == (if c > 0 { c - 1 } else { c as int }),
                c_hi == (if c + 1 < n { c + 1 } else { c as int }),
                r_lo <= i <= r_hi + 1,
                width == c_hi - c_lo + 1,
                cells@.len() == (i - r_lo) * width - (if i > r { 1int } else { 0int }),
                forall|k: int|
                    0 <= k < cells@.len() ==> {
                        &&& (#[trigger] cells@[k]).0 < i
                        &&& self.in_bounds(cells@[k].0 as int, cells@[k].1 as int)
                        &&& adjacent(r as int, c as int, cells@[k].0 as int, cells@[k].1 as int)
                    },
                forall|a: int, b: int|
                    self.in_bounds(a, b) && adjacent(r as int, c as int, a, b) && a < i ==> lists(
                        cells@,
                        a,
                        b,
                    ),
                forall|k: int, l: int|
                    0 <= k < l < cells@.len() ==> precedes(
                        #[trigger] cells@[k],
                        #[trigger] cells@[l],
                    ),
            decreases r_hi + 1 - i,
        {
            let mut j = c_lo;
            while j <= c_hi
                invariant
                    n == self.dim(),
                    r < n,
                    c < n,
                    r_lo == (if r > 0 { r - 1 } else { r as int }),
                    r_hi == (if r + 1 < n { r + 1 } else { r as int }),
                    c_lo == (if c > 0 { c - 1 } else { c as int }),
                    c_hi == (if c + 1 < n { c + 1 } else { c as int }),
                    r_lo <= i <= r_hi,
                    c_lo <= j <= c_hi + 1,
                    width == c_hi - c_lo + 1,
                    cells@.len() == (i - r_lo) * width - (if i > r { 1int } else { 0int }) + (j
                        - c_lo) - (if i == r && j > c { 1int } else { 0int }),
                    forall|k: int|
                        0 <= k < cells@.len() ==> {
                            &&& precedes(#[trigger] cells@[k], (i, j))
                            &&& self.in_bounds(cells@[k].0 as int, cells@[k].1 as int)
                            &&& adjacent(r as int, c as int, cells@[k].0 as int, cells@[k].1 as int)
                        },
                    forall|a: int, b: int|
                        self.in_bounds(a, b) && adjacent(r as int, c as int, a, b) && (a < i || (a == i
                            && b < j)) ==> lists(cells@, a, b),
                    forall|k: int, l: int|
                        0 <= k < l < cells@.len() ==> precedes(
                            #[trigger] cells@[k],
                            #[trigger] cells@[l],
                        ),
                decreases c_hi + 1 - j,
            {
                if !(i == r && j == c) {
                    let ghost before = cells@;
                    cells.push((i, j));
                    proof {
                        assert(cells@[before.len() as int] == (i, j));
                        assert forall|a: int, b: int| lists(before, a, b) implies lists(
                            cells@,
                            a,
                            b,
                        ) by {
                            let k = choose|k: int|
                                0 <= k < before.len() && (#[trigger] before[k]).0 == a && before[k].1
                                    == b;
                            assert(cells@[k] == before[k]);
                        }
                    }
                }
                j += 1;
            }
            assert((i + 1 - r_lo) * width == (i - r_lo) * width + width) by (nonlinear_arith);
            i += 1;
        }
        assert(cells@.len() <= 8) by (nonlinear_arith)
            requires
                cells@.len() == (i - r_lo) * width - 1,
                1 <= i - r_lo <= 3,
                1 <= width <= 3,
        ;
        cells
    }
}

} // verus!
