//! Drawing distinct positions of a square field at random.

use rand::Rng;
use vstd::prelude::*;

verus! {

/// Draws an index from `low` up to but not including `high` with
/// `rand::Rng::gen_range` on the generator that `rand::thread_rng` hands out.
/// Which index comes is left open, and two calls may differ; the range must
/// not be empty, since `gen_range` panics on an empty one.
#[verifier::external_body]
fn random_index(low: usize, high: usize) -> (index: usize)
    requires
        low < high,
    ensures
        low <= index < high,
{
    rand::thread_rng().gen_range(low..high)
}

/// Whether every position in `cells` lies on a field of `size` by `size` cells.
pub open spec fn all_within(cells: Seq<(usize, usize)>, size: int) -> bool {
    forall|k: int| 0 <= k < cells.len() ==> (#[trigger] cells[k]).0 < size && cells[k].1 < size
}

/// Lists the positions of a field of `size` by `size` cells, row by row.
pub fn all_positions(size: usize) -> (cells: Vec<(usize, usize)>)
    ensures
        cells@.len() == size * size,
        forall|r: int, c: int|
            0 <= r < size && 0 <= c < size ==> #[trigger] cells@[r * size + c] == (
                r as usize,
                c as usize,
            ),
        all_within(cells@, size as int),
        cells@.no_duplicates(),
{
    let mut cells: Vec<(usize, usize)> = Vec::new();
    let mut i: usize = 0;
    while i < size
        invariant
            i <= size,
            cells@.len() == i * size,
            forall|k: int|
                0 <= k < cells@.len() ==> {
                    &&& (#[trigger] cells@[k]).0 < i
                    &&& cells@[k].1 < size
                    &&& k == cells@[k].0 * size + cells@[k].1
                },
        decreases size - i,
    {
        let mut j: usize = 0;
        while j < size
            invariant
                i < size,
                j <= size,
                cells@.len() == i * size + j,
                forall|k: int|
                    0 <= k < cells@.len() ==> {
                        &&& (#[trigger] cells@[k]).0 <= i
                        &&& cells@[k].1 < size
                        &&& k == cells@[k].0 * size + cells@[k].1
                    },
            decreases size - j,
        {
            cells.push((i, j));
            j += 1;
        }
        assert((i + 1) * size == i * size + size) by (nonlinear_arith);
        assert forall|k: int| 0 <= k < cells@.len() implies (#[trigger] cells@[k]).0 < i + 1 by {}
        i += 1;
    }
    proof {
        assert forall|r: int, c: int| 0 <= r < size && 0 <= c < size implies #[trigger] cells@[r
            * size + c] == (r as usize, c as usize) by {
            lemma_index_in_square(size as int, r, c);
            let k = r * size + c;
            let p = cells@[k];
            lemma_index_unique(size as int, r, c, p.0 as int, p.1 as int);
        }
    }
    cells
}

/// The row-major index of a position of the square lies below `size * size`.
proof fn lemma_index_in_square(size: int, r: int, c: int)
    requires
        0 <= r < size,
        0 <= c < size,
    ensures
        0 <= r * size + c < size * size,
{
    assert(r * size + size <= size * size) by (nonlinear_arith)
        requires
            0 <= r < size,
    ;
    assert(0 <= r * size) by (nonlinear_arith)
        requires
            0 <= r < size,
    ;
}

/// Two positions of the square with the same row-major index are the same.
proof fn lemma_index_unique(size: int, r1: int, c1: int, r2: int, c2: int)
    requires
        0 <= c1 < size,
        0 <= c2 < size,
        r1 * size + c1 == r2 * size + c2,
    ensures
        r1 == r2,
        c1 == c2,
{
    assert(r1 == r2) by (nonlinear_arith)
        requires
            0 <= c1 < size,
            0 <= c2 < size,
            r1 * size + c1 == r2 * size + c2,
    ;
}

/// Exchanges the entries at `k` and `pick`.
pub fn exchange(cells: &mut Vec<(usize, usize)>, k: usize, pick: usize)
    requires
        k < old(cells)@.len(),
        pick < old(cells)@.len(),
    ensures
        final(cells)@ == old(cells)@.update(k as int, old(cells)@[pick as int]).update(
            pick as int,
            old(cells)@[k as int],
        ),
{
    let first = cells[k];
    let second = cells[pick];
    cells[k] = second;
    cells[pick] = first;
}

/// Draws `count` distinct positions of a field of `size` by `size` cells.
pub fn sample_positions(size: usize, count: usize) -> (drawn: Vec<(usize, usize)>)
    requires
        count <= size * size,
    ensures
        drawn@.len() == count,
        drawn@.no_duplicates(),
        all_within(drawn@, size as int),
{
    let mut cells = all_positions(size);
    let mut k: usize = 0;
    while k < count
        invariant
            k <= count <= cells@.len(),
            cells@.no_duplicates(),
            all_within(cells@, size as int),
        decreases count - k,
    {
        let pick = random_index(k, cells.len());
        exchange(&mut cells, k, pick);
        k += 1;
    }
    cells.truncate(count);
    cells
}

} // verus!
