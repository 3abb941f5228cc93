//! The geometry of the winning lines.
//!
//! An `n` by `n` board numbers its squares row by row, from `0` to `n * n - 1`.
//! It has `2 * n + 2` winning lines of `n` squares each, numbered in the order
//! in which they are scanned: the rows from the top, the columns from the left,
//! the diagonal from the top left corner and the diagonal from the top right
//! corner.

use vstd::prelude::*;

verus! {

/// The number of winning lines of an `n` by `n` board.
pub open spec fn line_count(n: int) -> int {
    2 * n + 2
}

/// The position of square `i` of line `k` on an `n` by `n` board.
pub open spec fn line_cell(n: int, k: int, i: int) -> int {
    if k < n {
        k * n + i
    } else if k < 2 * n {
        i * n + (k - n)
    } else if k == 2 * n {
        i * n + i
    } else {
        i * n + (n - 1 - i)
    }
}

/// Line `k` of an `n` by `n` board: its `n` positions, in increasing order.
pub open spec fn line(n: int, k: int) -> Seq<int> {
    Seq::new(n as nat, |i: int| line_cell(n, k, i))
}

/// Positions as the executable code holds them, read as integers.
pub open spec fn positions(v: Seq<usize>) -> Seq<int> {
    v.map_values(|p: usize| p as int)
}

/// Whether position `p` lies inside the outer ring of an `n` by `n` board:
/// neither in the first or last row nor in the first or last column.
pub open spec fn is_central(n: int, p: int) -> bool {
    &&& 0 <= p < n * n
    &&& 1 <= p / n < n - 1
    &&& 1 <= p % n < n - 1
}

/// Every square of every line lies on the board.
pub proof fn lemma_line_cell_on_board(n: int, k: int, i: int)
    requires
        1 <= n,
        0 <= k < line_count(n),
        0 <= i < n,
    ensures
        0 <= line_cell(n, k, i) < n * n,
{
    assert(forall|a: int| 0 <= a < n ==> 0 <= #[trigger] (a * n) && a * n + n <= n * n)
        by (nonlinear_arith)
        requires
            1 <= n,
    ;
}

/// A line lists its squares in strictly increasing order, so no square occurs
/// twice in it.
pub proof fn lemma_line_cell_increasing(n: int, k: int, i: int, j: int)
    requires
        2 <= n,
        0 <= k < line_count(n),
        0 <= i < j < n,
    ensures
        line_cell(n, k, i) < line_cell(n, k, j),
{
    assert(i * n + n <= j * n) by (nonlinear_arith)
        requires
            i < j,
            1 <= n,
    ;
}

/// The position of square `i` of line `k`.
pub fn line_position(n: usize, k: usize, i: usize) -> (p: usize)
    requires
        1 <= n,
        n * n <= usize::MAX,
        k < line_count(n as int),
        i < n,
    ensures
        p == line_cell(n as int, k as int, i as int),
        p < n * n,
{
    proof {
        lemma_line_cell_on_board(n as int, k as int, i as int);
    }
    if k < n {
        k * n + i
    } else if k - n < n {
        i * n + (k - n)
    } else if k - n == n {
        i * n + i
    } else {
        i * n + (n - 1 - i)
    }
}

/// The positions of line `k`, in increasing order.
pub fn line_positions(n: usize, k: usize) -> (v: Vec<usize>)
    requires
        1 <= n,
        n * n <= usize::MAX,
        k < line_count(n as int),
    ensures
        positions(v@) == line(n as int, k as int),
{
    let mut v: Vec<usize> = Vec::new();
    let mut i: usize = 0;
    while i < n
        invariant
            1 <= n,
            n * n <= usize::MAX,
            k < line_count(n as int),
            i <= n,
            v@.len() == i,
            forall|j: int| 0 <= j < i ==> v@[j] == line_cell(n as int, k as int, j),
        decreases n - i,
    {
        let p = line_position(n, k, i);
        v.push(p);
        i += 1;
    }
    v
}

/// Whether `p` lies inside the outer ring of the board.
pub fn central(n: usize, p: usize) -> (b: bool)
    requires
        1 <= n,
        n * n <= usize::MAX,
    ensures
        b == is_central(n as int, p as int),
{
    if p >= n * n {
        return false;
    }
    let row = p / n;
    let column = p % n;
    1 <= row && row < n - 1 && 1 <= column && column < n - 1
}

} // verus!
