//! The computer opponent.
//!
//! The selector looks one move ahead and no further. It takes a win where one
//! move completes a line, else stops the opponent where one move would
//! complete a line of theirs, else prefers the squares inside the outer ring,
//! else takes any empty square. Among equally preferred squares chance
//! decides. It does not search: a position that is lost two moves on is not
//! seen.

use vstd::prelude::*;
use rand::Rng;
use crate::board::{Board, BoardView};
use crate::cell::Cell;
use crate::lines::{
    central, is_central, lemma_line_cell_increasing, line_cell, line_count, line_position,
    positions,
};

verus! {

impl BoardView {
    /// Square `i` of line `k` is empty and every other square of the line
    /// holds the player's mark `mark`: one move there completes the line.
    pub open spec fn completes(self, mark: Cell, k: int, i: int) -> bool {
        &&& mark != Cell::Empty
        &&& 0 <= k < line_count(self.size)
        &&& 0 <= i < self.size
        &&& self.cells[line_cell(self.size, k, i)] == Cell::Empty
        &&& forall|j: int|
            0 <= j < self.size && j != i ==> self.cells[#[trigger] line_cell(self.size, k, j)]
                == mark
    }

    /// Line `k` lacks one move of being owned by `mark`.
    pub open spec fn completable(self, mark: Cell, k: int) -> bool {
        exists|i: int| self.completes(mark, k, i)
    }

    /// Some line lacks one move of being owned by `mark`.
    pub open spec fn can_complete(self, mark: Cell) -> bool {
        exists|k: int| self.completable(mark, k)
    }

    /// Line `k` is the first, in scan order, that `mark` can complete, and
    /// square `i` is its gap.
    pub open spec fn is_first_completion(self, mark: Cell, k: int, i: int) -> bool {
        &&& self.completes(mark, k, i)
        &&& forall|j: int| 0 <= j < k ==> !self.completable(mark, j)
    }

    /// The first line that `mark` can complete and the index of its gap in
    /// that line, where there is such a line.
    pub open spec fn completing_gap(self, mark: Cell) -> (int, int) {
        choose|g: (int, int)| self.is_first_completion(mark, g.0, g.1)
    }

    /// The position that completes the first line that `mark` can complete.
    pub open spec fn completing_move(self, mark: Cell) -> int {
        line_cell(self.size, self.completing_gap(mark).0, self.completing_gap(mark).1)
    }

    /// Position `p` is an empty square, and one inside the outer ring where
    /// `inner` asks for that.
    pub open spec fn is_open(self, inner: bool, p: int) -> bool {
        &&& 0 <= p < self.size * self.size
        &&& self.cells[p] == Cell::Empty
        &&& inner ==> is_central(self.size, p)
    }

    /// The open positions under `upto`, in increasing order.
    pub open spec fn open_below(self, inner: bool, upto: int) -> Seq<int>
        decreases upto,
    {
        if upto <= 0 {
            Seq::empty()
        } else {
            let rest = self.open_below(inner, upto - 1);
            if self.is_open(inner, upto - 1) {
                rest.push(upto - 1)
            } else {
                rest
            }
        }
    }

    /// All open positions of the board, in increasing order.
    pub open spec fn open_cells(self, inner: bool) -> Seq<int> {
        self.open_below(inner, self.size * self.size)
    }

    /// The moves among which the player `own`, against `opponent`, lets chance
    /// decide: the winning move alone where there is one, else the blocking
    /// move alone, else the empty squares inside the outer ring, else all
    /// empty squares.
    pub open spec fn candidates(self, own: Cell, opponent: Cell) -> Seq<int> {
        if self.can_complete(own) {
            seq![self.completing_move(own)]
        } else if self.can_complete(opponent) {
            seq![self.completing_move(opponent)]
        } else if self.open_cells(true).len() > 0 {
            self.open_cells(true)
        } else {
            self.open_cells(false)
        }
    }

    /// The number of squares among the first `upto` of line `k` that hold
    /// `mark`.
    pub open spec fn line_tally(self, mark: Cell, k: int, upto: int) -> nat
        decreases upto,
    {
        if upto <= 0 {
            0
        } else if self.cells[line_cell(self.size, k, upto - 1)] == mark {
            self.line_tally(mark, k, upto - 1) + 1
        } else {
            self.line_tally(mark, k, upto - 1)
        }
    }

    /// One move completes a line for `mark` exactly where `mark` holds all
    /// squares of the line but one, and exactly one square of it is empty.
    pub proof fn lemma_completable_by_count(self, mark: Cell, k: int)
        requires
            self.wf(),
            0 <= k < line_count(self.size),
        ensures
            self.completable(mark, k) <==> self.line_tally(mark, k, self.size) == self.size - 1
                && self.line_tally(Cell::Empty, k, self.size) == 1,
    {
        if self.completable(mark, k) {
            let i = choose|i: int| self.completes(mark, k, i);
            self.lemma_tally_of_completed(mark, k, i, self.size);
        }
        if self.line_tally(mark, k, self.size) == self.size - 1 && self.line_tally(
            Cell::Empty,
            k,
            self.size,
        ) == 1 {
            self.lemma_gap_of_tally(mark, k, self.size);
            let i = choose|i: int|
                0 <= i < self.size && self.cells[line_cell(self.size, k, i)] == Cell::Empty
                    && forall|j: int|
                    0 <= j < self.size && j != i ==> self.cells[#[trigger] line_cell(
                        self.size,
                        k,
                        j,
                    )] == mark;
            assert(self.completes(mark, k, i));
        }
    }

    /// In a line with the one gap `i`, the squares before `upto` hold `mark`
    /// but for the gap, and the gap alone is empty.
    proof fn lemma_tally_of_completed(self, mark: Cell, k: int, i: int, upto: int)
        requires
            self.completes(mark, k, i),
            0 <= upto <= self.size,
        ensures
            self.line_tally(mark, k, upto) == upto - (if i < upto {
                1int
            } else {
                0int
            }),
            self.line_tally(Cell::Empty, k, upto) == (if i < upto {
                1int
            } else {
                0int
            }),
        decreases upto,
    {
        if upto > 0 {
            self.lemma_tally_of_completed(mark, k, i, upto - 1);
        }
    }

    /// No more squares are counted than there are; where all are counted,
    /// all hold the mark; and a square holds one mark only.
    proof fn lemma_tally_bounds(self, mark: Cell, other: Cell, k: int, upto: int)
        requires
            0 <= upto,
            mark != other,
        ensures
            self.line_tally(mark, k, upto) + self.line_tally(other, k, upto) <= upto,
            self.line_tally(mark, k, upto) == upto ==> forall|j: int|
                0 <= j < upto ==> self.cells[#[trigger] line_cell(self.size, k, j)] == mark,
        decreases upto,
    {
        if upto > 0 {
            self.lemma_tally_bounds(mark, other, k, upto - 1);
        }
    }

    /// Where `mark` holds all of the first `upto` squares of a line but one,
    /// and one of them is empty, the empty one is the gap.
    proof fn lemma_gap_of_tally(self, mark: Cell, k: int, upto: int)
        requires
            self.wf(),
            0 <= upto <= self.size,
            upto == self.size || mark != Cell::Empty,
            self.line_tally(mark, k, upto) == upto - 1,
            self.line_tally(Cell::Empty, k, upto) == 1,
        ensures
            mark != Cell::Empty,
            exists|i: int|
                0 <= i < upto && self.cells[line_cell(self.size, k, i)] == Cell::Empty
                    && forall|j: int|
                    0 <= j < upto && j != i ==> self.cells[#[trigger] line_cell(self.size, k, j)]
                        == mark,
        decreases upto,
    {
        let held = self.cells[line_cell(self.size, k, upto - 1)];
        self.lemma_tally_bounds(mark, Cell::Empty, k, upto - 1);
        if held == mark {
            self.lemma_gap_of_tally(mark, k, upto - 1);
            let i = choose|i: int|
                0 <= i < upto - 1 && self.cells[line_cell(self.size, k, i)] == Cell::Empty
                    && forall|j: int|
                    0 <= j < upto - 1 && j != i ==> self.cells[#[trigger] line_cell(
                        self.size,
                        k,
                        j,
                    )] == mark;
            assert(0 <= i < upto && self.cells[line_cell(self.size, k, i)] == Cell::Empty
                && forall|j: int|
                0 <= j < upto && j != i ==> self.cells[#[trigger] line_cell(self.size, k, j)]
                    == mark);
        }
    }

    /// Only one pair of a line and a square can be the first completion, and
    /// `completing_gap` names it.
    pub proof fn lemma_first_completion_unique(self, mark: Cell, k: int, i: int)
        requires
            self.is_first_completion(mark, k, i),
        ensures
            self.can_complete(mark),
            self.completing_gap(mark) == (k, i),
            self.completing_move(mark) == line_cell(self.size, k, i),
    {
        assert(self.is_first_completion(mark, (k, i).0, (k, i).1));
        assert(self.completable(mark, k));
        assert(self.completable(mark, self.completing_gap(mark).0));
    }

    /// Where `mark` can complete a line, `completing_gap` names the first
    /// such line and its gap.
    pub proof fn lemma_completing_gap(self, mark: Cell)
        requires
            self.can_complete(mark),
        ensures
            self.is_first_completion(
                mark,
                self.completing_gap(mark).0,
                self.completing_gap(mark).1,
            ),
    {
        let k0 = choose|k: int| self.completable(mark, k);
        let k = self.least_completable(mark, k0);
        let i = choose|i: int| self.completes(mark, k, i);
        assert(self.is_first_completion(mark, (k, i).0, (k, i).1));
    }

    /// The least line that `mark` can complete, given one that it can.
    proof fn least_completable(self, mark: Cell, k: int) -> (least: int)
        requires
            self.completable(mark, k),
        ensures
            self.completable(mark, least),
            forall|j: int| 0 <= j < least ==> !self.completable(mark, j),
        decreases k,
    {
        if exists|j: int| 0 <= j < k && self.completable(mark, j) {
            let j = choose|j: int| 0 <= j < k && self.completable(mark, j);
            self.least_completable(mark, j)
        } else {
            k
        }
    }

    /// `open_below` holds the open positions under `upto` and nothing else,
    /// each once, in increasing order.
    pub proof fn lemma_open_below(self, inner: bool, upto: int)
        ensures
            forall|a: int|
                0 <= a < self.open_below(inner, upto).len() ==> 0 <= #[trigger] self.open_below(
                    inner,
                    upto,
                )[a] < upto && self.is_open(inner, self.open_below(inner, upto)[a]),
            forall|p: int|
                0 <= p < upto && #[trigger] self.is_open(inner, p) ==> self.open_below(
                    inner,
                    upto,
                ).contains(p),
            forall|a: int, b: int|
                0 <= a < b < self.open_below(inner, upto).len() ==> self.open_below(inner, upto)[a]
                    < self.open_below(inner, upto)[b],
        decreases upto,
    {
        let s = self.open_below(inner, upto);
        if upto > 0 {
            let rest = self.open_below(inner, upto - 1);
            self.lemma_open_below(inner, upto - 1);
            assert forall|p: int| 0 <= p < upto && #[trigger] self.is_open(
                inner,
                p,
            ) implies s.contains(p) by {
                if p < upto - 1 {
                    assert(rest.contains(p));
                    let a = choose|a: int| 0 <= a < rest.len() && rest[a] == p;
                    assert(s[a] == p);
                } else {
                    assert(s[s.len() - 1] == p);
                }
            }
        }
    }

    /// On a board that is not full the selector has at least one candidate,
    /// and every candidate is a legal move.
    pub proof fn lemma_candidates_are_moves(self, own: Cell, opponent: Cell)
        requires
            self.wf(),
            !self.is_full(),
        ensures
            self.candidates(own, opponent).len() > 0,
            forall|c: int|
                0 <= c < self.candidates(own, opponent).len() ==> self.is_valid_move(
                    #[trigger] self.candidates(own, opponent)[c],
                ),
    {
        self.lemma_line_bounds();
        if self.can_complete(own) {
            self.lemma_completing_gap(own);
        } else if self.can_complete(opponent) {
            self.lemma_completing_gap(opponent);
        } else {
            let inner = self.open_cells(true).len() > 0;
            self.lemma_open_below(inner, self.size * self.size);
            if !inner {
                let p = choose|p: int| 0 <= p < self.cells.len() && self.cells[p] == Cell::Empty;
                assert(self.is_open(false, p));
            }
        }
    }

    /// Where the mover can complete a line, the winning move is the only
    /// candidate, whatever the opponent threatens, and making it wins.
    pub proof fn lemma_win_is_taken(self, own: Cell, opponent: Cell)
        requires
            self.wf(),
            self.can_complete(own),
        ensures
            self.candidates(own, opponent) == seq![self.completing_move(own)],
            self.is_valid_move(self.completing_move(own)),
            self.apply_move(self.completing_move(own), own).has_win(own),
    {
        self.lemma_completing_gap(own);
        self.lemma_line_bounds();
        let (k, i) = self.completing_gap(own);
        let n = self.size;
        let p = line_cell(n, k, i);
        let after = self.apply_move(p, own);
        assert forall|j: int| 0 <= j < n implies after.cells[#[trigger] line_cell(n, k, j)]
            == own by {
            if j < i {
                lemma_line_cell_increasing(n, k, j, i);
            } else if i < j {
                lemma_line_cell_increasing(n, k, i, j);
            }
        }
        assert(after.owns_line(own, k));
    }

    /// Where the mover cannot win at once and the opponent threatens to
    /// complete a line, the blocking move is the only candidate, and once the
    /// mover's mark stands there the opponent can neither complete that line
    /// nor own it.
    pub proof fn lemma_threat_is_blocked(self, own: Cell, opponent: Cell)
        requires
            self.wf(),
            own != Cell::Empty,
            own != opponent,
            !self.can_complete(own),
            self.can_complete(opponent),
        ensures
            self.candidates(own, opponent) == seq![self.completing_move(opponent)],
            self.is_valid_move(self.completing_move(opponent)),
            !self.apply_move(self.completing_move(opponent), own).completable(
                opponent,
                self.completing_gap(opponent).0,
            ),
            !self.apply_move(self.completing_move(opponent), own).owns_line(
                opponent,
                self.completing_gap(opponent).0,
            ),
    {
        self.lemma_completing_gap(opponent);
        self.lemma_line_bounds();
        let (k, i) = self.completing_gap(opponent);
        let n = self.size;
        let p = line_cell(n, k, i);
        let after = self.apply_move(p, own);
        assert forall|j: int| 0 <= j < n && j != i implies after.cells[#[trigger] line_cell(
            n,
            k,
            j,
        )] == opponent by {
            if j < i {
                lemma_line_cell_increasing(n, k, j, i);
            } else {
                lemma_line_cell_increasing(n, k, i, j);
            }
        }
    }
}

/// The index in line `k` of the one empty square of a line whose other
/// squares all hold `mark`, or `None` where the line is not of that kind.
pub fn line_gap(board: &Board, mark: Cell, k: usize) -> (r: Option<usize>)
    requires
        board.wf(),
        k < line_count(board@.size),
    ensures
        match r {
            Some(i) => board@.completes(mark, k as int, i as int),
            None => !board@.completable(mark, k as int),
        },
{
    if !mark.is_player() {
        return None;
    }
    let n = board.size();
    proof {
        board.lemma_fits();
        board@.lemma_line_bounds();
    }
    let mut gap: Option<usize> = None;
    let mut i: usize = 0;
    while i < n
        invariant
            board.wf(),
            n == board@.size,
            n * n == board@.cells.len(),
            n * n <= usize::MAX,
            mark != Cell::Empty,
            k < line_count(n as int),
            i <= n,
            match gap {
                Some(g) => {
                    &&& g < i
                    &&& board@.cells[line_cell(n as int, k as int, g as int)] == Cell::Empty
                    &&& forall|j: int|
                        0 <= j < i && j != g ==> board@.cells[#[trigger] line_cell(
                            n as int,
                            k as int,
                            j,
                        )] == mark
                },
                None => forall|j: int|
                    0 <= j < i ==> board@.cells[#[trigger] line_cell(n as int, k as int, j)]
                        == mark,
            },
        decreases n - i,
    {
        let held = board.cell(line_position(n, k, i));
        if held == mark {
        } else if held == Cell::Empty && gap.is_none() {
            gap = Some(i);
        } else {
            return None;
        }
        i += 1;
    }
    gap
}

/// The move that completes a line for `mark`: the empty square of the first
/// line, rows before columns before diagonals, on which `mark` holds every
/// square but that one. `None` where there is no such line.
pub fn find_completing_move(board: &Board, mark: Cell) -> (r: Option<usize>)
    requires
        board.wf(),
    ensures
        match r {
            Some(p) => board@.can_complete(mark) && p == board@.completing_move(mark),
            None => !board@.can_complete(mark),
        },
{
    let n = board.size();
    proof {
        board.lemma_fits();
        board@.lemma_line_bounds();
    }
    let count = 2 * n + 2;
    let mut k: usize = 0;
    while k < count
        invariant
            board.wf(),
            n == board@.size,
            n * n == board@.cells.len(),
            n * n <= usize::MAX,
            count == line_count(n as int),
            k <= count,
            forall|j: int| 0 <= j < k ==> !board@.completable(mark, j),
        decreases count - k,
    {
        match line_gap(board, mark, k) {
            Some(i) => {
                proof {
                    board@.lemma_first_completion_unique(mark, k as int, i as int);
                }
                return Some(line_position(n, k, i));
            },
            None => {},
        }
        k += 1;
    }
    None
}

/// The empty squares in increasing order: those inside the outer ring where
/// `inner` is set, all of them where it is not.
pub fn open_positions(board: &Board, inner: bool) -> (v: Vec<usize>)
    requires
        board.wf(),
    ensures
        positions(v@) == board@.open_cells(inner),
{
    let n = board.size();
    let count = board.cell_count();
    let mut v: Vec<usize> = Vec::new();
    let mut p: usize = 0;
    while p < count
        invariant
            board.wf(),
            n == board@.size,
            count == n * n,
            count == board@.cells.len(),
            p <= count,
            positions(v@) == board@.open_below(inner, p as int),
        decreases count - p,
    {
        let wanted = board.cell(p) == Cell::Empty && (!inner || central(n, p));
        if wanted {
            v.push(p);
        }
        p += 1;
    }
    v
}

/// The moves among which chance decides for the player `own` against
/// `opponent`, in increasing order.
pub fn move_candidates(board: &Board, own: Cell, opponent: Cell) -> (v: Vec<usize>)
    requires
        board.wf(),
    ensures
        positions(v@) == board@.candidates(own, opponent),
{
    let mut v: Vec<usize> = Vec::new();
    if let Some(p) = find_completing_move(board, own) {
        v.push(p);
        return v;
    }
    if let Some(p) = find_completing_move(board, opponent) {
        v.push(p);
        return v;
    }
    let inner = open_positions(board, true);
    if inner.len() > 0 {
        return inner;
    }
    open_positions(board, false)
}

/// The move of the player `own` against `opponent` where chance comes out
/// as `roll`: the candidate whose index is `roll` modulo the number of
/// candidates.
pub fn select_move_with(board: &Board, own: Cell, opponent: Cell, roll: usize) -> (position: usize)
    requires
        board.wf(),
        !board@.is_full(),
    ensures
        position == board@.candidates(own, opponent)[roll as int % board@.candidates(
            own,
            opponent,
        ).len() as int],
        board@.is_valid_move(position as int),
{
    let v = move_candidates(board, own, opponent);
    proof {
        board@.lemma_candidates_are_moves(own, opponent);
    }
    let index = roll % v.len();
    assert(positions(v@)[index as int] == v@[index as int]);
    v[index]
}

/// The move of the player `own` against `opponent`: the winning move where
/// one move wins, else the move that stops the opponent from winning with
/// their next, else an empty square inside the outer ring, else any empty
/// square. Where several squares are equally good, one of them is drawn at
/// random.
pub fn select_move(board: &Board, own: Cell, opponent: Cell) -> (position: usize)
    requires
        board.wf(),
        !board@.is_full(),
    ensures
        board@.candidates(own, opponent).contains(position as int),
        board@.is_valid_move(position as int),
        board@.can_complete(own) ==> position == board@.completing_move(own),
        !board@.can_complete(own) && board@.can_complete(opponent) ==> position
            == board@.completing_move(opponent),
{
    let v = move_candidates(board, own, opponent);
    proof {
        board@.lemma_candidates_are_moves(own, opponent);
    }
    let index = if v.len() == 1 {
        0
    } else {
        random_below(v.len())
    };
    assert(positions(v@)[index as int] == v@[index as int]);
    v[index]
}

/// Draws an index from the thread's random generator: `rand::Rng::gen_range`
/// on `rand::thread_rng()`, over the range from zero up to `bound`, `bound`
/// itself left out. The generator refuses an empty range, so `bound` is
/// positive; it hands back a value of the range it was given. Which one is
/// up to chance, and nothing more is claimed of it: two draws with the same
/// bound may differ. The generator is seeded by the operating system when a
/// thread first draws from it, and stops the program if the system has no
/// seed to give.
#[verifier::external_body]
fn random_below(bound: usize) -> (index: usize)
    requires
        bound > 0,
    ensures
        index < bound,
{
    rand::thread_rng().gen_range(0..bound)
}

} // verus!
