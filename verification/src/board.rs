//! The board: its squares, the moves that are legal on it, and the tests for
//! a win and for a full board.

use vstd::prelude::*;
use crate::cell::Cell;
use crate::error::GameError;
use crate::lines::{
    lemma_line_cell_on_board, line, line_cell, line_count, line_position, line_positions, positions,
};

verus! {

/// The board as a mathematical value: the length of a side and the squares,
/// row by row.
pub struct BoardView {
    pub size: int,
    pub cells: Seq<Cell>,
}

impl BoardView {
    /// A board has at least three squares to a side, and `size * size` squares.
    pub open spec fn wf(self) -> bool {
        &&& self.size >= 3
        &&& self.cells.len() == self.size * self.size
    }

    /// The board of side `size` on which nobody has moved yet.
    pub open spec fn empty(size: int) -> BoardView {
        BoardView { size, cells: Seq::new((size * size) as nat, |p: int| Cell::Empty) }
    }

    /// A move is legal where the position is on the board and the square is
    /// empty.
    pub open spec fn is_valid_move(self, position: int) -> bool {
        &&& 0 <= position < self.size * self.size
        &&& self.cells[position] == Cell::Empty
    }

    /// The board after `mark` was put on `position`.
    pub open spec fn apply_move(self, position: int, mark: Cell) -> BoardView {
        BoardView { size: self.size, cells: self.cells.update(position, mark) }
    }

    /// No square is empty.
    pub open spec fn is_full(self) -> bool {
        forall|p: int| 0 <= p < self.cells.len() ==> self.cells[p] != Cell::Empty
    }

    /// Every square of line `k` holds `mark`.
    pub open spec fn owns_line(self, mark: Cell, k: int) -> bool {
        forall|i: int|
            0 <= i < self.size ==> self.cells[#[trigger] line_cell(self.size, k, i)] == mark
    }

    /// Some line holds `mark` on every square.
    pub open spec fn has_win(self, mark: Cell) -> bool {
        exists|k: int| 0 <= k < line_count(self.size) && self.owns_line(mark, k)
    }

    /// `k` is the first line, in scan order, that holds `mark` on every square.
    pub open spec fn is_first_owned_line(self, mark: Cell, k: int) -> bool {
        &&& 0 <= k < line_count(self.size)
        &&& self.owns_line(mark, k)
        &&& forall|j: int| 0 <= j < k ==> !self.owns_line(mark, j)
    }

    /// The first line, in scan order, that holds `mark` on every square, where
    /// there is one: see [`BoardView::lemma_winning_line`].
    pub open spec fn winning_line(self, mark: Cell) -> int {
        choose|k: int| self.is_first_owned_line(mark, k)
    }

    /// The positions of the first line that `mark` owns, or nothing where it
    /// owns none.
    pub open spec fn winning_pattern(self, mark: Cell) -> Option<Seq<int>> {
        if self.has_win(mark) {
            Some(line(self.size, self.winning_line(mark)))
        } else {
            None
        }
    }

    /// The number of empty squares among the first `upto`.
    pub open spec fn empty_count(self, upto: int) -> nat
        decreases upto,
    {
        if upto <= 0 {
            0
        } else if self.cells[upto - 1] == Cell::Empty {
            self.empty_count(upto - 1) + 1
        } else {
            self.empty_count(upto - 1)
        }
    }

    /// The number of moves that can still be made.
    pub open spec fn moves_left(self) -> nat {
        self.empty_count(self.size * self.size)
    }

    /// The lines of a board are fewer than its squares, and their squares lie
    /// on the board.
    pub proof fn lemma_line_bounds(self)
        requires
            self.wf(),
        ensures
            line_count(self.size) < self.size * self.size,
            forall|k: int, i: int|
                0 <= k < line_count(self.size) && 0 <= i < self.size ==> 0 <= #[trigger] line_cell(
                    self.size,
                    k,
                    i,
                ) < self.cells.len(),
    {
        let n = self.size;
        assert(3 * n <= n * n) by (nonlinear_arith)
            requires
                3 <= n,
        ;
        assert forall|k: int, i: int| 0 <= k < line_count(n) && 0 <= i < n implies 0
            <= #[trigger] line_cell(n, k, i) < self.cells.len() by {
            lemma_line_cell_on_board(n, k, i);
        }
    }

    /// On the board on which nobody has moved, every square is empty, every
    /// move is legal and still to be made, and no player owns a line.
    pub proof fn lemma_empty_board(size: int)
        requires
            size >= 3,
        ensures
            BoardView::empty(size).wf(),
            forall|p: int| 0 <= p < size * size ==> BoardView::empty(size).cells[p] == Cell::Empty,
            forall|p: int| 0 <= p < size * size ==> BoardView::empty(size).is_valid_move(p),
            !BoardView::empty(size).is_full(),
            BoardView::empty(size).moves_left() == size * size,
            forall|mark: Cell|
                mark != Cell::Empty ==> BoardView::empty(size).winning_pattern(mark) is None,
    {
        let board = BoardView::empty(size);
        assert(size * size >= 9) by (nonlinear_arith)
            requires
                size >= 3,
        ;
        board.lemma_line_bounds();
        assert forall|mark: Cell| mark != Cell::Empty implies board.winning_pattern(
            mark,
        ) is None by {
            assert forall|k: int| 0 <= k < line_count(size) implies !board.owns_line(mark, k) by {
                assert(board.cells[line_cell(size, k, 0)] == Cell::Empty);
            }
        }
        board.lemma_all_empty_count(size * size);
    }

    /// Where a mark owns a line, `winning_line` is the first line that it
    /// owns: the mark owns no line before it.
    pub proof fn lemma_winning_line(self, mark: Cell)
        requires
            self.has_win(mark),
        ensures
            self.is_first_owned_line(mark, self.winning_line(mark)),
            self.winning_pattern(mark) == Some(line(self.size, self.winning_line(mark))),
    {
        let k = choose|k: int| 0 <= k < line_count(self.size) && self.owns_line(mark, k);
        self.least_owned_line(mark, k);
    }

    /// Only one line can be the first that `mark` owns, and `winning_line`
    /// names it.
    pub proof fn lemma_first_owned_line_unique(self, mark: Cell, k: int)
        requires
            self.is_first_owned_line(mark, k),
        ensures
            self.has_win(mark),
            self.winning_line(mark) == k,
    {
    }

    /// A board is full exactly when no move is left on it; there are never
    /// more moves left than squares.
    pub proof fn lemma_full_means_no_moves_left(self)
        requires
            self.wf(),
        ensures
            self.moves_left() <= self.size * self.size,
            self.is_full() <==> self.moves_left() == 0,
    {
        self.lemma_empty_count_zero(self.size * self.size);
    }

    /// A legal move changes the square that it names and no other, so a mark,
    /// once placed, stays; and a player's mark leaves one move fewer.
    pub proof fn lemma_move_fills_one_square(self, position: int, mark: Cell)
        requires
            self.wf(),
            self.is_valid_move(position),
        ensures
            self.apply_move(position, mark).wf(),
            self.apply_move(position, mark).cells[position] == mark,
            forall|p: int|
                0 <= p < self.size * self.size && p != position ==> self.apply_move(
                    position,
                    mark,
                ).cells[p] == self.cells[p],
            forall|p: int|
                0 <= p < self.size * self.size && self.cells[p] != Cell::Empty ==> self.apply_move(
                    position,
                    mark,
                ).cells[p] == self.cells[p],
            mark != Cell::Empty ==> self.apply_move(position, mark).moves_left() + 1
                == self.moves_left(),
    {
        if mark != Cell::Empty {
            self.lemma_empty_count_after_move(position, mark, self.size * self.size);
        }
    }

    /// The first line that `mark` owns, given one that it owns.
    proof fn least_owned_line(self, mark: Cell, k: int) -> (least: int)
        requires
            0 <= k < line_count(self.size),
            self.owns_line(mark, k),
        ensures
            self.is_first_owned_line(mark, least),
        decreases k,
    {
        if exists|j: int| 0 <= j < k && self.owns_line(mark, j) {
            let j = choose|j: int| 0 <= j < k && self.owns_line(mark, j);
            self.least_owned_line(mark, j)
        } else {
            k
        }
    }

    /// Where the first `upto` squares are all empty, `upto` empty squares are
    /// counted among them.
    proof fn lemma_all_empty_count(self, upto: int)
        requires
            0 <= upto <= self.cells.len(),
            forall|p: int| 0 <= p < upto ==> self.cells[p] == Cell::Empty,
        ensures
            self.empty_count(upto) == upto,
        decreases upto,
    {
        if upto > 0 {
            self.lemma_all_empty_count(upto - 1);
        }
    }

    /// No empty square is counted exactly where there is none, and never more
    /// than there are squares.
    proof fn lemma_empty_count_zero(self, upto: int)
        requires
            0 <= upto <= self.cells.len(),
        ensures
            self.empty_count(upto) <= upto,
            self.empty_count(upto) == 0 <==> forall|p: int|
                0 <= p < upto ==> self.cells[p] != Cell::Empty,
        decreases upto,
    {
        if upto > 0 {
            self.lemma_empty_count_zero(upto - 1);
        }
    }

    /// A player's mark on an empty square takes one from the count of empty
    /// squares, if the square is among those counted.
    proof fn lemma_empty_count_after_move(self, position: int, mark: Cell, upto: int)
        requires
            0 <= position < self.cells.len(),
            self.cells[position] == Cell::Empty,
            mark != Cell::Empty,
            0 <= upto <= self.cells.len(),
        ensures
            self.apply_move(position, mark).empty_count(upto) + (if position < upto {
                1int
            } else {
                0int
            }) == self.empty_count(upto),
        decreases upto,
    {
        if upto > 0 {
            self.lemma_empty_count_after_move(position, mark, upto - 1);
        }
    }
}

/// An N by N board. Its side is fixed when it is made; a square, once
/// marked, keeps its mark.
#[derive(Clone, Debug)]
pub struct Board {
    size: usize,
    cells: Vec<Cell>,
}

impl View for Board {
    type V = BoardView;

    closed spec fn view(&self) -> BoardView {
        BoardView { size: self.size as int, cells: self.cells@ }
    }
}

impl Board {
    /// What holds of every board: see [`BoardView::wf`].
    pub open spec fn wf(&self) -> bool {
        self@.wf()
    }

    /// The squares of a board, and so its lines, can be counted in machine
    /// integers.
    pub proof fn lemma_fits(&self)
        requires
            self.wf(),
        ensures
            self@.size * self@.size <= usize::MAX,
            line_count(self@.size) < self@.size * self@.size,
    {
        self@.lemma_line_bounds();
        assert(self.cells.len() == self.cells@.len());
    }

    /// A board of side `size` with every square empty. A side under three is
    /// refused: on such a board a win could not be told from a full board.
    pub fn new(size: usize) -> (r: Result<Board, GameError>)
        requires
            size * size <= usize::MAX,
        ensures
            match r {
                Ok(board) => {
                    &&& size >= 3
                    &&& board.wf()
                    &&& board@ == BoardView::empty(size as int)
                    &&& !board@.is_full()
                },
                Err(e) => size < 3 && e == GameError::InvalidSize,
            },
    {
        if size < 3 {
            return Err(GameError::InvalidSize);
        }
        proof {
            BoardView::lemma_empty_board(size as int);
        }
        let count = size * size;
        let mut cells: Vec<Cell> = Vec::new();
        let mut p: usize = 0;
        while p < count
            invariant
                p <= count,
                cells@.len() == p,
                forall|q: int| 0 <= q < p ==> cells@[q] == Cell::Empty,
            decreases count - p,
        {
            cells.push(Cell::Empty);
            p += 1;
        }
        let board = Board { size, cells };
        assert(board@.cells =~= BoardView::empty(size as int).cells);
        Ok(board)
    }

    /// The length of a side.
    pub fn size(&self) -> (n: usize)
        ensures
            n == self@.size,
    {
        self.size
    }

    /// The number of squares.
    pub fn cell_count(&self) -> (n: usize)
        requires
            self.wf(),
        ensures
            n == self@.size * self@.size,
            n == self@.cells.len(),
    {
        self.cells.len()
    }

    /// The squares, row by row.
    pub fn cells(&self) -> (cells: &Vec<Cell>)
        ensures
            cells@ == self@.cells,
    {
        &self.cells
    }

    /// What the square at `position` holds.
    pub fn cell(&self, position: usize) -> (c: Cell)
        requires
            self.wf(),
            position < self@.size * self@.size,
        ensures
            c == self@.cells[position as int],
    {
        self.cells[position]
    }

    /// Whether a mark may be put on `position`: the position is on the board
    /// and the square is empty.
    pub fn is_valid_move(&self, position: usize) -> (b: bool)
        requires
            self.wf(),
        ensures
            b == self@.is_valid_move(position as int),
    {
        position < self.cells.len() && self.cells[position] == Cell::Empty
    }

    /// Puts `mark` on the empty square at `position`. Every other square
    /// stays as it was.
    pub fn apply_move(&mut self, position: usize, mark: Cell)
        requires
            old(self).wf(),
            old(self)@.is_valid_move(position as int),
        ensures
            final(self).wf(),
            final(self)@ == old(self)@.apply_move(position as int, mark),
    {
        self.cells.set(position, mark);
    }

    /// Whether no square is empty.
    pub fn is_full(&self) -> (b: bool)
        requires
            self.wf(),
        ensures
            b == self@.is_full(),
    {
        let mut p: usize = 0;
        while p < self.cells.len()
            invariant
                p <= self.cells@.len(),
                forall|q: int| 0 <= q < p ==> self.cells@[q] != Cell::Empty,
            decreases self.cells@.len() - p,
        {
            if self.cells[p] == Cell::Empty {
                return false;
            }
            p += 1;
        }
        true
    }

    /// Whether every square of line `k` holds `mark`.
    pub fn owns_line(&self, mark: Cell, k: usize) -> (b: bool)
        requires
            self.wf(),
            k < line_count(self@.size),
        ensures
            b == self@.owns_line(mark, k as int),
    {
        let n = self.size;
        let mut i: usize = 0;
        proof {
            self.lemma_fits();
        }
        while i < n
            invariant
                self.wf(),
                n == self.size,
                n * n <= usize::MAX,
                k < line_count(n as int),
                i <= n,
                forall|j: int|
                    0 <= j < i ==> self.cells@[#[trigger] line_cell(n as int, k as int, j)] == mark,
            decreases n - i,
        {
            let p = line_position(n, k, i);
            if self.cells[p] != mark {
                return false;
            }
            i += 1;
        }
        true
    }

    /// The first line, rows before columns before diagonals, on which every
    /// square holds `mark`: its positions in increasing order, or `None` where
    /// there is no such line.
    pub fn winning_pattern(&self, mark: Cell) -> (r: Option<Vec<usize>>)
        requires
            self.wf(),
        ensures
            match r {
                Some(pattern) => Some(positions(pattern@)) == self@.winning_pattern(mark),
                None => self@.winning_pattern(mark) is None,
            },
    {
        let n = self.size;
        proof {
            self.lemma_fits();
        }
        let count = 2 * n + 2;
        let mut k: usize = 0;
        while k < count
            invariant
                self.wf(),
                n == self.size,
                n * n <= usize::MAX,
                count == line_count(n as int),
                k <= count,
                forall|j: int| 0 <= j < k ==> !self@.owns_line(mark, j),
            decreases count - k,
        {
            if self.owns_line(mark, k) {
                proof {
                    self@.lemma_first_owned_line_unique(mark, k as int);
                }
                return Some(line_positions(n, k));
            }
            k += 1;
        }
        None
    }
}

} // verus!
