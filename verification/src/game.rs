//! The session: whose turn it is, what a turn does to the game, and how the
//! game ends.
//!
//! A game is in progress until a turn ends it. A turn is either a request to
//! quit, which ends the game at once, or a position. A position that is not
//! a legal move is turned down and changes nothing. A legal move is made for
//! the player whose turn it is; if it completes a line the game is won, else
//! if it fills the board the game is drawn, else the turn passes to the other
//! player. A game that has ended takes no more turns: to play again, a new
//! game is made.

use vstd::prelude::*;
use crate::board::{Board, BoardView};
use crate::cell::Cell;
use crate::error::GameError;
use crate::lines::positions;
use crate::selector::{find_completing_move, select_move};

verus! {

/// Who plays `O`: a second player, or the computer.
#[derive(Clone, Copy, PartialEq, Eq, Structural, Debug)]
pub enum GameMode {
    PlayerVsPlayer,
    PlayerVsComputer,
}

/// What a player can answer when asked for a move.
#[derive(Clone, Copy, PartialEq, Eq, Structural, Debug)]
pub enum PlayerInput {
    /// Give the game up.
    Quit,
    /// Put the mark on this position.
    Position(usize),
}

/// How far the game has come.
#[derive(Clone, Debug)]
pub enum GameState {
    InProgress,
    /// The mark that won, and the positions of its line.
    Won(Cell, Vec<usize>),
    Draw,
    Quit,
}

/// How far the game has come, as a mathematical value.
pub enum Status {
    InProgress,
    Won(Cell, Seq<int>),
    Draw,
    Quit,
}

impl View for GameState {
    type V = Status;

    open spec fn view(&self) -> Status {
        match *self {
            GameState::InProgress => Status::InProgress,
            GameState::Won(mark, pattern) => Status::Won(mark, positions(pattern@)),
            GameState::Draw => Status::Draw,
            GameState::Quit => Status::Quit,
        }
    }
}

/// The mark of the player who makes move number `turn`, counted from zero,
/// in a run of moves that `first` begins.
pub open spec fn mover(first: Cell, turn: int) -> Cell {
    if turn % 2 == 0 {
        first
    } else {
        first.other()
    }
}

/// A game as a mathematical value.
pub struct GameView {
    pub board: BoardView,
    pub current_player: Cell,
    pub mode: GameMode,
    pub status: Status,
}

impl GameView {
    /// What holds of every game: the board is well formed, the turn is a
    /// player's, a won game names the winner and the winner's first full
    /// line, and a drawn game has a full board.
    pub open spec fn wf(self) -> bool {
        &&& self.board.wf()
        &&& self.current_player != Cell::Empty
        &&& match self.status {
            Status::Won(mark, pattern) => {
                &&& mark != Cell::Empty
                &&& self.board.winning_pattern(mark) == Some(pattern)
            },
            Status::Draw => self.board.is_full(),
            _ => true,
        }
    }

    /// The game before the first move: an empty board, and `X` to move.
    pub open spec fn fresh(size: int, mode: GameMode) -> GameView {
        GameView {
            board: BoardView::empty(size),
            current_player: Cell::X,
            mode,
            status: Status::InProgress,
        }
    }

    /// The game has not ended.
    pub open spec fn is_active(self) -> bool {
        self.status is InProgress
    }

    /// The next move is the computer's: it plays `O` against one player.
    pub open spec fn computer_to_move(self) -> bool {
        self.mode == GameMode::PlayerVsComputer && self.current_player == Cell::O
    }

    /// Whether a turn is taken, and if not, why not.
    pub open spec fn turn_result(self, input: PlayerInput) -> Result<(), GameError> {
        match input {
            PlayerInput::Quit => Ok(()),
            PlayerInput::Position(p) => if p >= self.board.size * self.board.size {
                Err(GameError::OutOfRange)
            } else if self.board.cells[p as int] != Cell::Empty {
                Err(GameError::CellOccupied)
            } else {
                Ok(())
            },
        }
    }

    /// The game after the player to move has put their mark on `position`:
    /// won if that gives the player a line, else drawn if it fills the board,
    /// else in progress with the other player to move.
    pub open spec fn after_move(self, position: int) -> GameView {
        let mover = self.current_player;
        let board = self.board.apply_move(position, mover);
        if board.has_win(mover) {
            GameView {
                board,
                status: Status::Won(mover, board.winning_pattern(mover)->0),
                ..self
            }
        } else if board.is_full() {
            GameView { board, status: Status::Draw, ..self }
        } else {
            GameView { board, current_player: mover.other(), ..self }
        }
    }

    /// The game after a turn: ended by a request to quit, changed by a legal
    /// move, and as it was after anything else.
    pub open spec fn after_turn(self, input: PlayerInput) -> GameView {
        match input {
            PlayerInput::Quit => GameView { status: Status::Quit, ..self },
            PlayerInput::Position(p) => if self.board.is_valid_move(p as int) {
                self.after_move(p as int)
            } else {
                self
            },
        }
    }

    /// The game after the moves `moves`, made one after the other.
    pub open spec fn after_moves(self, moves: Seq<int>) -> GameView
        decreases moves.len(),
    {
        if moves.len() == 0 {
            self
        } else {
            self.after_moves(moves.drop_last()).after_move(moves.last())
        }
    }

    /// Each of `moves` is taken in its turn: when it is made the game is in
    /// progress and the move is legal.
    pub open spec fn accepts(self, moves: Seq<int>) -> bool
        decreases moves.len(),
    {
        if moves.len() == 0 {
            true
        } else {
            let before = self.after_moves(moves.drop_last());
            &&& self.accepts(moves.drop_last())
            &&& before.is_active()
            &&& before.board.is_valid_move(moves.last())
        }
    }

    /// A new game is well formed and in progress, and every square is still
    /// to be played.
    pub proof fn lemma_fresh(size: int, mode: GameMode)
        requires
            size >= 3,
        ensures
            GameView::fresh(size, mode).wf(),
            GameView::fresh(size, mode).is_active(),
            GameView::fresh(size, mode).current_player == Cell::X,
            !GameView::fresh(size, mode).board.is_full(),
            GameView::fresh(size, mode).board.moves_left() == size * size,
    {
        BoardView::lemma_empty_board(size);
    }

    /// A legal move in a game in progress leaves a well-formed game with one
    /// move fewer to be made. If the game is still in progress after it, the
    /// turn has passed to the other player, the board is not full, and the
    /// player who moved has no line.
    pub proof fn lemma_after_move(self, position: int)
        requires
            self.wf(),
            self.is_active(),
            self.board.is_valid_move(position),
        ensures
            self.after_move(position).wf(),
            self.after_move(position).mode == self.mode,
            self.after_move(position).board == self.board.apply_move(
                position,
                self.current_player,
            ),
            self.after_move(position).board.moves_left() + 1 == self.board.moves_left(),
            self.after_move(position).is_active() ==> {
                &&& self.after_move(position).current_player == self.current_player.other()
                &&& !self.after_move(position).board.is_full()
                &&& !self.after_move(position).board.has_win(self.current_player)
            },
    {
        self.board.lemma_move_fills_one_square(position, self.current_player);
    }

    /// The order of play. Of any run of moves that are taken in their turn:
    /// the players alternate, beginning with the player to move, so no two
    /// moves in a row are made by the same mark; every mark stays where it
    /// was put; each move takes one of the moves that were left, so the run
    /// is no longer than the board has squares; and while the game is in
    /// progress the player to move is the one whose turn comes next.
    pub proof fn lemma_turns_alternate(self, moves: Seq<int>)
        requires
            self.wf(),
            self.accepts(moves),
        ensures
            self.after_moves(moves).wf(),
            self.after_moves(moves).board.size == self.board.size,
            self.after_moves(moves).board.moves_left() + moves.len() == self.board.moves_left(),
            moves.len() <= self.board.size * self.board.size,
            forall|t: int|
                0 <= t < moves.len() ==> 0 <= #[trigger] moves[t] < self.board.size
                    * self.board.size && self.after_moves(moves).board.cells[moves[t]] == mover(
                    self.current_player,
                    t,
                ),
            forall|t: int, u: int|
                0 <= t < moves.len() && u == t + 1 && u < moves.len() ==> self.after_moves(
                    moves,
                ).board.cells[#[trigger] moves[t]] != self.after_moves(
                    moves,
                ).board.cells[#[trigger] moves[u]],
            self.after_moves(moves).is_active() ==> self.after_moves(moves).current_player
                == mover(self.current_player, moves.len() as int),
        decreases moves.len(),
    {
        self.board.lemma_full_means_no_moves_left();
        if moves.len() > 0 {
            let earlier = moves.drop_last();
            let before = self.after_moves(earlier);
            let end = self.after_moves(moves);
            self.lemma_turns_alternate(earlier);
            before.lemma_after_move(moves.last());
            assert forall|t: int| 0 <= t < moves.len() implies 0 <= #[trigger] moves[t]
                < self.board.size * self.board.size && end.board.cells[moves[t]] == mover(
                self.current_player,
                t,
            ) by {
                if t < earlier.len() {
                    assert(moves[t] == earlier[t]);
                    assert(before.board.cells[earlier[t]] != Cell::Empty);
                }
            }
        }
    }

    /// A request to quit ends the game, whoever is to move, and changes
    /// neither the board nor whose turn it was.
    pub proof fn lemma_quit_keeps_board(self)
        ensures
            self.after_turn(PlayerInput::Quit).status is Quit,
            !self.after_turn(PlayerInput::Quit).is_active(),
            self.after_turn(PlayerInput::Quit).board == self.board,
            self.after_turn(PlayerInput::Quit).current_player == self.current_player,
            self.after_turn(PlayerInput::Quit).mode == self.mode,
            self.wf() ==> self.after_turn(PlayerInput::Quit).wf(),
    {
    }
}

/// One game, from the empty board to its end.
#[derive(Clone, Debug)]
pub struct Game {
    board: Board,
    current_player: Cell,
    game_mode: GameMode,
    state: GameState,
}

impl View for Game {
    type V = GameView;

    closed spec fn view(&self) -> GameView {
        GameView {
            board: self.board@,
            current_player: self.current_player,
            mode: self.game_mode,
            status: self.state@,
        }
    }
}

impl Game {
    /// What holds of every game: see [`GameView::wf`].
    pub open spec fn wf(&self) -> bool {
        self@.wf()
    }

    /// A new game on an empty board of side `size`, with `X` to move. A side
    /// under three is refused.
    pub fn new(size: usize, mode: GameMode) -> (r: Result<Game, GameError>)
        requires
            size * size <= usize::MAX,
        ensures
            match r {
                Ok(game) => size >= 3 && game.wf() && game@ == GameView::fresh(size as int, mode),
                Err(e) => size < 3 && e == GameError::InvalidSize,
            },
    {
        match Board::new(size) {
            Ok(board) => Ok(
                Game {
                    board,
                    current_player: Cell::X,
                    game_mode: mode,
                    state: GameState::InProgress,
                },
            ),
            Err(e) => Err(e),
        }
    }

    /// The board.
    pub fn board(&self) -> (board: &Board)
        ensures
            board@ == self@.board,
            self.wf() ==> board.wf(),
    {
        &self.board
    }

    /// The mark of the player whose turn it is.
    pub fn current_player(&self) -> (mark: Cell)
        ensures
            mark == self@.current_player,
    {
        self.current_player
    }

    /// Who plays `O`.
    pub fn game_mode(&self) -> (mode: GameMode)
        ensures
            mode == self@.mode,
    {
        self.game_mode
    }

    /// How far the game has come.
    pub fn state(&self) -> (state: &GameState)
        ensures
            state@ == self@.status,
    {
        &self.state
    }

    /// Whether the game is still in progress.
    pub fn is_active(&self) -> (b: bool)
        ensures
            b == self@.is_active(),
    {
        match self.state {
            GameState::InProgress => true,
            _ => false,
        }
    }

    /// Whether the next move is the computer's.
    pub fn computer_to_move(&self) -> (b: bool)
        ensures
            b == self@.computer_to_move(),
    {
        self.game_mode == GameMode::PlayerVsComputer && self.current_player == Cell::O
    }

    /// Whether `position` is on the board and empty.
    pub fn is_valid_move(&self, position: usize) -> (b: bool)
        requires
            self.wf(),
        ensures
            b == self@.board.is_valid_move(position as int),
    {
        self.board.is_valid_move(position)
    }

    /// Puts the mark of the player to move on `position`, and nothing else:
    /// whose turn it is and how far the game has come stay as they were.
    pub fn make_move(&mut self, position: usize)
        requires
            old(self).wf(),
            old(self)@.is_active(),
            old(self)@.board.is_valid_move(position as int),
        ensures
            final(self).wf(),
            final(self)@ == (GameView {
                board: old(self)@.board.apply_move(position as int, old(self)@.current_player),
                ..old(self)@
            }),
    {
        self.board.apply_move(position, self.current_player);
    }

    /// The first line that the player to move holds on every square, or
    /// `None` where they hold none.
    pub fn check_winner(&self) -> (r: Option<Vec<usize>>)
        requires
            self.wf(),
        ensures
            match r {
                Some(pattern) => Some(positions(pattern@)) == self@.board.winning_pattern(
                    self@.current_player,
                ),
                None => self@.board.winning_pattern(self@.current_player) is None,
            },
    {
        self.board.winning_pattern(self.current_player)
    }

    /// Whether no square is empty.
    pub fn is_board_full(&self) -> (b: bool)
        requires
            self.wf(),
        ensures
            b == self@.board.is_full(),
    {
        self.board.is_full()
    }

    /// The move with which `player` completes a line: the empty square of the
    /// first line on which `player` holds every other square, or `None` where
    /// there is no such line.
    pub fn find_best_move(&self, player: Cell) -> (r: Option<usize>)
        requires
            self.wf(),
        ensures
            match r {
                Some(p) => self@.board.can_complete(player) && p == self@.board.completing_move(
                    player,
                ),
                None => !self@.board.can_complete(player),
            },
    {
        find_completing_move(&self.board, player)
    }

    /// The move that the computer selects for the player whose turn it is,
    /// against the other player: see [`select_move`].
    pub fn get_computer_move(&self) -> (position: usize)
        requires
            self.wf(),
            !self@.board.is_full(),
        ensures
            self@.board.candidates(self@.current_player, self@.current_player.other()).contains(
                position as int,
            ),
            self@.board.is_valid_move(position as int),
            self@.board.can_complete(self@.current_player) ==> position
                == self@.board.completing_move(self@.current_player),
            !self@.board.can_complete(self@.current_player) && self@.board.can_complete(
                self@.current_player.other(),
            ) ==> position == self@.board.completing_move(self@.current_player.other()),
    {
        select_move(&self.board, self.current_player, self.current_player.opponent())
    }

    /// Passes the turn to the other player.
    pub fn switch_player(&mut self)
        requires
            old(self).wf(),
        ensures
            final(self).wf(),
            final(self)@ == (GameView {
                current_player: old(self)@.current_player.other(),
                ..old(self)@
            }),
    {
        self.current_player = self.current_player.opponent();
    }

    /// Takes one turn of a game in progress.
    ///
    /// A request to quit ends the game and leaves the board alone. A position
    /// off the board, or on a square that holds a mark, is turned down, and
    /// the game stays as it was. Any other position is a move of the player
    /// whose turn it is: it wins the game if it completes a line, draws it if
    /// it fills the board, and else passes the turn.
    pub fn play_turn(&mut self, input: PlayerInput) -> (r: Result<(), GameError>)
        requires
            old(self).wf(),
            old(self)@.is_active(),
        ensures
            final(self).wf(),
            r == old(self)@.turn_result(input),
            final(self)@ == old(self)@.after_turn(input),
    {
        match input {
            PlayerInput::Quit => {
                self.state = GameState::Quit;
                Ok(())
            },
            PlayerInput::Position(position) => {
                if position >= self.board.cell_count() {
                    return Err(GameError::OutOfRange);
                }
                if self.board.cell(position) != Cell::Empty {
                    return Err(GameError::CellOccupied);
                }
                self.make_move(position);
                match self.check_winner() {
                    Some(pattern) => {
                        self.state = GameState::Won(self.current_player, pattern);
                    },
                    None => {
                        if self.is_board_full() {
                            self.state = GameState::Draw;
                        } else {
                            self.switch_player();
                        }
                    },
                }
                Ok(())
            },
        }
    }

    /// Takes one turn of a game in progress for the player whose turn it is,
    /// with the move that the computer selects, and names the move. What the
    /// move does to the game is what [`Game::play_turn`] does with a legal
    /// position.
    pub fn play_computer_turn(&mut self) -> (position: usize)
        requires
            old(self).wf(),
            old(self)@.is_active(),
            !old(self)@.board.is_full(),
        ensures
            final(self).wf(),
            old(self)@.board.candidates(
                old(self)@.current_player,
                old(self)@.current_player.other(),
            ).contains(position as int),
            old(self)@.board.is_valid_move(position as int),
            final(self)@ == old(self)@.after_move(position as int),
    {
        let position = self.get_computer_move();
        let _ = self.play_turn(PlayerInput::Position(position));
        position
    }
}

} // verus!
