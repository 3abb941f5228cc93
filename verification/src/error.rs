use vstd::prelude::*;

verus! {

/// Why the engine turned a request down.
#[derive(Clone, Copy, PartialEq, Eq, Structural, Debug)]
pub enum GameError {
    /// A board was asked for with fewer than three squares to a side.
    InvalidSize,
    /// A move named a position that is not on the board.
    OutOfRange,
    /// A move named a square that already holds a mark.
    CellOccupied,
    /// A line of input was neither a position nor a request to quit.
    MalformedInput,
}

} // verus!
