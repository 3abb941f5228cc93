use vstd::prelude::*;

verus! {

/// What one square of the board holds: nothing, or the mark of one of the
/// two players. `X` moves first.
#[derive(Clone, Copy, PartialEq, Eq, Structural, Debug)]
pub enum Cell {
    Empty,
    X,
    O,
}

impl Cell {
    /// The mark of the other player. `Empty` belongs to nobody and is its own
    /// counterpart.
    pub open spec fn other(self) -> Cell {
        match self {
            Cell::X => Cell::O,
            Cell::O => Cell::X,
            Cell::Empty => Cell::Empty,
        }
    }

    /// The text that stands for the mark: one character.
    pub open spec fn label(self) -> Seq<char> {
        match self {
            Cell::Empty => seq![' '],
            Cell::X => seq!['X'],
            Cell::O => seq!['O'],
        }
    }

    /// The one-character name of the mark: a blank, `X` or `O`.
    pub fn to_string(&self) -> (s: &str)
        ensures
            s@ == self.label(),
    {
        match self {
            Cell::Empty => {
                proof {
                    reveal_strlit(" ");
                }
                " "
            },
            Cell::X => {
                proof {
                    reveal_strlit("X");
                }
                "X"
            },
            Cell::O => {
                proof {
                    reveal_strlit("O");
                }
                "O"
            },
        }
    }

    /// The mark that moves after this one.
    pub fn opponent(self) -> (r: Cell)
        ensures
            r == self.other(),
    {
        match self {
            Cell::X => Cell::O,
            Cell::O => Cell::X,
            Cell::Empty => Cell::Empty,
        }
    }

    /// Whether this is the mark of a player.
    pub fn is_player(self) -> (b: bool)
        ensures
            b == (self != Cell::Empty),
    {
        match self {
            Cell::Empty => false,
            _ => true,
        }
    }
}

} // verus!
