//! An N-in-a-row board game engine: the board and its rules, the computer
//! opponent's move selection, and the session that orders the turns.

pub mod cell;
pub mod error;
pub mod lines;
pub mod board;
pub mod selector;
pub mod game;
pub mod input;
