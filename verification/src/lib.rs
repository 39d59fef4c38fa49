//! A three-by-three noughts-and-crosses engine: the board, the rules that
//! apply a move and detect a finished game, and an exhaustive search that
//! picks the computer's move.

pub mod board;
pub mod game;
pub mod notation;
pub mod search;
pub mod session;
