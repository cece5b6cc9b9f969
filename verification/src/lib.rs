//! A Minesweeper board: cells, mine placement, flood-fill reveal and flags,
//! together with the game controller that turns key presses into moves.

pub mod cell;
pub mod grid;
pub mod field;
pub mod flood;
pub mod model;
pub mod laying;
pub mod random;
pub mod board;
pub mod laws;
pub mod game;
