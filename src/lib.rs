//! Game-state engine of a falling-block puzzle: the board, the piece
//! catalog, movement resolution and line clearing, driven one tick at a time.
pub mod board;
pub mod cell;
pub mod controller;
pub mod game;
pub mod laws;
pub mod lines;
pub mod movement;
pub mod piece;
mod random;
