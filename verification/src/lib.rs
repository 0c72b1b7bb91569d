//! Rules engine and search oracle for a two-player wall-and-pawn board game
//! on a 9x9 grid.

pub mod enums;
pub mod position;
pub mod grid;
pub mod board;
pub mod path;
pub mod rules;
pub mod moves;
pub mod laws;
pub mod brute;
pub mod text;
pub mod helpers;
pub mod play;
pub mod vis;
pub mod graph;
pub mod session;

pub use board::Board;
pub use brute::{brute_force, brute_force_5x5, GameState};
pub use enums::{Move, MoveError, Notation, Player};
