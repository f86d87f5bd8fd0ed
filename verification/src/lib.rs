//! A chess rules engine: move generation, legality filtering, check detection
//! and the turn/state transitions of a game, with machine-checked contracts.

pub mod board;
pub mod check;
pub mod dump;
pub mod fen;
pub mod fen_laws;
pub mod game;
pub mod geometry;
pub mod laws;
pub mod legal;
pub mod moves;
pub mod notation;
pub mod text;

pub use crate::board::{Board, ChessError, Color, GameState, Piece, PieceRole, Square};
pub use crate::game::Game;
