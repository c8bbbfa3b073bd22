//! Position-representation core of a chess engine: squares, bitboards,
//! pieces, packed moves, Zobrist hashing, FEN parsing and serialization,
//! and a board with make/unmake of moves.

pub mod bitboard;
pub mod board;
pub mod defs;
pub mod fen;
pub mod game;
pub mod gamestate;
pub mod history;
pub mod moves;
pub mod pieces;
pub mod square;
pub mod text;
pub mod weights;
pub mod zobrist;
