//! The game: a board built from a position description.
use vstd::prelude::*;

verus! {

use vstd::string::StringSliceAdditionalSpecFns;

use crate::board::Board;
use crate::fen::{spec_game_parse, Fen, FenParsingError};

/// A game in progress: the board, which owns the transient state and
/// the history stack.
#[derive(Debug, Clone)]
pub struct Game {
    /// The position, with its game state and history.
    pub board: Board,
}

impl Game {
    /// Starts a game from a position description.
    pub fn from_fen(fen: &str) -> (r: Result<Game, FenParsingError>)
        ensures
            spec_game_parse(fen.spec_bytes(), r),
    {
        Fen::parse(fen)
    }
}

} // verus!
