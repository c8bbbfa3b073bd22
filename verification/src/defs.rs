//! Board-wide constants: the sides, the table sizes, and the
//! castling-rights bitmask values.
use vstd::prelude::*;

verus! {

/// Sides of a chessboard: `WHITE`, `BLACK`, or the aggregate pseudo-side `BOTH`.
///
/// `BOTH` only sizes aggregate arrays; it is never a side to move.
pub struct Sides {}

impl Sides {
    pub const WHITE: u8 = 0;
    pub const BLACK: u8 = 1;
    pub const BOTH: u8 = 2;
}

/// A side-to-move value is `WHITE` or `BLACK`, never `BOTH`.
pub open spec fn valid_side(side: u8) -> bool {
    side == Sides::WHITE || side == Sides::BLACK
}

/// Counts of the board's dimensions and tables.
pub struct NrOf {}

impl NrOf {
    pub const FILES: usize = 8;
    pub const RANKS: usize = 8;
    pub const SQUARES: usize = 64;

    pub const PIECE_TYPES: usize = 6;
    pub const SIDES: usize = 2;

    /// Number of distinct castling-rights masks (4 bits).
    pub const CASTLING_PERMISSIONS: usize = 16;

    /// Capacity of the history stack: enough for the longest supported game.
    pub const MAX_HISTORY: usize = 2048;
}

/// The castling rights of a position, a 4-bit mask.
pub struct CastlingRights {}

impl CastlingRights {
    /// White may castle king-side.
    pub const WK: u8 = 0b0001;
    /// White may castle queen-side.
    pub const WQ: u8 = 0b0010;
    /// Black may castle king-side.
    pub const BK: u8 = 0b0100;
    /// Black may castle queen-side.
    pub const BQ: u8 = 0b1000;

    pub const NONE: u8 = 0b0000;
    pub const ALL: u8 = 0b1111;
}

/// A castling-rights mask sets only the four defined bits.
pub open spec fn valid_castling(mask: u8) -> bool {
    mask < 16
}

} // verus!
