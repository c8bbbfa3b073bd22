//! The transient game state carried beside the piece placement: side to
//! move, castling rights, en-passant target, clocks, Zobrist key, and the
//! evaluation accumulators.
use vstd::prelude::*;

verus! {

use crate::defs::Sides;
use crate::moves::Move;
use crate::square::Square;
use crate::text::chars_of_bytes;
use crate::weights::Weights;

/// The per-position state that changes with every move and is restored
/// whole on unmake.
#[derive(Debug, Clone, Copy, PartialEq, Eq)]
pub struct GameState {
    /// The side whose turn it is to move.
    pub active_side: u8,
    /// The castling-rights bitmask.
    pub castling: u8,
    /// The square a double pawn push skipped, if one may be captured
    /// en passant on the next move.
    pub en_passant: Option<Square>,
    /// Halfmoves since the last pawn advance or capture.
    pub half_move_clock: u16,
    /// The full-move number; incremented after Black's move.
    pub fullmove_number: u16,
    /// The position's Zobrist key.
    pub zobrist_key: u64,
    /// Game-phase accumulator for tapered evaluation.
    pub phase_value: i16,
    /// Piece-square-table accumulators, one per side.
    pub psqt_value: [Weights; 2],
    /// Scratch slot for the move being searched at this depth.
    pub next_move: Move,
}

/// The cleared game state every field starts from.
pub open spec fn spec_cleared_state() -> GameState {
    GameState {
        active_side: Sides::WHITE,
        castling: 0,
        en_passant: None,
        half_move_clock: 0,
        fullmove_number: 0,
        zobrist_key: 0,
        phase_value: 0,
        psqt_value: [Weights(0i16, 0i16), Weights(0i16, 0i16)],
        next_move: Move(0),
    }
}

impl GameState {
    /// A cleared game state.
    pub fn new() -> (r: GameState)
        ensures
            r == spec_cleared_state(),
    {
        GameState {
            active_side: Sides::WHITE,
            castling: 0,
            en_passant: None,
            half_move_clock: 0,
            fullmove_number: 0,
            zobrist_key: 0,
            phase_value: 0,
            psqt_value: [Weights(0i16, 0i16), Weights(0i16, 0i16)],
            next_move: Move(0),
        }
    }

    /// Resets every field to the cleared state.
    pub fn clear(&mut self)
        ensures
            *final(self) == spec_cleared_state(),
    {
        *self = GameState::new();
    }

    /// The castling-rights bytes of a position description: the letters
    /// `KQkq` of the rights held, or `-` when none are.
    pub fn castling_to_string(&self) -> (r: String)
        ensures
            r@ == chars_of_bytes(spec_castling_bytes(self.castling)),
    {
        let bytes = castling_bytes(self.castling);
        crate::text::ascii_to_string(&bytes)
    }
}

/// The bytes that render a castling-rights mask: `K`, `Q`, `k`, `q` for
/// the bits that are set, in that order, or `-` for an empty mask.
pub open spec fn spec_castling_bytes(mask: u8) -> Seq<u8> {
    if mask == 0 {
        seq![45u8]
    } else {
        (if mask & 0x1 != 0 {
            seq![75u8]
        } else {
            Seq::empty()
        }) + (if mask & 0x2 != 0 {
            seq![81u8]
        } else {
            Seq::empty()
        }) + (if mask & 0x4 != 0 {
            seq![107u8]
        } else {
            Seq::empty()
        }) + (if mask & 0x8 != 0 {
            seq![113u8]
        } else {
            Seq::empty()
        })
    }
}

/// Exec twin of `spec_castling_bytes`.
pub fn castling_bytes(mask: u8) -> (r: Vec<u8>)
    ensures
        r@ == spec_castling_bytes(mask),
        crate::text::all_ascii(r@),
{
    let mut bytes: Vec<u8> = Vec::new();
    if mask == 0 {
        bytes.push(45);
        proof {
            assert(bytes@ =~= spec_castling_bytes(mask));
        }
        return bytes;
    }
    if mask & 0x1 != 0 {
        bytes.push(75);
    }
    if mask & 0x2 != 0 {
        bytes.push(81);
    }
    if mask & 0x4 != 0 {
        bytes.push(107);
    }
    if mask & 0x8 != 0 {
        bytes.push(113);
    }
    proof {
        assert(bytes@ =~= spec_castling_bytes(mask));
    }
    bytes
}

} // verus!
