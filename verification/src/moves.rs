//! The bit-packed move encodings: the engine's full `Move`, the condensed
//! `ShortMove`, and the two-square `GameMove`.
use vstd::prelude::*;

verus! {

use crate::pieces::Pieces;
use crate::square::Square;

/// Bit offsets of the fields packed into a `Move`.
///
/// Layout, from the least significant bit: piece moved (3 bits), source
/// square (6), destination square (6), captured piece (3), promotion
/// piece (3), en-passant flag (1), double-step flag (1), castling flag
/// (1), and a 32-bit sort score. The three-bit piece fields use 6 as the
/// sentinel for "no piece".
pub struct Shifts {}

impl Shifts {
    pub const PIECE: u64 = 0;
    pub const FROM_SQ: u64 = 3;
    pub const TO_SQ: u64 = 9;
    pub const CAPTURE: u64 = 15;
    pub const PROMOTION: u64 = 18;
    pub const EN_PASSANT: u64 = 21;
    pub const DOUBLE_STEP: u64 = 22;
    pub const CASTLING: u64 = 23;
    pub const SORTSCORE: u64 = 24;
}

/// The sentinel value of a three-bit piece field that holds no piece.
pub const PIECE_SENTINEL: u64 = 6;

/// Turns a three-bit piece field into the piece it names, if any.
pub open spec fn spec_piece_of_bits(bits: u64) -> Option<Pieces> {
    if bits == 0 {
        Some(Pieces::King)
    } else if bits == 1 {
        Some(Pieces::Queen)
    } else if bits == 2 {
        Some(Pieces::Rook)
    } else if bits == 3 {
        Some(Pieces::Bishop)
    } else if bits == 4 {
        Some(Pieces::Knight)
    } else if bits == 5 {
        Some(Pieces::Pawn)
    } else {
        None
    }
}

/// A move, packed into one 64-bit word as `Shifts` describes.
#[derive(Debug, Clone, Copy, PartialEq, Eq, Structural)]
pub struct Move(pub u64);

impl Move {
    /// The piece-moved field.
    pub open spec fn spec_piece(self) -> Option<Pieces> {
        spec_piece_of_bits(self.0 & 0x7)
    }

    /// The source-square field.
    pub open spec fn spec_from(self) -> Square {
        Square(((self.0 >> 3) & 0x3F) as u8)
    }

    /// The destination-square field.
    pub open spec fn spec_to(self) -> Square {
        Square(((self.0 >> 9) & 0x3F) as u8)
    }

    /// The captured-piece field.
    pub open spec fn spec_captured(self) -> Option<Pieces> {
        spec_piece_of_bits((self.0 >> 15) & 0x7)
    }

    /// The promotion-piece field.
    pub open spec fn spec_promoted(self) -> Option<Pieces> {
        spec_piece_of_bits((self.0 >> 18) & 0x7)
    }

    /// The en-passant flag.
    pub open spec fn spec_en_passant(self) -> bool {
        (self.0 >> 21) & 0x1 == 1
    }

    /// The double-step flag.
    pub open spec fn spec_double_step(self) -> bool {
        (self.0 >> 22) & 0x1 == 1
    }

    /// The castling flag.
    pub open spec fn spec_castling(self) -> bool {
        (self.0 >> 23) & 0x1 == 1
    }

    /// The sort-score field, which carries no move semantics.
    pub open spec fn spec_sort_score(self) -> u32 {
        ((self.0 >> 24) & 0xFFFF_FFFF) as u32
    }

    /// Wraps raw packed data as a move.
    pub fn new(data: usize) -> (r: Move)
        ensures
            r.0 == data as u64,
    {
        Move(data as u64)
    }

    /// Packs a move from its fields, with a zero sort score.
    pub fn encode(
        piece: Pieces,
        from: Square,
        to: Square,
        captured: Option<Pieces>,
        promoted: Option<Pieces>,
        en_passant: bool,
        double_step: bool,
        castling: bool,
    ) -> (r: Move)
        requires
            from.valid(),
            to.valid(),
        ensures
            r.spec_piece() == Some(piece),
            r.spec_from() == from,
            r.spec_to() == to,
            r.spec_captured() == captured,
            r.spec_promoted() == promoted,
            r.spec_en_passant() == en_passant,
            r.spec_double_step() == double_step,
            r.spec_castling() == castling,
            r.spec_sort_score() == 0,
    {
        let pc: u64 = piece.as_index() as u64;
        let cap: u64 = match captured {
            Some(p) => p.as_index() as u64,
            None => PIECE_SENTINEL,
        };
        let prom: u64 = match promoted {
            Some(p) => p.as_index() as u64,
            None => PIECE_SENTINEL,
        };
        let ep: u64 = if en_passant { 1 } else { 0 };
        let ds: u64 = if double_step { 1 } else { 0 };
        let cs: u64 = if castling { 1 } else { 0 };
        let f: u64 = from.0 as u64;
        let t: u64 = to.0 as u64;
        let data: u64 = pc | (f << 3) | (t << 9) | (cap << 15) | (prom << 18) | (ep << 21) | (ds
            << 22) | (cs << 23);
        proof {
            let d = pc | (f << 3) | (t << 9) | (cap << 15) | (prom << 18) | (ep << 21) | (ds << 22)
                | (cs << 23);
            assert(d & 0x7 == pc && (d >> 3) & 0x3F == f && (d >> 9) & 0x3F == t && (d >> 15) & 0x7
                == cap && (d >> 18) & 0x7 == prom && (d >> 21) & 0x1 == ep && (d >> 22) & 0x1 == ds
                && (d >> 23) & 0x1 == cs && (d >> 24) & 0xFFFF_FFFF == 0) by (bit_vector)
                requires
                    pc < 8,
                    f < 64,
                    t < 64,
                    cap < 8,
                    prom < 8,
                    ep < 2,
                    ds < 2,
                    cs < 2,
                    d == pc | (f << 3) | (t << 9) | (cap << 15) | (prom << 18) | (ep << 21) | (ds
                        << 22) | (cs << 23),
            ;
        }
        Move(data)
    }

    /// The piece that moves, when the field names one.
    pub fn piece(&self) -> (r: Option<Pieces>)
        ensures
            r == self.spec_piece(),
    {
        piece_of_bits(self.0 & 0x7)
    }

    /// The source square.
    pub fn from(&self) -> (r: Square)
        ensures
            r == self.spec_from(),
            r.valid(),
    {
        let bits = (self.0 >> 3) & 0x3F;
        proof {
            let d = self.0;
            assert((d >> 3) & 0x3F < 64) by (bit_vector);
        }
        Square(bits as u8)
    }

    /// The destination square.
    pub fn to(&self) -> (r: Square)
        ensures
            r == self.spec_to(),
            r.valid(),
    {
        let bits = (self.0 >> 9) & 0x3F;
        proof {
            let d = self.0;
            assert((d >> 9) & 0x3F < 64) by (bit_vector);
        }
        Square(bits as u8)
    }

    /// The captured piece, when the move is a capture.
    pub fn captured(&self) -> (r: Option<Pieces>)
        ensures
            r == self.spec_captured(),
    {
        piece_of_bits((self.0 >> 15) & 0x7)
    }

    /// The promotion piece, when the move promotes.
    pub fn promoted(&self) -> (r: Option<Pieces>)
        ensures
            r == self.spec_promoted(),
    {
        piece_of_bits((self.0 >> 18) & 0x7)
    }

    /// Whether the move captures en passant.
    pub fn en_passant(&self) -> (r: bool)
        ensures
            r == self.spec_en_passant(),
    {
        (self.0 >> 21) & 0x1 == 1
    }

    /// Whether the move is a two-square pawn advance.
    pub fn double_step(&self) -> (r: bool)
        ensures
            r == self.spec_double_step(),
    {
        (self.0 >> 22) & 0x1 == 1
    }

    /// Whether the move castles.
    pub fn castling(&self) -> (r: bool)
        ensures
            r == self.spec_castling(),
    {
        (self.0 >> 23) & 0x1 == 1
    }

    /// The sort score used for move ordering.
    pub fn get_sort_score(self) -> (r: u32)
        ensures
            r == self.spec_sort_score(),
    {
        proof {
            let d = self.0;
            assert((d >> 24) & 0xFFFF_FFFF <= 0xFFFF_FFFFu64) by (bit_vector);
        }
        ((self.0 >> 24) & 0xFFFF_FFFF) as u32
    }

    /// Replaces the sort score, leaving every move field unchanged.
    pub fn set_sort_score(&mut self, value: u32)
        ensures
            final(self).0 == (old(self).0 & 0xFF_FFFF) | ((value as u64) << 24),
            final(self).spec_sort_score() == value,
            final(self).0 & 0xFF_FFFF == old(self).0 & 0xFF_FFFF,
    {
        let data = (self.0 & 0xFF_FFFF) | ((value as u64) << 24);
        proof {
            let v = value as u64;
            let o = self.0;
            assert(((o & 0xFF_FFFF | (v << 24)) >> 24) & 0xFFFF_FFFF == v && (o & 0xFF_FFFF | (v
                << 24)) & 0xFF_FFFF == o & 0xFF_FFFF) by (bit_vector)
                requires
                    v < 0x1_0000_0000,
            ;
        }
        self.0 = data;
    }

    /// Condenses the move to its 24 semantic bits.
    pub fn to_short_move(self) -> (r: ShortMove)
        ensures
            r.0 == self.0 & 0xFF_FFFF,
    {
        proof {
            let d = self.0;
            assert(d & 0xFF_FFFF <= 0xFF_FFFFu64) by (bit_vector);
        }
        ShortMove::new((self.0 & 0xFF_FFFF) as u32)
    }

    /// The 24 semantic bits of the move, without the sort score.
    pub fn get_move(&self) -> (r: u32)
        ensures
            r == self.0 & 0xFF_FFFF,
    {
        proof {
            let d = self.0;
            assert(d & 0xFF_FFFF <= 0xFF_FFFFu64) by (bit_vector);
        }
        (self.0 & 0xFF_FFFF) as u32
    }
}

/// Exec twin of `spec_piece_of_bits`.
fn piece_of_bits(bits: u64) -> (r: Option<Pieces>)
    ensures
        r == spec_piece_of_bits(bits),
{
    match bits {
        0 => Some(Pieces::King),
        1 => Some(Pieces::Queen),
        2 => Some(Pieces::Rook),
        3 => Some(Pieces::Bishop),
        4 => Some(Pieces::Knight),
        5 => Some(Pieces::Pawn),
        _ => None,
    }
}

/// A move condensed to its 24 semantic bits.
#[derive(Debug, Clone, Copy, PartialEq, Eq, Structural)]
pub struct ShortMove(pub u32);

impl ShortMove {
    /// Wraps raw condensed data.
    pub fn new(data: u32) -> (r: ShortMove)
        ensures
            r.0 == data,
    {
        ShortMove(data)
    }

    /// The raw condensed data.
    pub fn get_move(&self) -> (r: u32)
        ensures
            r == self.0,
    {
        self.0
    }
}

/// Flag bits of a `GameMove`.
pub struct MoveFlags {}

impl MoveFlags {
    pub const NONE: u8 = 0b0000;
    pub const CAPTURE: u8 = 0b0001;
    pub const CHECK: u8 = 0b0010;
    pub const CASTLING: u8 = 0b0100;
}

/// A move packed into 16 bits: source square (bits 10..16), destination
/// square (bits 4..10), flags (bits 0..4).
#[derive(Debug, Clone, Copy, PartialEq, Eq, Structural)]
pub struct GameMove(pub u16);

impl GameMove {
    /// Packs a move from its source, destination and flags.
    pub fn from_parts(source: Square, destination: Square, flags: u8) -> (r: GameMove)
        requires
            source.valid(),
            destination.valid(),
        ensures
            r.0 == ((source.0 as u16) << 10) | ((destination.0 as u16) << 4) | (flags as u16),
    {
        GameMove(((source.0 as u16) << 10) | ((destination.0 as u16) << 4) | (flags as u16))
    }

    /// The source square of the move.
    pub fn source(&self) -> (r: Square)
        ensures
            r.0 == self.0 >> 10,
            r.valid(),
    {
        proof {
            let d = self.0;
            assert(d >> 10 < 64) by (bit_vector);
        }
        Square((self.0 >> 10) as u8)
    }
}

} // verus!
