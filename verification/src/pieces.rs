//! The closed set of chess piece kinds, with its index mapping and the
//! piece letters of position descriptions.
use vstd::prelude::*;

verus! {

use crate::square::CoordError;

/// The chess piece kinds. Emptiness of a square is not a piece: the board's
/// lookup table stores an optional value instead.
#[derive(Debug, Clone, Copy, PartialEq, Eq, Structural)]
pub enum Pieces {
    King,
    Queen,
    Rook,
    Bishop,
    Knight,
    Pawn,
}

impl Pieces {
    /// The table index of the piece kind: king 0, queen 1, rook 2,
    /// bishop 3, knight 4, pawn 5.
    pub open spec fn index(self) -> int {
        match self {
            Pieces::King => 0,
            Pieces::Queen => 1,
            Pieces::Rook => 2,
            Pieces::Bishop => 3,
            Pieces::Knight => 4,
            Pieces::Pawn => 5,
        }
    }

    /// The piece's table index as a plain integer.
    pub fn as_index(self) -> (r: usize)
        ensures
            r == self.index(),
    {
        match self {
            Pieces::King => 0,
            Pieces::Queen => 1,
            Pieces::Rook => 2,
            Pieces::Bishop => 3,
            Pieces::Knight => 4,
            Pieces::Pawn => 5,
        }
    }

    /// Validated conversion from a table index; indices at or past the
    /// number of piece kinds are refused.
    pub fn try_from(value: usize) -> (r: Result<Pieces, CoordError>)
        ensures
            value < 6 ==> r is Ok && r->Ok_0.index() == value,
            value >= 6 ==> r == Err::<Pieces, CoordError>(CoordError::OutOfRange),
    {
        match value {
            0 => Ok(Pieces::King),
            1 => Ok(Pieces::Queen),
            2 => Ok(Pieces::Rook),
            3 => Ok(Pieces::Bishop),
            4 => Ok(Pieces::Knight),
            5 => Ok(Pieces::Pawn),
            _ => Err(CoordError::OutOfRange),
        }
    }

    /// The piece kinds in table-index order.
    pub fn all() -> (r: [Pieces; 6])
        ensures
            r@ == seq![
                Pieces::King,
                Pieces::Queen,
                Pieces::Rook,
                Pieces::Bishop,
                Pieces::Knight,
                Pieces::Pawn,
            ],
    {
        let r = [
            Pieces::King,
            Pieces::Queen,
            Pieces::Rook,
            Pieces::Bishop,
            Pieces::Knight,
            Pieces::Pawn,
        ];
        proof {
            assert(r@ =~= seq![
                Pieces::King,
                Pieces::Queen,
                Pieces::Rook,
                Pieces::Bishop,
                Pieces::Knight,
                Pieces::Pawn,
            ]);
        }
        r
    }
}

/// What a piece-placement byte denotes: the letters `pnbrqk`, in either
/// case, name a piece kind; every other byte names none.
pub open spec fn spec_piece_of_byte(b: u8) -> Option<Pieces> {
    let lower = if 65 <= b <= 90 { (b + 32) as u8 } else { b };
    if lower == 112 {
        Some(Pieces::Pawn)
    } else if lower == 110 {
        Some(Pieces::Knight)
    } else if lower == 98 {
        Some(Pieces::Bishop)
    } else if lower == 114 {
        Some(Pieces::Rook)
    } else if lower == 113 {
        Some(Pieces::Queen)
    } else if lower == 107 {
        Some(Pieces::King)
    } else {
        None
    }
}

impl Pieces {
    /// Decodes a piece letter, case-insensitively: `p` pawn, `n` knight,
    /// `b` bishop, `r` rook, `q` queen, `k` king.
    pub fn match_char(b: u8) -> (r: Option<Pieces>)
        ensures
            r == spec_piece_of_byte(b),
    {
        let lower = if 65 <= b && b <= 90 {
            b + 32
        } else {
            b
        };
        match lower {
            112 => Some(Pieces::Pawn),
            110 => Some(Pieces::Knight),
            98 => Some(Pieces::Bishop),
            114 => Some(Pieces::Rook),
            113 => Some(Pieces::Queen),
            107 => Some(Pieces::King),
            _ => None,
        }
    }
}

} // verus!
