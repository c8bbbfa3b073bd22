//! The coordinate types: `Square`, `File` and `Rank`, with validated
//! conversions from raw integers and from algebraic-notation characters.
use vstd::prelude::*;

verus! {

/// Why a coordinate conversion was refused.
#[derive(Debug, Clone, Copy, PartialEq, Eq, Structural)]
pub enum CoordError {
    /// The raw index lies outside the board.
    OutOfRange,
    /// The character names no file or rank.
    InvalidChar,
}

/// A square on the chess board.
///
/// The index is little-endian rank-file: `a1` is 0, `h8` is 63,
/// rank = index / 8, file = index % 8.
#[derive(Debug, Clone, Copy, PartialEq, Eq, Structural)]
pub struct Square(pub u8);

/// A file of the board, `a` (0) through `h` (7).
#[derive(Debug, Clone, Copy, PartialEq, Eq, Structural)]
pub struct File(pub u8);

/// A rank of the board, rank 1 (0) through rank 8 (7).
#[derive(Debug, Clone, Copy, PartialEq, Eq, Structural)]
pub struct Rank(pub u8);

impl Square {
    /// A square index lies on the 8x8 board.
    pub open spec fn valid(self) -> bool {
        self.0 < 64
    }

    /// Validated conversion from a raw index; anything off the board is refused.
    pub fn try_from(value: u8) -> (r: Result<Square, CoordError>)
        ensures
            value < 64 ==> r == Ok::<Square, CoordError>(Square(value)),
            value >= 64 ==> r == Err::<Square, CoordError>(CoordError::OutOfRange),
    {
        if value < 64 {
            Ok(Square(value))
        } else {
            Err(CoordError::OutOfRange)
        }
    }

    /// Builds the square at `file` of `rank`; total on valid coordinates.
    pub fn from_coords(file: &File, rank: &Rank) -> (r: Square)
        requires
            file.valid(),
            rank.valid(),
        ensures
            r.0 == file.0 + 8 * rank.0,
            r.valid(),
            r.0 % 8 == file.0,
            r.0 / 8 == rank.0,
    {
        let s = Square(file.0 + 8 * rank.0);
        proof {
            vstd::arithmetic::div_mod::lemma_fundamental_div_mod(s.0 as int, 8);
            vstd::arithmetic::div_mod::lemma_fundamental_div_mod_converse(
                s.0 as int, 8, rank.0 as int, file.0 as int);
        }
        s
    }

    /// As `from_coords`, over raw file and rank indices.
    pub fn from_coords_u8(file: u8, rank: u8) -> (r: Square)
        requires
            file < 8,
            rank < 8,
        ensures
            r.0 == file + 8 * rank,
            r.valid(),
    {
        Square::from_coords(&File(file), &Rank(rank))
    }

    /// The rank the square stands on: index / 8.
    pub fn rank(self) -> (r: Rank)
        ensures
            r.0 == self.0 / 8,
            self.valid() ==> r.valid(),
    {
        Rank(self.0 / 8)
    }

    /// The file the square stands on: index % 8.
    pub fn file(self) -> (r: File)
        ensures
            r.0 == self.0 % 8,
            r.valid(),
    {
        File(self.0 % 8)
    }

    /// The file rendered as its letter, `'a'` through `'h'`.
    pub fn file_char(self) -> (r: char)
        requires
            self.valid(),
        ensures
            r == ((97 + self.0 % 8) as u8) as char,
    {
        (97 + self.0 % 8) as char
    }

    /// The rank rendered as its digit, `'1'` through `'8'`.
    pub fn rank_char(self) -> (r: char)
        requires
            self.valid(),
        ensures
            r == ((49 + self.0 / 8) as u8) as char,
    {
        (49 + self.0 / 8) as char
    }

    /// The square's index as a plain integer.
    pub fn as_u8(self) -> (r: u8)
        ensures
            r == self.0,
    {
        self.0
    }

    /// Renders the square as two characters: file letter, then rank digit.
    pub fn to_string(self) -> (r: String)
        requires
            self.valid(),
        ensures
            r@.len() == 2,
            r@[0] == ((97 + self.0 % 8) as u8) as char,
            r@[1] == ((49 + self.0 / 8) as u8) as char,
    {
        let mut bytes: Vec<u8> = Vec::new();
        bytes.push(97 + self.0 % 8);
        bytes.push(49 + self.0 / 8);
        let r = crate::text::ascii_to_string(&bytes);
        proof {
            assert(r@ =~= bytes@.map_values(|b: u8| b as char));
        }
        r
    }
}

/// `from_coords` and (`file`, `rank`) are two-sided inverses: rebuilding a
/// square from its own coordinates gives the square back, and the
/// coordinates of a built square are the ones given.
pub proof fn lemma_square_coords_inverse(s: Square, f: File, r: Rank)
    requires
        s.valid(),
        f.valid(),
        r.valid(),
    ensures
        (s.0 % 8) + 8 * (s.0 / 8) == s.0,
        ((f.0 + 8 * r.0) as u8) % 8 == f.0,
        ((f.0 + 8 * r.0) as u8) / 8 == r.0,
{
    vstd::arithmetic::div_mod::lemma_fundamental_div_mod(s.0 as int, 8);
    vstd::arithmetic::div_mod::lemma_fundamental_div_mod_converse(
        (f.0 + 8 * r.0) as int, 8, r.0 as int, f.0 as int);
}

impl File {
    /// A file index lies within the board's eight files.
    pub open spec fn valid(self) -> bool {
        self.0 < 8
    }

    /// Parses a file letter, case-insensitively: `'a'`/`'A'` is file 0,
    /// `'h'`/`'H'` is file 7. Any other character is refused.
    pub fn try_from(c: char) -> (r: Result<File, CoordError>)
        ensures
            r == spec_file_of_char(c),
            r is Ok ==> r->Ok_0.valid(),
    {
        let v = c as u32;
        if 97 <= v && v <= 104 {
            Ok(File((v - 97) as u8))
        } else if 65 <= v && v <= 72 {
            Ok(File((v - 65) as u8))
        } else {
            Err(CoordError::InvalidChar)
        }
    }

    /// Validated conversion from a raw file index; indices past the
    /// board's files are refused.
    pub fn from_u8(value: u8) -> (r: Result<File, CoordError>)
        ensures
            value < 8 ==> r == Ok::<File, CoordError>(File(value)),
            value >= 8 ==> r == Err::<File, CoordError>(CoordError::OutOfRange),
    {
        if value < 8 {
            Ok(File(value))
        } else {
            Err(CoordError::OutOfRange)
        }
    }

    /// The file's index as a plain integer.
    pub fn as_u8(self) -> (r: u8)
        ensures
            r == self.0,
    {
        self.0
    }
}

/// What a character denotes as a file: lower- or upper-case letters
/// `a..h` name files 0..8, everything else is refused.
pub open spec fn spec_file_of_char(c: char) -> Result<File, CoordError> {
    if 97 <= c as u32 <= 104 {
        Ok(File((c as u32 - 97) as u8))
    } else if 65 <= c as u32 <= 72 {
        Ok(File((c as u32 - 65) as u8))
    } else {
        Err(CoordError::InvalidChar)
    }
}

impl Rank {
    /// A rank index lies within the board's eight ranks.
    pub open spec fn valid(self) -> bool {
        self.0 < 8
    }

    /// Parses a rank digit: `'1'` is rank 0, `'8'` is rank 7. Any other
    /// character is refused.
    pub fn try_from(c: char) -> (r: Result<Rank, CoordError>)
        ensures
            r == spec_rank_of_char(c),
            r is Ok ==> r->Ok_0.valid(),
    {
        let v = c as u32;
        if 49 <= v && v <= 56 {
            Ok(Rank((v - 49) as u8))
        } else {
            Err(CoordError::InvalidChar)
        }
    }

    /// The rank's index as a plain integer.
    pub fn as_u8(self) -> (r: u8)
        ensures
            r == self.0,
    {
        self.0
    }
}

/// What a character denotes as a rank: digits `1..8` name ranks 0..8,
/// everything else is refused.
pub open spec fn spec_rank_of_char(c: char) -> Result<Rank, CoordError> {
    if 49 <= c as u32 <= 56 {
        Ok(Rank((c as u32 - 49) as u8))
    } else {
        Err(CoordError::InvalidChar)
    }
}

/// The eight ranks in board order.
pub fn all_ranks() -> (r: [Rank; 8])
    ensures
        forall|i: int| 0 <= i < 8 ==> (#[trigger] r@[i]).0 == i,
{
    let r = [Rank(0), Rank(1), Rank(2), Rank(3), Rank(4), Rank(5), Rank(6), Rank(7)];
    proof {
        assert(r@ =~= seq![Rank(0), Rank(1), Rank(2), Rank(3), Rank(4), Rank(5), Rank(6), Rank(7)]);
    }
    r
}

impl From<Square> for u8 {
    /// The square's raw index.
    fn from(square: Square) -> (r: u8) {
        square.0
    }
}

impl vstd::std_specs::convert::FromSpecImpl<Square> for u8 {
    open spec fn obeys_from_spec() -> bool {
        true
    }

    open spec fn from_spec(square: Square) -> u8 {
        square.0
    }
}

impl File {
    /// Renders the file as its letter.
    pub fn to_string(&self) -> (r: String)
        requires
            self.valid(),
        ensures
            r@.len() == 1,
            r@[0] == ((97 + self.0) as u8) as char,
    {
        let mut bytes: Vec<u8> = Vec::new();
        bytes.push(97 + self.0);
        let r = crate::text::ascii_to_string(&bytes);
        proof {
            assert(r@ =~= bytes@.map_values(|b: u8| b as char));
        }
        r
    }
}

} // verus!
