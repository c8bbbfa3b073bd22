//! The FEN codec: parsing a position description into a `Board` and
//! serializing a `Board` back, with the round trip proved exact.
use vstd::prelude::*;

verus! {

use vstd::string::StringSliceAdditionalSpecFns;

use crate::board::{Board, PieceEntry};
use crate::gamestate::GameState;
use crate::pieces::{spec_piece_of_byte, Pieces};
use crate::square::Square;
use crate::text::bytes_to_string_lossy;

/// ASCII whitespace, as the field separator of a position description.
pub open spec fn is_ws(b: u8) -> bool {
    b == 32 || b == 9 || b == 10 || b == 13 || b == 12
}

/// Length of the whitespace-free run that starts the sequence.
pub open spec fn spec_token_len(s: Seq<u8>) -> int
    decreases s.len(),
{
    if s.len() == 0 || is_ws(s[0]) {
        0
    } else {
        1 + spec_token_len(s.skip(1))
    }
}

/// The leading token is never longer than the sequence.
pub proof fn lemma_token_len_bound(s: Seq<u8>)
    ensures
        0 <= spec_token_len(s) <= s.len(),
    decreases s.len(),
{
    if s.len() > 0 && !is_ws(s[0]) {
        lemma_token_len_bound(s.skip(1));
    }
}

/// The sequence split on runs of whitespace, empty pieces dropped.
pub open spec fn spec_split_ws(s: Seq<u8>) -> Seq<Seq<u8>>
    decreases s.len(),
    via spec_split_ws_decreases
{
    if s.len() == 0 {
        Seq::empty()
    } else if is_ws(s[0]) {
        spec_split_ws(s.skip(1))
    } else {
        let n = spec_token_len(s);
        seq![s.take(n)] + spec_split_ws(s.skip(n))
    }
}

#[via_fn]
proof fn spec_split_ws_decreases(s: Seq<u8>) {
    lemma_token_len_bound(s);
    if s.len() > 0 && !is_ws(s[0]) {
        lemma_token_len_bound(s.skip(1));
    }
}

/// The four castling bits never leave the mask's four-bit range.
proof fn lemma_or_bits_bound(m: u8)
    by (bit_vector)
    ensures
        m < 16 ==> ((m | 0x1) < 16 && (m | 0x2) < 16 && (m | 0x4) < 16 && (m | 0x8) < 16),
{
}

/// Exec twin of `spec_token_len`: finds the end of the token at `i`.
fn scan_token(bytes: &[u8], i: usize) -> (j: usize)
    requires
        i <= bytes@.len(),
    ensures
        i <= j <= bytes@.len(),
        j - i == spec_token_len(bytes@.skip(i as int)),
{
    let mut k = i;
    proof {
        lemma_token_len_bound(bytes@.skip(i as int));
    }
    while k < bytes.len() && !is_ws_exec(bytes[k])
        invariant
            i <= k <= bytes@.len(),
            spec_token_len(bytes@.skip(i as int)) == (k - i) + spec_token_len(
                bytes@.skip(k as int),
            ),
            spec_token_len(bytes@.skip(i as int)) <= bytes@.len() - i,
        decreases bytes@.len() - k,
    {
        proof {
            assert(bytes@.skip(k as int)[0] == bytes@[k as int]);
            assert(bytes@.skip(k as int).skip(1) =~= bytes@.skip(k as int + 1));
            lemma_token_len_bound(bytes@.skip(k as int + 1));
        }
        k += 1;
    }
    proof {
        if k < bytes@.len() {
            assert(bytes@.skip(k as int)[0] == bytes@[k as int]);
        }
        assert(spec_token_len(bytes@.skip(k as int)) == 0);
    }
    k
}

/// Exec twin of `is_ws`.
fn is_ws_exec(b: u8) -> (r: bool)
    ensures
        r == is_ws(b),
{
    b == 32 || b == 9 || b == 10 || b == 13 || b == 12
}

/// Exec twin of `spec_split_ws`: the whitespace-separated tokens.
fn split_ws(bytes: &[u8]) -> (r: Vec<Vec<u8>>)
    ensures
        r@.map_values(|v: Vec<u8>| v@) == spec_split_ws(bytes@),
{
    let mut tokens: Vec<Vec<u8>> = Vec::new();
    let mut i: usize = 0;
    proof {
        assert(bytes@.skip(0) =~= bytes@);
        assert(tokens@.map_values(|v: Vec<u8>| v@) =~= Seq::<Seq<u8>>::empty());
    }
    while i < bytes.len()
        invariant
            i <= bytes@.len(),
            tokens@.map_values(|v: Vec<u8>| v@) + spec_split_ws(bytes@.skip(i as int))
                =~= spec_split_ws(bytes@),
        decreases bytes@.len() - i,
    {
        proof {
            assert(bytes@.skip(i as int)[0] == bytes@[i as int]);
            assert(bytes@.skip(i as int).skip(1) =~= bytes@.skip(i as int + 1));
        }
        if is_ws_exec(bytes[i]) {
            i += 1;
        } else {
            let j = scan_token(bytes, i);
            let ghost suffix = bytes@.skip(i as int);
            proof {
                lemma_token_len_bound(suffix);
                assert(suffix.take(spec_token_len(suffix)) =~= bytes@.subrange(
                    i as int,
                    i as int + spec_token_len(suffix),
                ));
                assert(suffix.skip(spec_token_len(suffix)) =~= bytes@.skip(
                    i as int + spec_token_len(suffix),
                ));
            }
            let mut tok: Vec<u8> = Vec::new();
            let mut k = i;
            while k < j
                invariant
                    i <= k <= j <= bytes@.len(),
                    tok@ =~= bytes@.subrange(i as int, k as int),
                decreases j - k,
            {
                tok.push(bytes[k]);
                k += 1;
            }
            proof {
                assert(tok@ =~= bytes@.subrange(i as int, j as int));
                assert((tokens@.push(tok)).map_values(|v: Vec<u8>| v@) =~= tokens@.map_values(
                    |v: Vec<u8>| v@,
                ).push(tok@));
            }
            tokens.push(tok);
            i = j;
        }
    }
    proof {
        assert(bytes@.skip(i as int) =~= Seq::<u8>::empty());
    }
    tokens
}

/// A decimal digit byte.
pub open spec fn is_digit(b: u8) -> bool {
    48 <= b <= 57
}

/// Every byte is a decimal digit.
pub open spec fn all_digits(s: Seq<u8>) -> bool {
    forall|i: int| 0 <= i < s.len() ==> is_digit(#[trigger] s[i])
}

/// The number the digit bytes spell.
pub open spec fn dec_value(s: Seq<u8>) -> int
    decreases s.len(),
{
    if s.len() == 0 {
        0
    } else {
        dec_value(s.drop_last()) * 10 + (s.last() - 48)
    }
}

/// A token parses as a clock number exactly when it is a nonempty
/// digit string whose value fits the clock's width.
pub open spec fn spec_parse_u16(s: Seq<u8>) -> Option<u16> {
    if s.len() > 0 && all_digits(s) && dec_value(s) <= 65535 {
        Some(dec_value(s) as u16)
    } else {
        None
    }
}

/// Digit strings spell non-negative numbers.
proof fn lemma_dec_value_nonneg(s: Seq<u8>)
    requires
        all_digits(s),
    ensures
        dec_value(s) >= 0,
    decreases s.len(),
{
    if s.len() > 0 {
        assert(all_digits(s.drop_last()));
        lemma_dec_value_nonneg(s.drop_last());
    }
}

/// Exec twin of `spec_parse_u16`.
fn parse_u16(tok: &[u8]) -> (r: Option<u16>)
    ensures
        r == spec_parse_u16(tok@),
{
    if tok.len() == 0 {
        return None;
    }
    let mut acc: u32 = 0;
    let mut i: usize = 0;
    while i < tok.len()
        invariant
            i <= tok@.len(),
            forall|j: int| 0 <= j < i ==> is_digit(#[trigger] tok@[j]),
            dec_value(tok@.take(i as int)) <= 65535 ==> acc == dec_value(tok@.take(i as int)),
            dec_value(tok@.take(i as int)) > 65535 ==> acc > 65535,
            acc <= 655359,
        decreases tok@.len() - i,
    {
        let b = tok[i];
        if b < 48 || b > 57 {
            return None;
        }
        proof {
            assert(tok@.take(i as int + 1).drop_last() =~= tok@.take(i as int));
            assert(tok@.take(i as int + 1).last() == tok@[i as int]);
            assert(all_digits(tok@.take(i as int)));
            lemma_dec_value_nonneg(tok@.take(i as int));
        }
        if acc > 65535 {
            // the value already overflows; the rest only lengthens it
        } else {
            acc = acc * 10 + ((b - 48) as u32);
        }
        i += 1;
    }
    proof {
        assert(tok@.take(tok@.len() as int) =~= tok@);
    }
    if acc > 65535 {
        None
    } else {
        Some(acc as u16)
    }
}

/// The castling-rights mask the letters spell, folded left to right;
/// any letter outside `KQkq` refuses the whole token.
pub open spec fn spec_castling_mask(s: Seq<u8>) -> Option<u8>
    decreases s.len(),
{
    if s.len() == 0 {
        Some(0)
    } else {
        match spec_castling_mask(s.drop_last()) {
            None => None,
            Some(m) => if s.last() == 75 {
                Some(m | 0x1)
            } else if s.last() == 81 {
                Some(m | 0x2)
            } else if s.last() == 107 {
                Some(m | 0x4)
            } else if s.last() == 113 {
                Some(m | 0x8)
            } else {
                None
            },
        }
    }
}

/// A castling-rights token: `-` for no rights, else `KQkq` letters.
pub open spec fn spec_parse_castling(s: Seq<u8>) -> Option<u8> {
    if s =~= seq![45u8] {
        Some(0)
    } else {
        spec_castling_mask(s)
    }
}

/// The folded mask only ever sets the four castling bits.
pub proof fn lemma_castling_mask_bound(s: Seq<u8>)
    ensures
        match spec_castling_mask(s) {
            Some(m) => m < 16,
            None => true,
        },
    decreases s.len(),
{
    if s.len() > 0 {
        lemma_castling_mask_bound(s.drop_last());
        match spec_castling_mask(s.drop_last()) {
            Some(m) => {
                lemma_or_bits_bound(m);
            },
            None => {},
        }
    }
}

/// Exec twin of `spec_parse_castling`, which also reports the mask's
/// bound for its callers.
pub fn parse_castling_token(tok: &[u8]) -> (r: Option<u8>)
    ensures
        r == spec_parse_castling(tok@),
        match r {
            Some(m) => m < 16,
            None => true,
        },
{
    proof {
        lemma_castling_mask_bound(tok@);
    }
    if tok.len() == 1 && tok[0] == 45 {
        proof {
            assert(tok@ =~= seq![45u8]);
        }
        return Some(0);
    }
    proof {
        assert(!(tok@ =~= seq![45u8]));
    }
    let mut mask: u8 = 0;
    let mut i: usize = 0;
    while i < tok.len()
        invariant
            i <= tok@.len(),
            !(tok@ =~= seq![45u8]),
            Some(mask) == spec_castling_mask(tok@.take(i as int)),
            mask < 16,
        decreases tok@.len() - i,
    {
        proof {
            assert(tok@.take(i as int + 1).drop_last() =~= tok@.take(i as int));
            assert(tok@.take(i as int + 1).last() == tok@[i as int]);
        }
        proof {
            lemma_or_bits_bound(mask);
        }
        let b = tok[i];
        if b == 75 {
            mask = mask | 0x1;
        } else if b == 81 {
            mask = mask | 0x2;
        } else if b == 107 {
            mask = mask | 0x4;
        } else if b == 113 {
            mask = mask | 0x8;
        } else {
            proof {
                assert(spec_castling_mask(tok@.take(i as int + 1)) is None);
                lemma_castling_prefix_none(tok@, i as int + 1);
                assert(spec_castling_mask(tok@) is None);
            }
            return None;
        }
        i += 1;
    }
    proof {
        assert(tok@.take(tok@.len() as int) =~= tok@);
    }
    Some(mask)
}

/// Once a prefix refuses, the whole token refuses.
proof fn lemma_castling_prefix_none(s: Seq<u8>, i: int)
    requires
        0 <= i <= s.len(),
        spec_castling_mask(s.take(i)) is None,
    ensures
        spec_castling_mask(s) is None,
    decreases s.len() - i,
{
    if i < s.len() {
        assert(s.take(i + 1).drop_last() =~= s.take(i));
        lemma_castling_prefix_none(s, i + 1);
    } else {
        assert(s.take(i) =~= s);
    }
}

/// The sequence split on `/`, every separator making a boundary and
/// empty pieces kept: `cur` is the piece being read, `i` the cursor.
pub open spec fn split_slash_from(s: Seq<u8>, i: int, cur: Seq<u8>) -> Seq<Seq<u8>>
    decreases s.len() - i,
{
    if i >= s.len() {
        seq![cur]
    } else if s[i] == 47 {
        seq![cur] + split_slash_from(s, i + 1, Seq::empty())
    } else {
        split_slash_from(s, i + 1, cur.push(s[i]))
    }
}

/// The `/`-separated pieces of the sequence.
pub open spec fn spec_split_slash(s: Seq<u8>) -> Seq<Seq<u8>> {
    split_slash_from(s, 0, Seq::empty())
}

/// Exec twin of `spec_split_slash`.
fn split_slash(tok: &[u8]) -> (r: Vec<Vec<u8>>)
    ensures
        r@.map_values(|v: Vec<u8>| v@) == spec_split_slash(tok@),
{
    let mut parts: Vec<Vec<u8>> = Vec::new();
    let mut cur: Vec<u8> = Vec::new();
    let mut i: usize = 0;
    proof {
        assert(parts@.map_values(|v: Vec<u8>| v@) =~= Seq::<Seq<u8>>::empty());
    }
    while i < tok.len()
        invariant
            i <= tok@.len(),
            parts@.map_values(|v: Vec<u8>| v@) + split_slash_from(tok@, i as int, cur@)
                =~= spec_split_slash(tok@),
        decreases tok@.len() - i,
    {
        let b = tok[i];
        if b == 47 {
            proof {
                assert((parts@.push(cur)).map_values(|v: Vec<u8>| v@) =~= parts@.map_values(
                    |v: Vec<u8>| v@,
                ).push(cur@));
            }
            parts.push(cur);
            cur = Vec::new();
        } else {
            cur.push(b);
        }
        i += 1;
    }
    proof {
        assert((parts@.push(cur)).map_values(|v: Vec<u8>| v@) =~= parts@.map_values(
            |v: Vec<u8>| v@,
        ).push(cur@));
    }
    parts.push(cur);
    parts
}

/// A run of empty squares.
pub open spec fn empties(n: int) -> Seq<PieceEntry> {
    Seq::new(n as nat, |j: int| None)
}

/// The side a piece letter names: upper case White, lower case Black.
pub open spec fn side_of_letter(b: u8) -> u8 {
    if 65 <= b <= 90 {
        0u8
    } else {
        1u8
    }
}

/// Reads a rank descriptor from cursor `i` with the squares read so far
/// in `acc`: digits `1..8` add empty squares, piece letters add pieces,
/// and the rank must come out at exactly eight squares.
pub open spec fn rank_from(s: Seq<u8>, i: int, acc: Seq<PieceEntry>) -> Option<Seq<PieceEntry>>
    decreases s.len() - i,
{
    if i >= s.len() {
        if acc.len() == 8 {
            Some(acc)
        } else {
            None
        }
    } else {
        let b = s[i];
        if 49 <= b <= 56 {
            rank_from(s, i + 1, acc + empties(b - 48))
        } else {
            match spec_piece_of_byte(b) {
                Some(p) => if acc.len() < 8 {
                    rank_from(s, i + 1, acc.push(Some((side_of_letter(b), p))))
                } else {
                    None
                },
                None => None,
            }
        }
    }
}

/// A whole rank descriptor.
pub open spec fn spec_parse_rank(s: Seq<u8>) -> Option<Seq<PieceEntry>> {
    rank_from(s, 0, Seq::empty())
}

/// Whatever a rank descriptor accepts is eight squares of real sides.
proof fn lemma_rank_from_shape(s: Seq<u8>, i: int, acc: Seq<PieceEntry>)
    requires
        forall|k: int| 0 <= k < acc.len() ==> crate::board::entry_side_valid(#[trigger] acc[k]),
    ensures
        match rank_from(s, i, acc) {
            Some(row) => row.len() == 8 && forall|k: int|
                0 <= k < row.len() ==> crate::board::entry_side_valid(#[trigger] row[k]),
            None => true,
        },
    decreases s.len() - i,
{
    if i >= s.len() {
    } else {
        let b = s[i];
        if 49 <= b <= 56 {
            assert(forall|k: int|
                0 <= k < (acc + empties(b - 48)).len() ==> crate::board::entry_side_valid(
                    #[trigger] (acc + empties(b - 48))[k],
                ));
            lemma_rank_from_shape(s, i + 1, acc + empties(b - 48));
        } else {
            match spec_piece_of_byte(b) {
                Some(p) => {
                    if acc.len() < 8 {
                        lemma_rank_from_shape(
                            s,
                            i + 1,
                            acc.push(Some((side_of_letter(b), p))),
                        );
                    }
                },
                None => {},
            }
        }
    }
}

/// Exec twin of `spec_parse_rank`.
fn parse_rank(part: &[u8]) -> (r: Option<Vec<PieceEntry>>)
    ensures
        match r {
            Some(row) => spec_parse_rank(part@) == Some(row@),
            None => spec_parse_rank(part@) is None,
        },
{
    let mut acc: Vec<PieceEntry> = Vec::new();
    let mut i: usize = 0;
    proof {
        assert(acc@ =~= Seq::<PieceEntry>::empty());
    }
    while i < part.len()
        invariant
            i <= part@.len(),
            rank_from(part@, i as int, acc@) == spec_parse_rank(part@),
        decreases part@.len() - i,
    {
        let b = part[i];
        if 49 <= b && b <= 56 {
            let n = (b - 48) as usize;
            let ghost snapshot = acc@;
            let mut j: usize = 0;
            while j < n
                invariant
                    j <= n,
                    acc@ =~= snapshot + empties(j as int),
                decreases n - j,
            {
                proof {
                    assert(snapshot + empties(j as int + 1) =~= (snapshot + empties(
                        j as int,
                    )).push(None));
                }
                acc.push(None);
                j += 1;
            }
        } else {
            match Pieces::match_char(b) {
                Some(p) => {
                    if acc.len() < 8 {
                        let side: u8 = if 65 <= b && b <= 90 {
                            0
                        } else {
                            1
                        };
                        acc.push(Some((side, p)));
                    } else {
                        return None;
                    }
                },
                None => {
                    return None;
                },
            }
        }
        i += 1;
    }
    if acc.len() == 8 {
        Some(acc)
    } else {
        None
    }
}

/// What a byte denotes as a file, case-insensitively.
pub open spec fn file_of_byte(b: u8) -> Option<u8> {
    if 97 <= b <= 104 {
        Some((b - 97) as u8)
    } else if 65 <= b <= 72 {
        Some((b - 65) as u8)
    } else {
        None
    }
}

/// What a byte denotes as a rank.
pub open spec fn rank_of_byte(b: u8) -> Option<u8> {
    if 49 <= b <= 56 {
        Some((b - 49) as u8)
    } else {
        None
    }
}

/// An en-passant token: `-` for none, else exactly a file letter and a
/// rank digit naming a square on the third or sixth rank.
pub open spec fn spec_parse_ep(s: Seq<u8>) -> Option<Option<crate::square::Square>> {
    if s =~= seq![45u8] {
        Some(None)
    } else if s.len() == 2 {
        match (file_of_byte(s[0]), rank_of_byte(s[1])) {
            (Some(f), Some(r)) => if r == 2 || r == 5 {
                Some(Some(crate::square::Square((f + 8 * r) as u8)))
            } else {
                None
            },
            _ => None,
        }
    } else {
        None
    }
}

/// Exec twin of `spec_parse_ep`.
pub fn parse_ep_token(tok: &[u8]) -> (r: Option<Option<crate::square::Square>>)
    ensures
        r == spec_parse_ep(tok@),
        match r {
            Some(Some(sq)) => sq.valid() && (sq.0 / 8 == 2 || sq.0 / 8 == 5),
            _ => true,
        },
{
    if tok.len() == 1 && tok[0] == 45 {
        proof {
            assert(tok@ =~= seq![45u8]);
        }
        return Some(None);
    }
    proof {
        assert(!(tok@ =~= seq![45u8]));
    }
    if tok.len() != 2 {
        return None;
    }
    let fb = tok[0];
    let rb = tok[1];
    let f: u8 = if 97 <= fb && fb <= 104 {
        fb - 97
    } else if 65 <= fb && fb <= 72 {
        fb - 65
    } else {
        return None;
    };
    let r: u8 = if 49 <= rb && rb <= 56 {
        rb - 49
    } else {
        return None;
    };
    if r == 2 || r == 5 {
        Some(Some(crate::square::Square(f + 8 * r)))
    } else {
        None
    }
}

/// The fields a well-formed position description yields.
pub ghost struct FenFields {
    /// What stands on each of the 64 squares.
    pub pl: Seq<PieceEntry>,
    /// The side to move.
    pub side: u8,
    /// The castling-rights mask.
    pub castling: u8,
    /// The en-passant target, if any.
    pub ep: Option<crate::square::Square>,
    /// The halfmove clock.
    pub halfmove: u16,
    /// The fullmove number.
    pub fullmove: u16,
}

/// What a position description parses to: its fields, or the first
/// field that refuses it, in field order.
pub ghost enum FenOutcome {
    Fields(FenFields),
    BadParts,
    BadBoard,
    BadSide,
    BadCastling,
    BadEnPassant,
    BadHalfmove,
    BadFullmove,
}

/// The whole grammar of a position description: six whitespace-separated
/// fields — placement, side, castling, en passant, halfmove clock,
/// fullmove number — each checked in order.
pub open spec fn spec_parse_fen(s: Seq<u8>) -> FenOutcome {
    let parts = spec_split_ws(s);
    if parts.len() != 6 {
        FenOutcome::BadParts
    } else {
        match spec_parse_placement(parts[0]) {
            None => FenOutcome::BadBoard,
            Some(pl) => if !(parts[1] =~= seq![119u8] || parts[1] =~= seq![98u8]) {
                FenOutcome::BadSide
            } else {
                let side: u8 = if parts[1] =~= seq![119u8] {
                    0u8
                } else {
                    1u8
                };
                match spec_parse_castling(parts[2]) {
                    None => FenOutcome::BadCastling,
                    Some(mask) => match spec_parse_ep(parts[3]) {
                        None => FenOutcome::BadEnPassant,
                        Some(ep) => match spec_parse_u16(parts[4]) {
                            None => FenOutcome::BadHalfmove,
                            Some(hm) => match spec_parse_u16(parts[5]) {
                                None => FenOutcome::BadFullmove,
                                Some(fm) => FenOutcome::Fields(
                                    FenFields {
                                        pl,
                                        side,
                                        castling: mask,
                                        ep,
                                        halfmove: hm,
                                        fullmove: fm,
                                    },
                                ),
                            },
                        },
                    },
                }
            },
        }
    }
}

/// The eight rank descriptors assembled into a placement: the first
/// listed rank is the top one, so it lands on the highest square
/// indices.
pub open spec fn spec_parse_placement(s: Seq<u8>) -> Option<Seq<PieceEntry>> {
    let parts = spec_split_slash(s);
    if parts.len() != 8 {
        None
    } else if forall|k: int| 0 <= k < 8 ==> spec_parse_rank(#[trigger] parts[k]) is Some {
        Some(
            spec_parse_rank(parts[7])->0 + spec_parse_rank(parts[6])->0 + spec_parse_rank(
                parts[5],
            )->0 + spec_parse_rank(parts[4])->0 + spec_parse_rank(parts[3])->0 + spec_parse_rank(
                parts[2],
            )->0 + spec_parse_rank(parts[1])->0 + spec_parse_rank(parts[0])->0,
        )
    } else {
        None
    }
}

/// Exec twin of `spec_parse_placement`.
fn parse_placement(tok: &[u8]) -> (r: Option<Vec<PieceEntry>>)
    ensures
        match r {
            Some(pl) => spec_parse_placement(tok@) == Some(pl@) && pl@.len() == 64 && (forall|
                k: int,
            |
                0 <= k < 64 ==> crate::board::entry_side_valid(#[trigger] pl@[k])),
            None => spec_parse_placement(tok@) is None,
        },
{
    let parts = split_slash(tok);
    if parts.len() != 8 {
        return None;
    }
    let mut pl: Vec<PieceEntry> = Vec::new();
    let mut k: usize = 8;
    while k > 0
        invariant
            k <= 8,
            parts@.len() == 8,
            parts@.map_values(|v: Vec<u8>| v@) == spec_split_slash(tok@),
            pl@.len() == 8 * (8 - k),
            forall|j: int| k <= j < 8 ==> spec_parse_rank((#[trigger] parts@[j])@) is Some,
            pl@ =~= assemble_rows(parts@.map_values(|v: Vec<u8>| v@), k as int),
            forall|j: int| 0 <= j < pl@.len() ==> crate::board::entry_side_valid(#[trigger] pl@[j]),
        decreases k,
    {
        k -= 1;
        let row = match parse_rank(&parts[k]) {
            Some(row) => row,
            None => {
                return None;
            },
        };
        proof {
            lemma_rank_from_shape(parts@.map_values(|v: Vec<u8>| v@)[k as int], 0, Seq::empty());
            assert(assemble_rows(parts@.map_values(|v: Vec<u8>| v@), k as int) =~= assemble_rows(
                parts@.map_values(|v: Vec<u8>| v@),
                k as int + 1,
            ) + row@);
        }
        let mut j: usize = 0;
        let ghost snapshot = pl@;
        while j < row.len()
            invariant
                j <= row@.len(),
                pl@ =~= snapshot + row@.take(j as int),
            decreases row@.len() - j,
        {
            proof {
                assert(snapshot + row@.take(j as int + 1) =~= (snapshot + row@.take(
                    j as int,
                )).push(row@[j as int]));
            }
            pl.push(row[j]);
            j += 1;
        }
        proof {
            assert(row@.take(row@.len() as int) =~= row@);
        }
    }
    proof {
        let ps = parts@.map_values(|v: Vec<u8>| v@);
        assert forall|j: int| 0 <= j < 8 implies spec_parse_rank(#[trigger] ps[j]) is Some by {
            assert(ps[j] == parts@[j]@);
        }
        reveal_with_fuel(assemble_rows, 9);
        assert(assemble_rows(ps, 0) =~= spec_parse_rank(ps[7])->0 + spec_parse_rank(ps[6])->0
            + spec_parse_rank(ps[5])->0 + spec_parse_rank(ps[4])->0 + spec_parse_rank(ps[3])->0
            + spec_parse_rank(ps[2])->0 + spec_parse_rank(ps[1])->0 + spec_parse_rank(ps[0])->0);
        assert(spec_parse_placement(tok@) == Some(assemble_rows(ps, 0)));
        assert(pl@ =~= assemble_rows(ps, 0));
    }
    Some(pl)
}

/// The rows below rank `k`, concatenated top rank first on top indices:
/// ranks `7` down to `k`, reading the listed descriptors backwards.
pub open spec fn assemble_rows(parts: Seq<Seq<u8>>, k: int) -> Seq<PieceEntry>
    decreases 8 - k,
{
    if k >= 8 {
        Seq::empty()
    } else {
        assemble_rows(parts, k + 1) + spec_parse_rank(parts[k])->0
    }
}

/// Why a position description was refused: one variant per field, with
/// the offending substring.
#[derive(Debug, Clone, PartialEq, Eq)]
pub enum ParseFenError {
    /// Fewer than the six required fields.
    NotEnoughParts,
    /// The piece-placement field is malformed.
    InvalidBoardPart(String),
    /// The side-to-move field is neither `w` nor `b`.
    InvalidSideToMove(String),
    /// The castling field holds a letter outside `KQkq`.
    InvalidCastlingPart(String),
    /// The en-passant field names no square on the third or sixth rank.
    InvalidEnPassantPart(String),
    /// The halfmove clock is not a number the clock can hold.
    InvalidHalfmovePart(String),
    /// The fullmove number is not a number the counter can hold.
    InvalidFullmovePart(String),
}

/// The standard starting position.
pub const STARTING_FEN: &'static str = "rnbqkbnr/pppppppp/8/8/8/8/PPPPPPPP/RNBQKBNR w KQkq - 0 1";

/// Builds the board a placement describes: every named piece put on its
/// square of an otherwise cleared board.
fn board_from_placement(pl: &Vec<PieceEntry>) -> (r: Board)
    requires
        pl@.len() == 64,
        forall|k: int| 0 <= k < 64 ==> crate::board::entry_side_valid(#[trigger] pl@[k]),
    ensures
        r.wf(),
        r.pl() == pl@,
        r.game_state == crate::gamestate::spec_cleared_state(),
        r.history@.len() == 0,
{
    let mut board = Board::new();
    let mut sq: usize = 0;
    while sq < 64
        invariant
            sq <= 64,
            pl@.len() == 64,
            forall|k: int| 0 <= k < 64 ==> crate::board::entry_side_valid(#[trigger] pl@[k]),
            board.wf_placement(),
            forall|k: int| 0 <= k < sq ==> board.pl()[k] == pl@[k],
            forall|k: int| sq <= k < 64 ==> board.pl()[k] is None,
            board.game_state == crate::gamestate::spec_cleared_state(),
            board.history@.len() == 0,
        decreases 64 - sq,
    {
        match pl[sq] {
            Some(sp) => {
                board.put_piece(sp.0, sp.1, Square(sq as u8));
            },
            None => {},
        }
        sq += 1;
    }
    proof {
        assert(board.pl() =~= pl@);
    }
    board
}

/// Parses a position description into a `Board`: the placement, side to
/// move, castling rights, en-passant target and both clocks, each field
/// accepted or refused exactly as `spec_parse_fen` says. The board comes
/// back well formed, with an empty history and a zero Zobrist key;
/// `init_key` then establishes the incremental-hash invariant.
pub fn parse_fen(fen: &str) -> (r: Result<Board, ParseFenError>)
    ensures
        (spec_parse_fen(fen.spec_bytes()) is Fields) == (r is Ok),
        (match r {
            Ok(b) => {
                let f = spec_parse_fen(fen.spec_bytes())->Fields_0;
                &&& b.wf()
                &&& b.pl() == f.pl
                &&& b.game_state == (GameState {
                    active_side: f.side,
                    castling: f.castling,
                    en_passant: f.ep,
                    half_move_clock: f.halfmove,
                    fullmove_number: f.fullmove,
                    ..crate::gamestate::spec_cleared_state()
                })
                &&& b.history@.len() == 0
            },
            Err(e) => match e {
                ParseFenError::NotEnoughParts => spec_parse_fen(fen.spec_bytes()) is BadParts,
                ParseFenError::InvalidBoardPart(_) => spec_parse_fen(fen.spec_bytes()) is BadBoard,
                ParseFenError::InvalidSideToMove(_) => spec_parse_fen(fen.spec_bytes()) is BadSide,
                ParseFenError::InvalidCastlingPart(_) => spec_parse_fen(fen.spec_bytes())
                    is BadCastling,
                ParseFenError::InvalidEnPassantPart(_) => spec_parse_fen(fen.spec_bytes())
                    is BadEnPassant,
                ParseFenError::InvalidHalfmovePart(_) => spec_parse_fen(fen.spec_bytes())
                    is BadHalfmove,
                ParseFenError::InvalidFullmovePart(_) => spec_parse_fen(fen.spec_bytes())
                    is BadFullmove,
            },
        }),
{
    let bytes = fen.as_bytes();
    let tokens = split_ws(bytes);
    let ghost toks = tokens@.map_values(|v: Vec<u8>| v@);
    if tokens.len() != 6 {
        return Err(ParseFenError::NotEnoughParts);
    }
    let pl_vec = match parse_placement(tokens[0].as_slice()) {
        Some(v) => v,
        None => {
            return Err(ParseFenError::InvalidBoardPart(bytes_to_string_lossy(
                tokens[0].as_slice(),
            )));
        },
    };
    let side_tok = tokens[1].as_slice();
    let side: u8 = if side_tok.len() == 1 && side_tok[0] == 119 {
        proof {
            assert(toks[1] =~= seq![119u8]);
        }
        0
    } else if side_tok.len() == 1 && side_tok[0] == 98 {
        proof {
            assert(toks[1] =~= seq![98u8]);
            assert(!(toks[1] =~= seq![119u8]));
        }
        1
    } else {
        proof {
            assert(!(toks[1] =~= seq![119u8]));
            assert(!(toks[1] =~= seq![98u8]));
        }
        return Err(ParseFenError::InvalidSideToMove(bytes_to_string_lossy(side_tok)));
    };
    let castling = match parse_castling_token(tokens[2].as_slice()) {
        Some(m) => m,
        None => {
            return Err(ParseFenError::InvalidCastlingPart(bytes_to_string_lossy(
                tokens[2].as_slice(),
            )));
        },
    };
    let ep = match parse_ep_token(tokens[3].as_slice()) {
        Some(e) => e,
        None => {
            return Err(ParseFenError::InvalidEnPassantPart(bytes_to_string_lossy(
                tokens[3].as_slice(),
            )));
        },
    };
    let halfmove = match parse_u16(tokens[4].as_slice()) {
        Some(n) => n,
        None => {
            return Err(ParseFenError::InvalidHalfmovePart(bytes_to_string_lossy(
                tokens[4].as_slice(),
            )));
        },
    };
    let fullmove = match parse_u16(tokens[5].as_slice()) {
        Some(n) => n,
        None => {
            return Err(ParseFenError::InvalidFullmovePart(bytes_to_string_lossy(
                tokens[5].as_slice(),
            )));
        },
    };
    let mut board = board_from_placement(&pl_vec);
    let ghost placed = board;
    let mut gs = GameState::new();
    gs.active_side = side;
    gs.castling = castling;
    gs.en_passant = ep;
    gs.half_move_clock = halfmove;
    gs.fullmove_number = fullmove;
    board.game_state = gs;
    proof {
        crate::board::lemma_wf_placement_same_fields(placed, board);
    }
    Ok(board)
}

/// The letter a piece prints as: upper case for White, lower for Black.
pub open spec fn piece_letter(side: u8, p: Pieces) -> u8 {
    let upper: u8 = match p {
        Pieces::King => 75,
        Pieces::Queen => 81,
        Pieces::Rook => 82,
        Pieces::Bishop => 66,
        Pieces::Knight => 78,
        Pieces::Pawn => 80,
    };
    if side == 0 {
        upper
    } else {
        (upper + 32) as u8
    }
}

/// Exec twin of `piece_letter`.
fn piece_letter_exec(side: u8, p: Pieces) -> (r: u8)
    ensures
        r == piece_letter(side, p),
{
    let upper: u8 = match p {
        Pieces::King => 75,
        Pieces::Queen => 81,
        Pieces::Rook => 82,
        Pieces::Bishop => 66,
        Pieces::Knight => 78,
        Pieces::Pawn => 80,
    };
    if side == 0 {
        upper
    } else {
        upper + 32
    }
}

/// How many consecutive squares from `i` of the eight-square row are
/// empty.
pub open spec fn empty_run(row: Seq<PieceEntry>, i: int) -> int
    decreases 8 - i,
{
    if i < 0 || i >= 8 || row[i] is Some {
        0
    } else {
        1 + empty_run(row, i + 1)
    }
}

/// The empty run stays within the row, covers only empty squares, and
/// ends at the row's end or at a piece.
pub proof fn lemma_empty_run_shape(row: Seq<PieceEntry>, i: int)
    requires
        0 <= i <= 8,
    ensures
        0 <= empty_run(row, i) <= 8 - i,
        forall|k: int| i <= k < i + empty_run(row, i) ==> row[k] is None,
        i + empty_run(row, i) == 8 || row[i + empty_run(row, i)] is Some,
    decreases 8 - i,
{
    if i < 8 && row[i] is None {
        lemma_empty_run_shape(row, i + 1);
    }
}

/// The bytes of a rank descriptor from square `i` of the row on: runs
/// of empty squares as digits, pieces as letters.
pub open spec fn rank_bytes_from(row: Seq<PieceEntry>, i: int) -> Seq<u8>
    decreases 8 - i,
    via rank_bytes_from_decreases
{
    if i < 0 || i >= 8 {
        Seq::empty()
    } else {
        match row[i] {
            Some(sp) => seq![piece_letter(sp.0, sp.1)] + rank_bytes_from(row, i + 1),
            None => seq![(48 + empty_run(row, i)) as u8] + rank_bytes_from(
                row,
                i + empty_run(row, i),
            ),
        }
    }
}

#[via_fn]
proof fn rank_bytes_from_decreases(row: Seq<PieceEntry>, i: int) {
    if 0 <= i < 8 {
        lemma_empty_run_shape(row, i);
    }
}

/// The eight squares of rank `r` of a placement.
pub open spec fn rank_row(pl: Seq<PieceEntry>, r: int) -> Seq<PieceEntry> {
    pl.subrange(8 * r, 8 * r + 8)
}

/// The placement field of a position description: the top rank first,
/// ranks separated by `/`.
pub open spec fn spec_placement_bytes(pl: Seq<PieceEntry>) -> Seq<u8> {
    rank_bytes_from(rank_row(pl, 7), 0) + seq![47u8] + rank_bytes_from(rank_row(pl, 6), 0)
        + seq![47u8] + rank_bytes_from(rank_row(pl, 5), 0) + seq![47u8] + rank_bytes_from(
        rank_row(pl, 4),
        0,
    ) + seq![47u8] + rank_bytes_from(rank_row(pl, 3), 0) + seq![47u8] + rank_bytes_from(
        rank_row(pl, 2),
        0,
    ) + seq![47u8] + rank_bytes_from(rank_row(pl, 1), 0) + seq![47u8] + rank_bytes_from(
        rank_row(pl, 0),
        0,
    )
}

/// The decimal digits of a non-negative number, most significant first.
pub open spec fn dec_bytes(n: int) -> Seq<u8>
    decreases n,
{
    if n < 10 {
        seq![(48 + n) as u8]
    } else {
        dec_bytes(n / 10).push((48 + n % 10) as u8)
    }
}

/// The side-to-move byte: `w` or `b`.
pub open spec fn side_byte(side: u8) -> u8 {
    if side == 0 {
        119u8
    } else {
        98u8
    }
}

/// The en-passant field: `-`, or the target square's file letter and
/// rank digit.
pub open spec fn ep_bytes(ep: Option<Square>) -> Seq<u8> {
    match ep {
        None => seq![45u8],
        Some(sq) => seq![(97 + sq.0 % 8) as u8, (49 + sq.0 / 8) as u8],
    }
}

/// The whole position description of a board: its six fields joined by
/// single spaces.
pub open spec fn spec_fen_bytes(b: Board) -> Seq<u8> {
    spec_placement_bytes(b.pl()) + seq![32u8] + seq![side_byte(b.game_state.active_side)]
        + seq![32u8] + crate::gamestate::spec_castling_bytes(b.game_state.castling) + seq![32u8]
        + ep_bytes(b.game_state.en_passant) + seq![32u8] + dec_bytes(
        b.game_state.half_move_clock as int,
    ) + seq![32u8] + dec_bytes(b.game_state.fullmove_number as int)
}

/// Appends the decimal digits of `n`.
fn push_dec(out: &mut Vec<u8>, n: u16)
    ensures
        final(out)@ == old(out)@ + dec_bytes(n as int),
    decreases n,
{
    if n < 10 {
        out.push(48 + (n as u8));
        proof {
            assert(out@ =~= old(out)@ + dec_bytes(n as int));
        }
    } else {
        push_dec(out, n / 10);
        out.push(48 + ((n % 10) as u8));
        proof {
            assert(out@ =~= old(out)@ + dec_bytes(n as int));
        }
    }
}

/// Appends the rank descriptor of rank `r`.
fn push_rank(out: &mut Vec<u8>, board: &Board, r: usize)
    requires
        r < 8,
    ensures
        final(out)@ == old(out)@ + rank_bytes_from(rank_row(board.pl(), r as int), 0),
{
    let ghost row = rank_row(board.pl(), r as int);
    let ghost base = out@;
    let mut i: usize = 0;
    while i < 8
        invariant
            i <= 8,
            r < 8,
            row == rank_row(board.pl(), r as int),
            base + rank_bytes_from(row, 0) =~= out@ + rank_bytes_from(row, i as int),
        decreases 8 - i,
    {
        proof {
            assert(row[i as int] == board.pl()[r * 8 + i]);
        }
        match board.piece_list[r * 8 + i] {
            Some(sp) => {
                out.push(piece_letter_exec(sp.0, sp.1));
                proof {
                    assert(base + rank_bytes_from(row, 0) =~= out@ + rank_bytes_from(
                        row,
                        i as int + 1,
                    ));
                }
                i += 1;
            },
            None => {
                proof {
                    lemma_empty_run_shape(row, i as int);
                }
                let mut j: usize = i + 1;
                while j < 8 && matches!(board.piece_list[r * 8 + j], None)
                    invariant
                        i < j <= 8,
                        r < 8,
                        row == rank_row(board.pl(), r as int),
                        forall|k: int| i <= k < j ==> row[k] is None,
                    decreases 8 - j,
                {
                    proof {
                        assert(row[j as int] == board.pl()[r * 8 + j]);
                    }
                    j += 1;
                }
                proof {
                    assert(j < 8 ==> row[j as int] == board.pl()[r * 8 + j]);
                    lemma_empty_run_shape(row, i as int);
                    lemma_run_determined(row, i as int, j as int);
                }
                out.push(48 + ((j - i) as u8));
                proof {
                    assert(base + rank_bytes_from(row, 0) =~= out@ + rank_bytes_from(
                        row,
                        j as int,
                    ));
                }
                i = j;
            },
        }
    }
    proof {
        assert(out@ =~= base + rank_bytes_from(row, 0));
    }
}

/// A maximal stretch of empty squares is exactly the empty run.
proof fn lemma_run_determined(row: Seq<PieceEntry>, i: int, j: int)
    requires
        0 <= i < j <= 8,
        forall|k: int| i <= k < j ==> row[k] is None,
        j == 8 || row[j] is Some,
    ensures
        empty_run(row, i) == j - i,
    decreases j - i,
{
    assert(row[i] is None);
    if i + 1 < j {
        lemma_run_determined(row, i + 1, j);
    } else {
        assert(empty_run(row, i + 1) == 0);
    }
}

/// Serializes the board as a position description, the exact inverse of
/// `parse_fen` on every board in its image.
#[verifier::rlimit(100)]
pub fn serialize(board: &Board) -> (r: String)
    requires
        board.wf(),
    ensures
        r@ == crate::text::chars_of_bytes(spec_fen_bytes(*board)),
        crate::text::all_ascii(spec_fen_bytes(*board)),
{
    let mut out: Vec<u8> = Vec::new();
    push_rank(&mut out, board, 7);
    out.push(47);
    push_rank(&mut out, board, 6);
    out.push(47);
    push_rank(&mut out, board, 5);
    out.push(47);
    push_rank(&mut out, board, 4);
    out.push(47);
    push_rank(&mut out, board, 3);
    out.push(47);
    push_rank(&mut out, board, 2);
    out.push(47);
    push_rank(&mut out, board, 1);
    out.push(47);
    push_rank(&mut out, board, 0);
    out.push(32);
    out.push(if board.game_state.active_side == 0 {
        119
    } else {
        98
    });
    out.push(32);
    let mut cb = crate::gamestate::castling_bytes(board.game_state.castling);
    out.append(&mut cb);
    out.push(32);
    match board.game_state.en_passant {
        None => out.push(45),
        Some(sq) => {
            out.push(97 + sq.as_u8() % 8);
            out.push(49 + sq.as_u8() / 8);
        },
    }
    out.push(32);
    push_dec(&mut out, board.game_state.half_move_clock);
    out.push(32);
    push_dec(&mut out, board.game_state.fullmove_number);
    proof {
        assert(out@ =~= spec_fen_bytes(*board));
        lemma_fen_bytes_ascii(*board);
    }
    let r = crate::text::ascii_to_string(&out);
    proof {
        assert(r@ =~= crate::text::chars_of_bytes(spec_fen_bytes(*board)));
    }
    r
}

/// Every byte a board serializes to is ASCII and is no whitespace.
#[verifier::rlimit(100)]
pub proof fn lemma_fen_bytes_ascii(b: Board)
    requires
        b.wf(),
    ensures
        crate::text::all_ascii(spec_fen_bytes(b)),
{
    lemma_rank_bytes_shape(rank_row(b.pl(), 7), 0);
    lemma_rank_bytes_shape(rank_row(b.pl(), 6), 0);
    lemma_rank_bytes_shape(rank_row(b.pl(), 5), 0);
    lemma_rank_bytes_shape(rank_row(b.pl(), 4), 0);
    lemma_rank_bytes_shape(rank_row(b.pl(), 3), 0);
    lemma_rank_bytes_shape(rank_row(b.pl(), 2), 0);
    lemma_rank_bytes_shape(rank_row(b.pl(), 1), 0);
    lemma_rank_bytes_shape(rank_row(b.pl(), 0), 0);
    lemma_dec_bytes_shape(b.game_state.half_move_clock as int);
    lemma_dec_bytes_shape(b.game_state.fullmove_number as int);
}

/// Rank descriptor bytes are printable letters, digits: never
/// whitespace, never a slash, always at least one byte, all ASCII.
pub proof fn lemma_rank_bytes_shape(row: Seq<PieceEntry>, i: int)
    requires
        0 <= i <= 8,
    ensures
        forall|k: int|
            0 <= k < rank_bytes_from(row, i).len() ==> (33 <= #[trigger] rank_bytes_from(row, i)[k]
                < 128 && rank_bytes_from(row, i)[k] != 47),
        i < 8 ==> rank_bytes_from(row, i).len() >= 1,
    decreases 8 - i,
{
    if i < 8 {
        match row[i] {
            Some(sp) => {
                lemma_rank_bytes_shape(row, i + 1);
                let head = piece_letter(sp.0, sp.1);
                assert(33 <= head < 128 && head != 47);
                assert forall|k: int| 0 <= k < rank_bytes_from(row, i).len() implies (33
                    <= #[trigger] rank_bytes_from(row, i)[k] < 128 && rank_bytes_from(row, i)[k]
                    != 47) by {
                    if k > 0 {
                        assert(rank_bytes_from(row, i)[k] == rank_bytes_from(row, i + 1)[k - 1]);
                    }
                }
            },
            None => {
                lemma_empty_run_shape(row, i);
                let run = empty_run(row, i);
                lemma_rank_bytes_shape(row, i + run);
                assert(33 <= 48 + run < 128 && 48 + run != 47);
                assert forall|k: int| 0 <= k < rank_bytes_from(row, i).len() implies (33
                    <= #[trigger] rank_bytes_from(row, i)[k] < 128 && rank_bytes_from(row, i)[k]
                    != 47) by {
                    if k > 0 {
                        assert(rank_bytes_from(row, i)[k] == rank_bytes_from(row, i + run)[k - 1]);
                    }
                }
            },
        }
    }
}

/// Decimal digits are digits: at least one, all ASCII, no whitespace.
pub proof fn lemma_dec_bytes_shape(n: int)
    ensures
        dec_bytes(n).len() >= 1,
        n >= 0 ==> forall|k: int| 0 <= k < dec_bytes(n).len() ==> 48 <= #[trigger] dec_bytes(n)[k]
            <= 57,
    decreases n,
{
    if n >= 10 {
        lemma_dec_bytes_shape(n / 10);
    }
}

/// No byte of the sequence is whitespace.
pub open spec fn no_ws(s: Seq<u8>) -> bool {
    forall|k: int| 0 <= k < s.len() ==> !is_ws(#[trigger] s[k])
}

/// The leading token of a whitespace-free run followed by nothing or by
/// whitespace is the whole run.
proof fn lemma_token_len_clean(a: Seq<u8>, t: Seq<u8>)
    requires
        no_ws(a),
        t.len() == 0 || is_ws(t[0]),
    ensures
        spec_token_len(a + t) == a.len(),
    decreases a.len(),
{
    if a.len() == 0 {
        assert(a + t =~= t);
    } else {
        assert((a + t)[0] == a[0]);
        assert((a + t).skip(1) =~= a.skip(1) + t);
        assert(no_ws(a.skip(1)));
        lemma_token_len_clean(a.skip(1), t);
    }
}

/// Splitting a field, one space, and the rest yields the field and then
/// the rest's tokens.
proof fn lemma_split_ws_field(a: Seq<u8>, rest: Seq<u8>)
    requires
        a.len() > 0,
        no_ws(a),
    ensures
        spec_split_ws(a + seq![32u8] + rest) == seq![a] + spec_split_ws(rest),
{
    let s = a + seq![32u8] + rest;
    assert(seq![32u8] + rest =~= seq![32u8] + rest);
    assert((seq![32u8] + rest)[0] == 32);
    lemma_token_len_clean(a, seq![32u8] + rest);
    assert(s =~= a + (seq![32u8] + rest));
    assert(spec_token_len(s) == a.len());
    assert(s[0] == a[0] && !is_ws(a[0]));
    assert(s.take(a.len() as int) =~= a);
    assert(s.skip(a.len() as int) =~= seq![32u8] + rest);
    assert((seq![32u8] + rest).skip(1) =~= rest);
    assert(spec_split_ws(s) == seq![s.take(a.len() as int)] + spec_split_ws(
        s.skip(a.len() as int),
    ));
}

/// Splitting a lone whitespace-free field yields just that field.
proof fn lemma_split_ws_last(a: Seq<u8>)
    requires
        a.len() > 0,
        no_ws(a),
    ensures
        spec_split_ws(a) == seq![a],
{
    assert(a =~= a + Seq::<u8>::empty());
    lemma_token_len_clean(a, Seq::<u8>::empty());
    assert(spec_token_len(a) == a.len());
    assert(a.take(a.len() as int) =~= a);
    assert(a.skip(a.len() as int) =~= Seq::<u8>::empty());
    assert(spec_split_ws(a) == seq![a.take(a.len() as int)] + spec_split_ws(
        a.skip(a.len() as int),
    ));
    assert(seq![a] + spec_split_ws(Seq::<u8>::empty()) =~= seq![a]);
}

/// `split_slash_from` reads only the suffix at its cursor.
proof fn lemma_split_slash_shift(s: Seq<u8>, i: int, cur: Seq<u8>)
    requires
        0 <= i <= s.len(),
    ensures
        split_slash_from(s, i, cur) == split_slash_from(s.skip(i), 0, cur),
    decreases s.len() - i,
{
    if i >= s.len() {
        assert(s.skip(i) =~= Seq::<u8>::empty());
    } else {
        assert(s.skip(i)[0] == s[i]);
        lemma_split_slash_shift(s, i + 1, if s[i] == 47 {
            Seq::empty()
        } else {
            cur.push(s[i])
        });
        assert(s.skip(i).skip(1) =~= s.skip(i + 1));
        lemma_split_slash_shift(s.skip(i), 1, if s[i] == 47 {
            Seq::empty()
        } else {
            cur.push(s[i])
        });
    }
}

/// Splitting a slash-free piece, a slash, and the rest yields the piece
/// and then the rest's pieces.
proof fn lemma_split_slash_piece(a: Seq<u8>, rest: Seq<u8>, cur: Seq<u8>)
    requires
        forall|k: int| 0 <= k < a.len() ==> #[trigger] a[k] != 47,
    ensures
        split_slash_from(a + seq![47u8] + rest, 0, cur) == seq![cur + a] + split_slash_from(
            rest,
            0,
            Seq::empty(),
        ),
    decreases a.len(),
{
    let s = a + seq![47u8] + rest;
    if a.len() == 0 {
        assert(s[0] == 47);
        assert(cur + a =~= cur);
        lemma_split_slash_shift(s, 1, Seq::empty());
        assert(s.skip(1) =~= rest);
    } else {
        assert(s[0] == a[0] && a[0] != 47);
        lemma_split_slash_shift(s, 1, cur.push(a[0]));
        assert(s.skip(1) =~= a.skip(1) + seq![47u8] + rest);
        assert(forall|k: int| 0 <= k < a.skip(1).len() ==> #[trigger] a.skip(1)[k] != 47);
        lemma_split_slash_piece(a.skip(1), rest, cur.push(a[0]));
        assert(cur.push(a[0]) + a.skip(1) =~= cur + a);
    }
}

/// Splitting a lone slash-free piece yields just that piece.
proof fn lemma_split_slash_all(a: Seq<u8>, cur: Seq<u8>)
    requires
        forall|k: int| 0 <= k < a.len() ==> #[trigger] a[k] != 47,
    ensures
        split_slash_from(a, 0, cur) == seq![cur + a],
    decreases a.len(),
{
    if a.len() == 0 {
        assert(cur + a =~= cur);
    } else {
        lemma_split_slash_shift(a, 1, cur.push(a[0]));
        assert(a.skip(1) =~= a.skip(1));
        lemma_split_slash_all(a.skip(1), cur.push(a[0]));
        assert(cur.push(a[0]) + a.skip(1) =~= cur + a);
    }
}

/// `rank_from` reads only the suffix at its cursor.
proof fn lemma_rank_from_shift(s: Seq<u8>, i: int, acc: Seq<PieceEntry>)
    requires
        0 <= i <= s.len(),
    ensures
        rank_from(s, i, acc) == rank_from(s.skip(i), 0, acc),
    decreases s.len() - i,
{
    if i >= s.len() {
        assert(s.skip(i) =~= Seq::<u8>::empty());
    } else {
        let b = s[i];
        assert(s.skip(i)[0] == b);
        assert(s.skip(i).skip(1) =~= s.skip(i + 1));
        if 49 <= b <= 56 {
            lemma_rank_from_shift(s, i + 1, acc + empties(b - 48));
            lemma_rank_from_shift(s.skip(i), 1, acc + empties(b - 48));
        } else {
            match spec_piece_of_byte(b) {
                Some(p) => {
                    if acc.len() < 8 {
                        lemma_rank_from_shift(s, i + 1, acc.push(Some((side_of_letter(b), p))));
                        lemma_rank_from_shift(
                            s.skip(i),
                            1,
                            acc.push(Some((side_of_letter(b), p))),
                        );
                    }
                },
                None => {},
            }
        }
    }
}

/// A piece letter decodes back to its piece and side.
proof fn lemma_piece_letter_decode(side: u8, p: Pieces)
    requires
        side == 0 || side == 1,
    ensures
        spec_piece_of_byte(piece_letter(side, p)) == Some(p),
        side_of_letter(piece_letter(side, p)) == side,
        !(49 <= piece_letter(side, p) <= 56),
{
}

/// Parsing the serialized rank from square `i` on, with the first `i`
/// squares already read, recovers the whole row.
proof fn lemma_rank_roundtrip_from(row: Seq<PieceEntry>, i: int, acc: Seq<PieceEntry>)
    requires
        row.len() == 8,
        0 <= i <= 8,
        acc == row.take(i),
        forall|k: int| 0 <= k < 8 ==> crate::board::entry_side_valid(#[trigger] row[k]),
    ensures
        rank_from(rank_bytes_from(row, i), 0, acc) == Some(row),
    decreases 8 - i,
{
    if i >= 8 {
        assert(acc =~= row);
    } else {
        match row[i] {
            Some(sp) => {
                let bytes = rank_bytes_from(row, i);
                let letter = piece_letter(sp.0, sp.1);
                lemma_piece_letter_decode(sp.0, sp.1);
                assert(bytes[0] == letter);
                assert(acc.len() == i < 8);
                assert(bytes.skip(1) =~= rank_bytes_from(row, i + 1));
                assert(acc.push(Some((sp.0, sp.1))) =~= row.take(i + 1));
                assert(Some((side_of_letter(letter), sp.1)) == row[i]);
                lemma_rank_from_shift(bytes, 1, acc.push(Some((side_of_letter(letter), sp.1))));
                lemma_rank_roundtrip_from(row, i + 1, row.take(i + 1));
            },
            None => {
                let bytes = rank_bytes_from(row, i);
                lemma_empty_run_shape(row, i);
                let run = empty_run(row, i);
                assert(bytes[0] == 48 + run);
                assert(49 <= bytes[0] <= 56);
                assert(bytes.skip(1) =~= rank_bytes_from(row, i + run));
                assert(acc + empties(run) =~= row.take(i + run));
                lemma_rank_from_shift(bytes, 1, acc + empties(run));
                lemma_rank_roundtrip_from(row, i + run, row.take(i + run));
            },
        }
    }
}

/// The serialized placement splits back into its eight rank
/// descriptors, top rank first.
proof fn lemma_placement_tokens(pl: Seq<PieceEntry>)
    requires
        pl.len() == 64,
    ensures
        spec_split_slash(spec_placement_bytes(pl)) =~= seq![
            rank_bytes_from(rank_row(pl, 7), 0),
            rank_bytes_from(rank_row(pl, 6), 0),
            rank_bytes_from(rank_row(pl, 5), 0),
            rank_bytes_from(rank_row(pl, 4), 0),
            rank_bytes_from(rank_row(pl, 3), 0),
            rank_bytes_from(rank_row(pl, 2), 0),
            rank_bytes_from(rank_row(pl, 1), 0),
            rank_bytes_from(rank_row(pl, 0), 0),
        ],
{
    let r7 = rank_bytes_from(rank_row(pl, 7), 0);
    let r6 = rank_bytes_from(rank_row(pl, 6), 0);
    let r5 = rank_bytes_from(rank_row(pl, 5), 0);
    let r4 = rank_bytes_from(rank_row(pl, 4), 0);
    let r3 = rank_bytes_from(rank_row(pl, 3), 0);
    let r2 = rank_bytes_from(rank_row(pl, 2), 0);
    let r1 = rank_bytes_from(rank_row(pl, 1), 0);
    let r0 = rank_bytes_from(rank_row(pl, 0), 0);
    lemma_rank_bytes_shape(rank_row(pl, 7), 0);
    lemma_rank_bytes_shape(rank_row(pl, 6), 0);
    lemma_rank_bytes_shape(rank_row(pl, 5), 0);
    lemma_rank_bytes_shape(rank_row(pl, 4), 0);
    lemma_rank_bytes_shape(rank_row(pl, 3), 0);
    lemma_rank_bytes_shape(rank_row(pl, 2), 0);
    lemma_rank_bytes_shape(rank_row(pl, 1), 0);
    lemma_rank_bytes_shape(rank_row(pl, 0), 0);
    let t0 = r0;
    let t1 = r1 + seq![47u8] + t0;
    let t2 = r2 + seq![47u8] + t1;
    let t3 = r3 + seq![47u8] + t2;
    let t4 = r4 + seq![47u8] + t3;
    let t5 = r5 + seq![47u8] + t4;
    let t6 = r6 + seq![47u8] + t5;
    let t7 = r7 + seq![47u8] + t6;
    assert(spec_placement_bytes(pl) =~= t7);
    lemma_split_slash_piece(r7, t6, Seq::empty());
    lemma_split_slash_piece(r6, t5, Seq::empty());
    lemma_split_slash_piece(r5, t4, Seq::empty());
    lemma_split_slash_piece(r4, t3, Seq::empty());
    lemma_split_slash_piece(r3, t2, Seq::empty());
    lemma_split_slash_piece(r2, t1, Seq::empty());
    lemma_split_slash_piece(r1, t0, Seq::empty());
    lemma_split_slash_all(r0, Seq::empty());
    assert(Seq::<u8>::empty() + r7 =~= r7);
    assert(Seq::<u8>::empty() + r6 =~= r6);
    assert(Seq::<u8>::empty() + r5 =~= r5);
    assert(Seq::<u8>::empty() + r4 =~= r4);
    assert(Seq::<u8>::empty() + r3 =~= r3);
    assert(Seq::<u8>::empty() + r2 =~= r2);
    assert(Seq::<u8>::empty() + r1 =~= r1);
    assert(Seq::<u8>::empty() + r0 =~= r0);
}

/// The serialized placement parses back to the same placement.
proof fn lemma_placement_roundtrip(pl: Seq<PieceEntry>)
    requires
        pl.len() == 64,
        forall|k: int| 0 <= k < 64 ==> crate::board::entry_side_valid(#[trigger] pl[k]),
    ensures
        spec_parse_placement(spec_placement_bytes(pl)) == Some(pl),
{
    lemma_placement_tokens(pl);
    let parts = spec_split_slash(spec_placement_bytes(pl));
    assert forall|k: int| 0 <= k < 8 implies spec_parse_rank(#[trigger] parts[k]) == Some(
        rank_row(pl, 7 - k),
    ) by {
        let row = rank_row(pl, 7 - k);
        assert(parts[k] == rank_bytes_from(row, 0));
        assert(forall|j: int| 0 <= j < 8 ==> row[j] == pl[8 * (7 - k) + j]);
        assert(Seq::<PieceEntry>::empty() =~= row.take(0));
        lemma_rank_roundtrip_from(row, 0, row.take(0));
    }
    assert(rank_row(pl, 0) + rank_row(pl, 1) + rank_row(pl, 2) + rank_row(pl, 3) + rank_row(pl, 4)
        + rank_row(pl, 5) + rank_row(pl, 6) + rank_row(pl, 7) =~= pl);
    assert(spec_parse_placement(spec_placement_bytes(pl)) == Some(
        spec_parse_rank(parts[7])->0 + spec_parse_rank(parts[6])->0 + spec_parse_rank(parts[5])->0
            + spec_parse_rank(parts[4])->0 + spec_parse_rank(parts[3])->0 + spec_parse_rank(
            parts[2],
        )->0 + spec_parse_rank(parts[1])->0 + spec_parse_rank(parts[0])->0,
    ));
}

/// Serialized decimal digits parse back to the same number.
proof fn lemma_dec_roundtrip(n: int)
    requires
        0 <= n,
    ensures
        all_digits(dec_bytes(n)),
        dec_value(dec_bytes(n)) == n,
    decreases n,
{
    lemma_dec_bytes_shape(n);
    if n < 10 {
        assert(dec_bytes(n) =~= seq![(48 + n) as u8]);
        assert(dec_bytes(n).drop_last() =~= Seq::<u8>::empty());
        assert(dec_bytes(n).last() == (48 + n) as u8);
        assert(dec_value(dec_bytes(n)) == dec_value(Seq::<u8>::empty()) * 10 + ((48 + n) as u8
            - 48));
    } else {
        lemma_dec_roundtrip(n / 10);
        assert(dec_bytes(n).drop_last() =~= dec_bytes(n / 10));
        assert(dec_bytes(n).last() == (48 + n % 10) as u8);
        assert(n / 10 * 10 + n % 10 == n) by {
            vstd::arithmetic::div_mod::lemma_fundamental_div_mod(n, 10);
        }
    }
}

/// The serialized castling field parses back to the same mask.
proof fn lemma_castling_roundtrip(m: u8)
    requires
        m < 16,
    ensures
        spec_parse_castling(crate::gamestate::spec_castling_bytes(m)) == Some(m),
        crate::gamestate::spec_castling_bytes(m).len() >= 1,
        no_ws(crate::gamestate::spec_castling_bytes(m)),
{
    let bytes = crate::gamestate::spec_castling_bytes(m);
    reveal_with_fuel(spec_castling_mask, 6);
    lemma_mask_bit_facts(m);
    if m == 0 {
        assert(bytes =~= seq![45u8]);
    } else {
        let ka = if m & 0x1 != 0 {
            seq![75u8]
        } else {
            Seq::<u8>::empty()
        };
        let qa = if m & 0x2 != 0 {
            seq![81u8]
        } else {
            Seq::<u8>::empty()
        };
        let kb = if m & 0x4 != 0 {
            seq![107u8]
        } else {
            Seq::<u8>::empty()
        };
        let qb = if m & 0x8 != 0 {
            seq![113u8]
        } else {
            Seq::<u8>::empty()
        };
        assert(bytes == ka + qa + kb + qb);
        lemma_castling_cases(m);
    }
}

/// Bit tests and bit unions of a four-bit mask, in arithmetic form.
proof fn lemma_mask_bit_facts(m: u8)
    by (bit_vector)
    ensures
        (m & 0x1 != 0) == (m % 2 == 1),
        (m & 0x2 != 0) == ((m / 2) % 2 == 1),
        (m & 0x4 != 0) == ((m / 4) % 2 == 1),
        (m & 0x8 != 0) == ((m / 8) % 2 == 1),
        0u8 | 0x1 == 1u8,
        0u8 | 0x2 == 2u8,
        1u8 | 0x2 == 3u8,
        0u8 | 0x4 == 4u8,
        1u8 | 0x4 == 5u8,
        2u8 | 0x4 == 6u8,
        3u8 | 0x4 == 7u8,
        0u8 | 0x8 == 8u8,
        1u8 | 0x8 == 9u8,
        2u8 | 0x8 == 10u8,
        3u8 | 0x8 == 11u8,
        4u8 | 0x8 == 12u8,
        5u8 | 0x8 == 13u8,
        6u8 | 0x8 == 14u8,
        7u8 | 0x8 == 15u8,
{
}

/// Case analysis of the fifteen non-empty castling masks.
#[verifier::rlimit(100)]
#[verifier::spinoff_prover]
proof fn lemma_castling_cases(m: u8)
    requires
        1 <= m < 16,
    ensures
        spec_parse_castling(crate::gamestate::spec_castling_bytes(m)) == Some(m),
        crate::gamestate::spec_castling_bytes(m).len() >= 1,
        no_ws(crate::gamestate::spec_castling_bytes(m)),
{
    let bytes = crate::gamestate::spec_castling_bytes(m);
    reveal_with_fuel(spec_castling_mask, 6);
    lemma_mask_bit_facts(m);
    if m == 1 {
        assert(bytes =~= seq![75u8]);
        assert(bytes.drop_last() =~= Seq::<u8>::empty());
        assert(!(bytes =~= seq![45u8]));
    } else if m == 2 {
        assert(bytes =~= seq![81u8]);
        assert(bytes.drop_last() =~= Seq::<u8>::empty());
        assert(!(bytes =~= seq![45u8]));
    } else if m == 3 {
        assert(bytes =~= seq![75u8, 81u8]);
        assert(bytes.drop_last() =~= seq![75u8]);
        assert(bytes.drop_last().drop_last() =~= Seq::<u8>::empty());
        assert(!(bytes =~= seq![45u8]));
    } else if m == 4 {
        assert(bytes =~= seq![107u8]);
        assert(bytes.drop_last() =~= Seq::<u8>::empty());
        assert(!(bytes =~= seq![45u8]));
    } else if m == 5 {
        assert(bytes =~= seq![75u8, 107u8]);
        assert(bytes.drop_last() =~= seq![75u8]);
        assert(bytes.drop_last().drop_last() =~= Seq::<u8>::empty());
        assert(!(bytes =~= seq![45u8]));
    } else if m == 6 {
        assert(bytes =~= seq![81u8, 107u8]);
        assert(bytes.drop_last() =~= seq![81u8]);
        assert(bytes.drop_last().drop_last() =~= Seq::<u8>::empty());
        assert(!(bytes =~= seq![45u8]));
    } else if m == 7 {
        assert(bytes =~= seq![75u8, 81u8, 107u8]);
        assert(bytes.drop_last() =~= seq![75u8, 81u8]);
        assert(bytes.drop_last().drop_last() =~= seq![75u8]);
        assert(bytes.drop_last().drop_last().drop_last() =~= Seq::<u8>::empty());
        assert(!(bytes =~= seq![45u8]));
    } else if m == 8 {
        assert(bytes =~= seq![113u8]);
        assert(bytes.drop_last() =~= Seq::<u8>::empty());
        assert(!(bytes =~= seq![45u8]));
    } else if m == 9 {
        assert(bytes =~= seq![75u8, 113u8]);
        assert(bytes.drop_last() =~= seq![75u8]);
        assert(bytes.drop_last().drop_last() =~= Seq::<u8>::empty());
        assert(!(bytes =~= seq![45u8]));
    } else if m == 10 {
        assert(bytes =~= seq![81u8, 113u8]);
        assert(bytes.drop_last() =~= seq![81u8]);
        assert(bytes.drop_last().drop_last() =~= Seq::<u8>::empty());
        assert(!(bytes =~= seq![45u8]));
    } else if m == 11 {
        assert(bytes =~= seq![75u8, 81u8, 113u8]);
        assert(bytes.drop_last() =~= seq![75u8, 81u8]);
        assert(bytes.drop_last().drop_last() =~= seq![75u8]);
        assert(bytes.drop_last().drop_last().drop_last() =~= Seq::<u8>::empty());
        assert(!(bytes =~= seq![45u8]));
    } else if m == 12 {
        assert(bytes =~= seq![107u8, 113u8]);
        assert(bytes.drop_last() =~= seq![107u8]);
        assert(bytes.drop_last().drop_last() =~= Seq::<u8>::empty());
        assert(!(bytes =~= seq![45u8]));
    } else if m == 13 {
        assert(bytes =~= seq![75u8, 107u8, 113u8]);
        assert(bytes.drop_last() =~= seq![75u8, 107u8]);
        assert(bytes.drop_last().drop_last() =~= seq![75u8]);
        assert(bytes.drop_last().drop_last().drop_last() =~= Seq::<u8>::empty());
        assert(!(bytes =~= seq![45u8]));
    } else if m == 14 {
        assert(bytes =~= seq![81u8, 107u8, 113u8]);
        assert(bytes.drop_last() =~= seq![81u8, 107u8]);
        assert(bytes.drop_last().drop_last() =~= seq![81u8]);
        assert(bytes.drop_last().drop_last().drop_last() =~= Seq::<u8>::empty());
        assert(!(bytes =~= seq![45u8]));
    } else {
        assert(bytes =~= seq![75u8, 81u8, 107u8, 113u8]);
        assert(bytes.drop_last() =~= seq![75u8, 81u8, 107u8]);
        assert(bytes.drop_last().drop_last() =~= seq![75u8, 81u8]);
        assert(bytes.drop_last().drop_last().drop_last() =~= seq![75u8]);
        assert(bytes.drop_last().drop_last().drop_last().drop_last() =~= Seq::<u8>::empty());
        assert(!(bytes =~= seq![45u8]));
    }
}

/// The serialized en-passant field parses back to the same target.
proof fn lemma_ep_roundtrip(ep: Option<Square>)
    requires
        match ep {
            Some(sq) => sq.valid() && (sq.0 / 8 == 2 || sq.0 / 8 == 5),
            None => true,
        },
    ensures
        spec_parse_ep(ep_bytes(ep)) == Some(ep),
        ep_bytes(ep).len() >= 1,
        no_ws(ep_bytes(ep)),
{
    match ep {
        None => {
            assert(ep_bytes(ep) =~= seq![45u8]);
        },
        Some(sq) => {
            let bytes = ep_bytes(ep);
            assert(bytes.len() == 2);
            assert(!(bytes =~= seq![45u8]));
            let f = (sq.0 % 8) as u8;
            let r = (sq.0 / 8) as u8;
            assert(file_of_byte(bytes[0]) == Some(f));
            assert(rank_of_byte(bytes[1]) == Some(r));
            vstd::arithmetic::div_mod::lemma_fundamental_div_mod(sq.0 as int, 8);
            assert((f + 8 * r) as u8 == sq.0);
        },
    }
}

/// The whole round trip: serializing any well-formed board and parsing
/// the result yields exactly the board's placement, side to move,
/// castling rights, en-passant target, halfmove clock and fullmove
/// number. Parsing is therefore idempotent across a serialize.
#[verifier::rlimit(100)]
pub proof fn lemma_fen_roundtrip(b: Board)
    requires
        b.wf(),
    ensures
        spec_parse_fen(spec_fen_bytes(b)) == FenOutcome::Fields(
            FenFields {
                pl: b.pl(),
                side: b.game_state.active_side,
                castling: b.game_state.castling,
                ep: b.game_state.en_passant,
                halfmove: b.game_state.half_move_clock,
                fullmove: b.game_state.fullmove_number,
            },
        ),
{
    let pl = b.pl();
    let placement = spec_placement_bytes(pl);
    let side_tok = seq![side_byte(b.game_state.active_side)];
    let castle_tok = crate::gamestate::spec_castling_bytes(b.game_state.castling);
    let ep_tok = ep_bytes(b.game_state.en_passant);
    let half_tok = dec_bytes(b.game_state.half_move_clock as int);
    let full_tok = dec_bytes(b.game_state.fullmove_number as int);
    // each field is non-empty and free of whitespace
    lemma_rank_bytes_shape(rank_row(pl, 7), 0);
    lemma_rank_bytes_shape(rank_row(pl, 6), 0);
    lemma_rank_bytes_shape(rank_row(pl, 5), 0);
    lemma_rank_bytes_shape(rank_row(pl, 4), 0);
    lemma_rank_bytes_shape(rank_row(pl, 3), 0);
    lemma_rank_bytes_shape(rank_row(pl, 2), 0);
    lemma_rank_bytes_shape(rank_row(pl, 1), 0);
    lemma_rank_bytes_shape(rank_row(pl, 0), 0);
    assert(no_ws(placement) && placement.len() > 0);
    lemma_castling_roundtrip(b.game_state.castling);
    lemma_ep_roundtrip(b.game_state.en_passant);
    lemma_dec_bytes_shape(b.game_state.half_move_clock as int);
    lemma_dec_bytes_shape(b.game_state.fullmove_number as int);
    assert(no_ws(half_tok) && no_ws(full_tok));
    // tokenization peels the six fields off one by one
    let s5 = full_tok;
    let s4 = half_tok + seq![32u8] + s5;
    let s3 = ep_tok + seq![32u8] + s4;
    let s2 = castle_tok + seq![32u8] + s3;
    let s1 = side_tok + seq![32u8] + s2;
    let s0 = placement + seq![32u8] + s1;
    assert(spec_fen_bytes(b) =~= s0);
    lemma_split_ws_field(placement, s1);
    lemma_split_ws_field(side_tok, s2);
    lemma_split_ws_field(castle_tok, s3);
    lemma_split_ws_field(ep_tok, s4);
    lemma_split_ws_field(half_tok, s5);
    lemma_split_ws_last(full_tok);
    let parts = spec_split_ws(spec_fen_bytes(b));
    assert(parts =~= seq![placement, side_tok, castle_tok, ep_tok, half_tok, full_tok]);
    // each field parses back to the board's value
    lemma_placement_roundtrip(pl);
    if b.game_state.active_side == 0 {
        assert(parts[1] =~= seq![119u8]);
    } else {
        assert(parts[1] =~= seq![98u8]);
        assert(!(parts[1] =~= seq![119u8]));
    }
    lemma_dec_roundtrip(b.game_state.half_move_clock as int);
    lemma_dec_roundtrip(b.game_state.fullmove_number as int);
}

/// A string that prints a board's description parses back to the
/// board's own fields: the serialize/parse round trip is exact, so
/// parsing is idempotent across it.
pub proof fn lemma_serialized_parses_back(b: Board, s: &str)
    requires
        b.wf(),
        s@ == crate::text::chars_of_bytes(spec_fen_bytes(b)),
    ensures
        spec_parse_fen(s.spec_bytes()) == FenOutcome::Fields(
            FenFields {
                pl: b.pl(),
                side: b.game_state.active_side,
                castling: b.game_state.castling,
                ep: b.game_state.en_passant,
                halfmove: b.game_state.half_move_clock,
                fullmove: b.game_state.fullmove_number,
            },
        ),
{
    lemma_fen_bytes_ascii(b);
    let bytes = spec_fen_bytes(b);
    assert(vstd::utf8::is_ascii_chars(s@));
    vstd::utf8::is_ascii_chars_encode_utf8(s@);
    assert(s.spec_bytes() =~= bytes);
    lemma_fen_roundtrip(b);
}

/// Why a description was refused, for callers of the `Fen` front end.
#[derive(Debug, Clone, PartialEq, Eq)]
pub enum FenParsingError {
    /// Fewer than the six required fields.
    NotEnoughParts,
    /// The piece-placement field is malformed.
    InvalidBoardPart(String),
    /// The side-to-move field is neither `w` nor `b`.
    InvalidSideToMove(String),
    /// The castling field holds a letter outside `KQkq`.
    InvalidCastlingPart(String),
    /// The en-passant field names no square on the third or sixth rank.
    InvalidEnPassantSquare(String),
    /// The fullmove number is not a number the counter can hold.
    InvalidFullmoveCount(String),
    /// The halfmove clock is not a number the clock can hold.
    InvalidHalfmoveClock(String),
}

/// What `Fen::parse` and `Game::from_fen` promise: a game whose board
/// carries exactly the parsed fields, or the error of the first field
/// that refused.
pub open spec fn spec_game_parse(s: Seq<u8>, r: Result<crate::game::Game, FenParsingError>) -> bool {
    &&& (spec_parse_fen(s) is Fields) == (r is Ok)
    &&& (match r {
        Ok(g) => {
            let f = spec_parse_fen(s)->Fields_0;
            &&& g.board.wf()
            &&& g.board.pl() == f.pl
            &&& g.board.game_state == (crate::gamestate::GameState {
                active_side: f.side,
                castling: f.castling,
                en_passant: f.ep,
                half_move_clock: f.halfmove,
                fullmove_number: f.fullmove,
                ..crate::gamestate::spec_cleared_state()
            })
            &&& g.board.history@.len() == 0
        },
        Err(e) => match e {
            FenParsingError::NotEnoughParts => spec_parse_fen(s) is BadParts,
            FenParsingError::InvalidBoardPart(_) => spec_parse_fen(s) is BadBoard,
            FenParsingError::InvalidSideToMove(_) => spec_parse_fen(s) is BadSide,
            FenParsingError::InvalidCastlingPart(_) => spec_parse_fen(s) is BadCastling,
            FenParsingError::InvalidEnPassantSquare(_) => spec_parse_fen(s) is BadEnPassant,
            FenParsingError::InvalidHalfmoveClock(_) => spec_parse_fen(s) is BadHalfmove,
            FenParsingError::InvalidFullmoveCount(_) => spec_parse_fen(s) is BadFullmove,
        },
    })
}

/// The position-description front end.
pub struct Fen {}

impl Fen {
    /// Parses a description into a `Game`.
    pub fn parse(fen: &str) -> (r: Result<crate::game::Game, FenParsingError>)
        ensures
            spec_game_parse(fen.spec_bytes(), r),
    {
        match parse_fen(fen) {
            Ok(b) => Ok(crate::game::Game { board: b }),
            Err(e) => Err(
                match e {
                    ParseFenError::NotEnoughParts => FenParsingError::NotEnoughParts,
                    ParseFenError::InvalidBoardPart(t) => FenParsingError::InvalidBoardPart(t),
                    ParseFenError::InvalidSideToMove(t) => FenParsingError::InvalidSideToMove(t),
                    ParseFenError::InvalidCastlingPart(t) => FenParsingError::InvalidCastlingPart(
                        t,
                    ),
                    ParseFenError::InvalidEnPassantPart(t) => FenParsingError::InvalidEnPassantSquare(
                        t,
                    ),
                    ParseFenError::InvalidHalfmovePart(t) => FenParsingError::InvalidHalfmoveClock(
                        t,
                    ),
                    ParseFenError::InvalidFullmovePart(t) => FenParsingError::InvalidFullmoveCount(
                        t,
                    ),
                },
            ),
        }
    }

    /// Parses a castling field on its own.
    pub fn parse_castling(castling: &str) -> (r: Result<u8, FenParsingError>)
        ensures
            match r {
                Ok(m) => spec_parse_castling(castling.spec_bytes()) == Some(m) && m < 16,
                Err(e) => spec_parse_castling(castling.spec_bytes()) is None && e
                    is InvalidCastlingPart,
            },
    {
        match parse_castling_token(castling.as_bytes()) {
            Some(m) => Ok(m),
            None => Err(
                FenParsingError::InvalidCastlingPart(bytes_to_string_lossy(castling.as_bytes())),
            ),
        }
    }

    /// Parses an en-passant field on its own.
    pub fn parse_en_passant(en_passant: &str) -> (r: Result<Option<Square>, FenParsingError>)
        ensures
            match r {
                Ok(ep) => spec_parse_ep(en_passant.spec_bytes()) == Some(ep),
                Err(e) => spec_parse_ep(en_passant.spec_bytes()) is None && e
                    is InvalidEnPassantSquare,
            },
    {
        match parse_ep_token(en_passant.as_bytes()) {
            Some(ep) => Ok(ep),
            None => Err(
                FenParsingError::InvalidEnPassantSquare(
                    bytes_to_string_lossy(en_passant.as_bytes()),
                ),
            ),
        }
    }
}

/// Parses a castling field into its bitmask: `-` for none, else the
/// letters `KQkq` of the rights held.
pub fn parse_castling_rights(fen_part: &str) -> (r: Result<u8, ParseFenError>)
    ensures
        match r {
            Ok(m) => spec_parse_castling(fen_part.spec_bytes()) == Some(m) && m < 16,
            Err(e) => spec_parse_castling(fen_part.spec_bytes()) is None && e
                is InvalidCastlingPart,
        },
{
    match parse_castling_token(fen_part.as_bytes()) {
        Some(m) => Ok(m),
        None => Err(ParseFenError::InvalidCastlingPart(bytes_to_string_lossy(fen_part.as_bytes()))),
    }
}

} // verus!
