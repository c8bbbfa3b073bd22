//! The board: per-side-per-piece bitboards, per-side occupancy, a flat
//! piece lookup kept exactly consistent with them, the transient game
//! state, and the history stack that makes unmake possible.
use vstd::prelude::*;

verus! {

use crate::bitboard::{bit_set, lemma_bits_ext, pop64, Bitboard};
use crate::defs::{valid_castling, valid_side, NrOf, Sides};
use crate::gamestate::GameState;
use crate::history::History;
use crate::moves::Move;
use crate::pieces::Pieces;
use crate::square::Square;
use crate::zobrist::ZobristRandoms;

/// One entry of the flat piece lookup: the side and piece standing on a
/// square, or nothing.
pub type PieceEntry = Option<(u8, Pieces)>;

/// The board. `bb_pieces` is side-major: slot `side * 6 + piece index`.
#[derive(Debug, Clone, PartialEq, Eq)]
pub struct Board {
    /// One bitboard per (side, piece), side-major.
    pub bb_pieces: [Bitboard; 12],
    /// One occupancy bitboard per side.
    pub bb_occupancy: [Bitboard; 2],
    /// What stands on each square, kept consistent with the bitboards.
    pub piece_list: [PieceEntry; 64],
    /// The transient game state.
    pub game_state: GameState,
    /// Past game states, for unmake.
    pub history: History,
}

/// The entry holds a piece of `side`.
pub open spec fn entry_of_side(e: PieceEntry, side: u8) -> bool {
    match e {
        Some(sp) => sp.0 == side,
        None => false,
    }
}

/// The entry's side is a real side.
pub open spec fn entry_side_valid(e: PieceEntry) -> bool {
    match e {
        Some(sp) => valid_side(sp.0),
        None => true,
    }
}

/// The piece kind with the given table index.
pub open spec fn piece_from_index(k: int) -> Pieces {
    if k == 0 {
        Pieces::King
    } else if k == 1 {
        Pieces::Queen
    } else if k == 2 {
        Pieces::Rook
    } else if k == 3 {
        Pieces::Bishop
    } else if k == 4 {
        Pieces::Knight
    } else {
        Pieces::Pawn
    }
}

impl Board {
    /// The bit set of `piece` of `side`.
    pub open spec fn spec_piece_bb(self, side: u8, piece: Pieces) -> u64 {
        self.bb_pieces@[side as int * 6 + piece.index()].0
    }

    /// The bit set of all of `side`'s pieces.
    pub open spec fn spec_occ(self, side: u8) -> u64 {
        self.bb_occupancy@[side as int].0
    }

    /// The piece-placement model: what stands on each square.
    pub open spec fn pl(self) -> Seq<PieceEntry> {
        self.piece_list@
    }

    /// The bitboards agree with the piece lookup, bit for bit: a piece
    /// bitboard holds exactly the squares where the lookup names that
    /// (side, piece), and a side's occupancy holds exactly the squares
    /// where the lookup names that side.
    pub open spec fn wf_placement(self) -> bool {
        &&& forall|side: u8, piece: Pieces, sq: u64|
            valid_side(side) && sq < 64 ==> (#[trigger] bit_set(self.spec_piece_bb(side, piece), sq)
                <==> self.pl()[sq as int] == Some((side, piece)))
        &&& forall|side: u8, sq: u64|
            valid_side(side) && sq < 64 ==> (#[trigger] bit_set(self.spec_occ(side), sq)
                <==> entry_of_side(self.pl()[sq as int], side))
        &&& forall|sq: int| 0 <= sq < 64 ==> entry_side_valid(#[trigger] self.pl()[sq])
    }

    /// The transient state is within its ranges: a real side to move, a
    /// four-bit castling mask, and an en-passant target (when present) on
    /// the rank behind a double pawn push.
    pub open spec fn wf_state(self) -> bool {
        &&& valid_side(self.game_state.active_side)
        &&& valid_castling(self.game_state.castling)
        &&& match self.game_state.en_passant {
            Some(sq) => sq.valid() && (sq.0 / 8 == 2 || sq.0 / 8 == 5),
            None => true,
        }
    }

    /// A well-formed board.
    pub open spec fn wf(self) -> bool {
        self.wf_placement() && self.wf_state()
    }

    /// An empty board: no pieces, cleared game state, empty history.
    pub fn new() -> (r: Board)
        ensures
            r.wf(),
            r.pl() =~= Seq::new(64, |i: int| None::<(u8, Pieces)>),
            r.game_state == crate::gamestate::spec_cleared_state(),
            r.history@.len() == 0,
            forall|i: int| 0 <= i < 12 ==> r.bb_pieces@[i].0 == 0,
            forall|i: int| 0 <= i < 2 ==> r.bb_occupancy@[i].0 == 0,
    {
        let r = Board {
            bb_pieces: [Bitboard(0); 12],
            bb_occupancy: [Bitboard(0); 2],
            piece_list: [None; 64],
            game_state: GameState::new(),
            history: History::new(),
        };
        proof {
            broadcast use vstd::array::group_array_axioms;

            assert forall|side: u8, piece: Pieces, sq: u64|
                valid_side(side) && sq < 64 implies !bit_set(
                r.spec_piece_bb(side, piece),
                sq,
            ) by {
                assert(0u64 & (1u64 << sq) == 0) by (bit_vector);
            }
            assert forall|side: u8, sq: u64| valid_side(side) && sq < 64 implies !bit_set(
                r.spec_occ(side),
                sq,
            ) by {
                assert(0u64 & (1u64 << sq) == 0) by (bit_vector);
            }
        }
        r
    }

    /// Reads the bitboard of `piece` of `side`.
    pub fn get_piece_bb(&self, side: u8, piece: Pieces) -> (r: Bitboard)
        requires
            valid_side(side),
        ensures
            r.0 == self.spec_piece_bb(side, piece),
    {
        self.bb_pieces[(side as usize) * 6 + piece.as_index()]
    }

    /// Reads the occupancy bitboard of `side`.
    pub fn get_occupancy_bb(&self, side: u8) -> (r: Bitboard)
        requires
            valid_side(side),
        ensures
            r.0 == self.spec_occ(side),
    {
        self.bb_occupancy[side as usize]
    }

    /// Reads the occupancy bitboard of `side`.
    pub fn occupancy_side(&self, side: u8) -> (r: Bitboard)
        requires
            valid_side(side),
        ensures
            r.0 == self.spec_occ(side),
    {
        self.get_occupancy_bb(side)
    }

    /// The combined occupancy of both sides.
    pub fn occupancy(&self) -> (r: Bitboard)
        ensures
            r.0 == self.spec_occ(Sides::WHITE) | self.spec_occ(Sides::BLACK),
    {
        self.occupancy_side(Sides::WHITE).bitor(self.occupancy_side(Sides::BLACK))
    }

    /// Overwrites the bitboard of `piece` of `side`. Raw access: the
    /// caller is responsible for keeping the board well formed.
    pub fn set_piece_bb(&mut self, side: u8, piece: Pieces, bb: Bitboard)
        requires
            valid_side(side),
        ensures
            final(self).bb_pieces@ == old(self).bb_pieces@.update(
                side as int * 6 + piece.index(),
                bb,
            ),
            final(self).bb_occupancy == old(self).bb_occupancy,
            final(self).piece_list == old(self).piece_list,
            final(self).game_state == old(self).game_state,
            final(self).history@ == old(self).history@,
    {
        self.bb_pieces[(side as usize) * 6 + piece.as_index()] = bb;
    }

    /// Overwrites the occupancy bitboard of `side`. Raw access: the
    /// caller is responsible for keeping the board well formed.
    pub fn set_occupancy_bb(&mut self, side: u8, bb: Bitboard)
        requires
            valid_side(side),
        ensures
            final(self).bb_occupancy@ == old(self).bb_occupancy@.update(side as int, bb),
            final(self).bb_pieces == old(self).bb_pieces,
            final(self).piece_list == old(self).piece_list,
            final(self).game_state == old(self).game_state,
            final(self).history@ == old(self).history@,
    {
        self.bb_occupancy[side as usize] = bb;
    }

    /// What stands on `square`.
    pub fn piece_on(&self, square: Square) -> (r: PieceEntry)
        requires
            square.valid(),
        ensures
            r == self.pl()[square.0 as int],
    {
        self.piece_list[square.0 as usize]
    }

    /// Places `piece` of `side` on the empty square `square`, keeping the
    /// bitboards, occupancy and piece lookup consistent.
    pub fn put_piece(&mut self, side: u8, piece: Pieces, square: Square)
        requires
            old(self).wf_placement(),
            valid_side(side),
            square.valid(),
            old(self).pl()[square.0 as int] is None,
        ensures
            final(self).wf_placement(),
            final(self).pl() == old(self).pl().update(square.0 as int, Some((side, piece))),
            final(self).bb_pieces@ == old(self).bb_pieces@.update(
                side as int * 6 + piece.index(),
                Bitboard(old(self).spec_piece_bb(side, piece) | (1u64 << square.0)),
            ),
            final(self).bb_occupancy@ == old(self).bb_occupancy@.update(
                side as int,
                Bitboard(old(self).spec_occ(side) | (1u64 << square.0)),
            ),
            final(self).game_state == old(self).game_state,
            final(self).history@ == old(self).history@,
            total_pop(*final(self)) == total_pop(*old(self)) + 1,
    {
        let ghost pre = *self;
        let ghost sq = square.0 as u64;
        let idx = (side as usize) * 6 + piece.as_index();
        let mut bb = self.bb_pieces[idx];
        bb.set(square);
        self.bb_pieces[idx] = bb;
        let mut occ = self.bb_occupancy[side as usize];
        occ.set(square);
        self.bb_occupancy[side as usize] = occ;
        self.piece_list[square.0 as usize] = Some((side, piece));
        proof {
            broadcast use vstd::array::group_array_axioms;

            let post = *self;
            assert(post.pl() =~= pre.pl().update(sq as int, Some((side, piece))));
            lemma_placement_after_put(pre, post, side, piece, sq);
            assert(!bit_set(pre.spec_piece_bb(side, piece), sq));
            crate::bitboard::lemma_pop64_set(pre.spec_piece_bb(side, piece), sq);
            lemma_sum_pop_update(
                pre.bb_pieces@,
                side as int * 6 + piece.index(),
                Bitboard(pre.spec_piece_bb(side, piece) | (1u64 << sq)),
                12,
            );
        }
    }

    /// Takes `piece` of `side` off `square`, keeping the bitboards,
    /// occupancy and piece lookup consistent.
    pub fn remove_piece(&mut self, side: u8, piece: Pieces, square: Square)
        requires
            old(self).wf_placement(),
            valid_side(side),
            square.valid(),
            old(self).pl()[square.0 as int] == Some((side, piece)),
        ensures
            final(self).wf_placement(),
            final(self).pl() == old(self).pl().update(square.0 as int, None),
            final(self).bb_pieces@ == old(self).bb_pieces@.update(
                side as int * 6 + piece.index(),
                Bitboard(old(self).spec_piece_bb(side, piece) & !(1u64 << square.0)),
            ),
            final(self).bb_occupancy@ == old(self).bb_occupancy@.update(
                side as int,
                Bitboard(old(self).spec_occ(side) & !(1u64 << square.0)),
            ),
            final(self).game_state == old(self).game_state,
            final(self).history@ == old(self).history@,
            total_pop(*final(self)) == total_pop(*old(self)) - 1,
    {
        let ghost pre = *self;
        let ghost sq = square.0 as u64;
        let idx = (side as usize) * 6 + piece.as_index();
        let mut bb = self.bb_pieces[idx];
        bb.clear(square);
        self.bb_pieces[idx] = bb;
        let mut occ = self.bb_occupancy[side as usize];
        occ.clear(square);
        self.bb_occupancy[side as usize] = occ;
        self.piece_list[square.0 as usize] = None;
        proof {
            broadcast use vstd::array::group_array_axioms;

            let post = *self;
            assert(post.pl() =~= pre.pl().update(sq as int, None));
            lemma_placement_after_remove(pre, post, side, piece, sq);
            assert(bit_set(pre.spec_piece_bb(side, piece), sq));
            crate::bitboard::lemma_pop64_clear(pre.spec_piece_bb(side, piece), sq);
            lemma_sum_pop_update(
                pre.bb_pieces@,
                side as int * 6 + piece.index(),
                Bitboard(pre.spec_piece_bb(side, piece) & !(1u64 << sq)),
                12,
            );
        }
    }

    /// Makes `m`: moves the pieces, updates castling rights, en-passant
    /// target, clocks and side to move, folds the changes into the
    /// Zobrist key, and pushes the pre-move state onto the history.
    ///
    /// A capturing move shrinks the board population by exactly one
    /// piece; any other move leaves it unchanged.
    pub fn make(&mut self, m: Move, zr: &ZobristRandoms)
        requires
            old(self).wf(),
            zr.wf(),
            move_ok(*old(self), m),
        ensures
            final(self).wf(),
            final(self).pl() == spec_pl_after_make(
                old(self).pl(),
                old(self).game_state.active_side,
                m,
            ),
            final(self).history@ == old(self).history@.push(old(self).game_state),
            final(self).game_state.active_side == spec_opponent(old(self).game_state.active_side),
            final(self).game_state.castling == (old(self).game_state.castling & spec_castling_keep(
                m.spec_from().0,
            ) & spec_castling_keep(m.spec_to().0)),
            final(self).game_state.en_passant == spec_ep_after_make(m),
            final(self).game_state.half_move_clock == spec_clock_after_make(
                old(self).game_state,
                m,
            ),
            final(self).game_state.fullmove_number == if old(self).game_state.active_side
                == Sides::BLACK {
                (old(self).game_state.fullmove_number + 1) as u16
            } else {
                old(self).game_state.fullmove_number
            },
            final(self).game_state.zobrist_key == spec_key_after_make(*old(self), m, *zr),
            final(self).game_state.phase_value == old(self).game_state.phase_value,
            final(self).game_state.psqt_value == old(self).game_state.psqt_value,
            final(self).game_state.next_move == old(self).game_state.next_move,
            key_ok(*old(self), *zr) ==> key_ok(*final(self), *zr),
            total_pop(*final(self)) == total_pop(*old(self)) - (if m.spec_captured() is Some {
                1int
            } else {
                0int
            }),
    {
        let ghost pre = *self;
        let side = self.game_state.active_side;
        let opp: u8 = if side == 0 {
            1
        } else {
            0
        };
        let piece = match m.piece() {
            Some(p) => p,
            None => vstd::pervasive::unreached(),
        };
        let from = m.from();
        let to = m.to();
        let pre_state = self.game_state;
        let mut key = pre_state.zobrist_key;

        // the moving piece leaves its source square
        self.remove_piece(side, piece, from);
        key = key ^ zr.piece(side, piece, from);

        // a captured piece leaves the board
        if m.en_passant() {
            let victim = if side == Sides::WHITE {
                Square(to.as_u8() - 8)
            } else {
                Square(to.as_u8() + 8)
            };
            self.remove_piece(opp, Pieces::Pawn, victim);
            key = key ^ zr.piece(opp, Pieces::Pawn, victim);
        } else {
            match m.captured() {
                Some(cap) => {
                    self.remove_piece(opp, cap, to);
                    key = key ^ zr.piece(opp, cap, to);
                },
                None => {},
            }
        }
        // the moved piece, or its promotion, lands on the destination
        let placed = match m.promoted() {
            Some(p) => p,
            None => piece,
        };
        self.put_piece(side, placed, to);
        key = key ^ zr.piece(side, placed, to);

        // castling carries the rook across the king
        if m.castling() {
            let rf = if to.as_u8() == 6 {
                Square(7)
            } else if to.as_u8() == 2 {
                Square(0)
            } else if to.as_u8() == 62 {
                Square(63)
            } else {
                Square(56)
            };
            let rt = if to.as_u8() == 6 {
                Square(5)
            } else if to.as_u8() == 2 {
                Square(3)
            } else if to.as_u8() == 62 {
                Square(61)
            } else {
                Square(59)
            };
            self.remove_piece(side, Pieces::Rook, rf);
            self.put_piece(side, Pieces::Rook, rt);
            key = key ^ zr.piece(side, Pieces::Rook, rf) ^ zr.piece(side, Pieces::Rook, rt);
        }
        let ghost mid = *self;
        // castling rights, en-passant target, clocks, side to move
        let new_castling = pre_state.castling & castling_keep(from.as_u8()) & castling_keep(
            to.as_u8(),
        );
        proof {
            let c = pre_state.castling;
            let k1 = spec_castling_keep(from.0 as u8);
            let k2 = spec_castling_keep(to.0 as u8);
            assert(c < 16 ==> (c & k1 & k2) < 16) by (bit_vector);
        }
        let new_ep = if m.double_step() {
            Some(Square((from.as_u8() + to.as_u8()) / 2))
        } else {
            None
        };
        let is_capture = match m.captured() {
            Some(_) => true,
            None => false,
        };
        let new_clock: u16 = if is_capture || piece == Pieces::Pawn {
            0
        } else {
            pre_state.half_move_clock + 1
        };
        let new_fullmove: u16 = if side == Sides::BLACK {
            pre_state.fullmove_number + 1
        } else {
            pre_state.fullmove_number
        };
        key = key ^ zr.castling(pre_state.castling) ^ zr.castling(new_castling);
        key = key ^ zr.side(side) ^ zr.side(opp);
        key = key ^ zr.en_passant(pre_state.en_passant) ^ zr.en_passant(new_ep);
        self.game_state = GameState {
            active_side: opp,
            castling: new_castling,
            en_passant: new_ep,
            half_move_clock: new_clock,
            fullmove_number: new_fullmove,
            zobrist_key: key,
            phase_value: pre_state.phase_value,
            psqt_value: pre_state.psqt_value,
            next_move: pre_state.next_move,
        };
        self.history.push(pre_state);
        proof {
            let post = *self;
            assert(post.pl() =~= spec_pl_after_make(pre.pl(), pre.game_state.active_side, m));
            lemma_wf_placement_same_fields(mid, post);
            if m.spec_double_step() {
                let f = from.0 as int;
                let t = to.0 as int;
                if pre.game_state.active_side == Sides::WHITE {
                    assert(8 <= f < 16);
                    assert((f + t) / 2 == f + 8);
                    assert(16 <= (f + t) / 2 < 24);
                } else {
                    assert(48 <= f < 56);
                    assert((f + t) / 2 == f - 8);
                    assert(40 <= (f + t) / 2 < 48);
                }
            }
            if key_ok(pre, *zr) {
                lemma_make_preserves_key(pre, m, *zr);
            }
        }
    }
}

/// On a well-placed board the piece lookup determines every bitboard:
/// two such boards with the same lookup have the same piece bitboards
/// and the same occupancy, bit for bit.
pub proof fn lemma_placement_determines_bbs(a: Board, b: Board)
    requires
        a.wf_placement(),
        b.wf_placement(),
        a.pl() == b.pl(),
    ensures
        a.bb_pieces@ == b.bb_pieces@,
        a.bb_occupancy@ == b.bb_occupancy@,
{
    broadcast use vstd::array::group_array_axioms;

    assert forall|idx: int| 0 <= idx < 12 implies a.bb_pieces@[idx] == b.bb_pieces@[idx] by {
        let s: u8 = if idx < 6 {
            0
        } else {
            1
        };
        let p = piece_from_index(idx % 6);
        assert(p.index() == idx % 6);
        assert(s as int * 6 + p.index() == idx);
        assert forall|i: u64| i < 64 implies ((a.bb_pieces@[idx].0 & (1u64 << i)) != 0) == ((
        b.bb_pieces@[idx].0 & (1u64 << i)) != 0) by {
            assert(bit_set(a.spec_piece_bb(s, p), i) <==> a.pl()[i as int] == Some((s, p)));
            assert(bit_set(b.spec_piece_bb(s, p), i) <==> b.pl()[i as int] == Some((s, p)));
        }
        lemma_bits_ext(a.bb_pieces@[idx].0, b.bb_pieces@[idx].0);
    }
    assert(a.bb_pieces@ =~= b.bb_pieces@);
    assert forall|idx: int| 0 <= idx < 2 implies a.bb_occupancy@[idx] == b.bb_occupancy@[idx] by {
        let s: u8 = idx as u8;
        assert forall|i: u64| i < 64 implies ((a.bb_occupancy@[idx].0 & (1u64 << i)) != 0) == ((
        b.bb_occupancy@[idx].0 & (1u64 << i)) != 0) by {
            assert(bit_set(a.spec_occ(s), i) <==> entry_of_side(a.pl()[i as int], s));
            assert(bit_set(b.spec_occ(s), i) <==> entry_of_side(b.pl()[i as int], s));
        }
        lemma_bits_ext(a.bb_occupancy@[idx].0, b.bb_occupancy@[idx].0);
    }
    assert(a.bb_occupancy@ =~= b.bb_occupancy@);
}

/// A board that `make` has just left is ready for `unmake` of the same
/// move.
pub proof fn lemma_make_enables_unmake(pre: Board, mid: Board, m: Move)
    requires
        pre.wf(),
        move_ok(pre, m),
        mid.wf_placement(),
        mid.pl() == spec_pl_after_make(pre.pl(), pre.game_state.active_side, m),
        mid.history@ == pre.history@.push(pre.game_state),
    ensures
        unmake_ok(mid, m),
{
    assert(mid.history@.last() == pre.game_state);
}

/// Taking a move back undoes exactly what making it did to the piece
/// placement.
pub proof fn lemma_unmake_reverses_make(b: Board, m: Move)
    requires
        b.wf(),
        move_ok(b, m),
    ensures
        spec_pl_after_unmake(
            spec_pl_after_make(b.pl(), b.game_state.active_side, m),
            b.game_state.active_side,
            m,
        ) == b.pl(),
{
    let s = b.game_state.active_side;
    let pl = b.pl();
    let plm = spec_pl_after_make(pl, s, m);
    let plu = spec_pl_after_unmake(plm, s, m);
    if m.spec_en_passant() {
        assert(plu =~= pl);
    } else if m.spec_castling() {
        assert(plu =~= pl);
    } else {
        assert(plu =~= pl);
    }
}

/// Making any move and immediately unmaking it restores the position
/// bit for bit: the piece lookup, every piece bitboard, both occupancy
/// bitboards, the whole game state (Zobrist key included), and the
/// history. `pre` is the position before `make`, `mid` what `make`'s
/// contract says it leaves, `post` what `unmake`'s contract then leaves.
pub proof fn lemma_make_unmake_roundtrip(pre: Board, mid: Board, post: Board, m: Move)
    requires
        pre.wf(),
        move_ok(pre, m),
        mid.wf_placement(),
        mid.pl() == spec_pl_after_make(pre.pl(), pre.game_state.active_side, m),
        mid.history@ == pre.history@.push(pre.game_state),
        post.wf_placement(),
        post.pl() == spec_pl_after_unmake(mid.pl(), mid.history@.last().active_side, m),
        post.game_state == mid.history@.last(),
        post.history@ == mid.history@.drop_last(),
    ensures
        post.pl() == pre.pl(),
        post.game_state == pre.game_state,
        post.history@ == pre.history@,
        post.bb_pieces@ == pre.bb_pieces@,
        post.bb_occupancy@ == pre.bb_occupancy@,
{
    assert(mid.history@.last() == pre.game_state);
    lemma_unmake_reverses_make(pre, m);
    assert(post.history@ =~= pre.history@);
    lemma_placement_determines_bbs(pre, post);
}

/// XOR with zero changes nothing.
proof fn lemma_xor_zero(x: u64)
    by (bit_vector)
    ensures
        x ^ 0 == x,
{
}

impl Board {
    /// Folds the position's Zobrist key from scratch: every occupied
    /// square's piece key, then the castling, side-to-move and
    /// en-passant keys. The verification fallback for the incrementally
    /// maintained key.
    pub fn recompute_key(&self, zr: &ZobristRandoms) -> (r: u64)
        requires
            self.wf(),
            zr.wf(),
        ensures
            r == crate::zobrist::spec_key(
                *zr,
                self.pl(),
                self.game_state.castling,
                self.game_state.active_side,
                self.game_state.en_passant,
            ),
    {
        let mut acc: u64 = 0;
        let mut i: usize = 0;
        while i < 64
            invariant
                0 <= i <= 64,
                self.wf(),
                zr.wf(),
                acc == crate::zobrist::xor_pieces(*zr, self.pl(), i as int),
            decreases 64 - i,
        {
            match self.piece_list[i] {
                Some(sp) => {
                    acc = acc ^ zr.piece(sp.0, sp.1, Square(i as u8));
                },
                None => {
                    proof {
                        lemma_xor_zero(acc);
                    }
                },
            }
            i += 1;
        }
        acc ^ zr.castling(self.game_state.castling) ^ zr.side(self.game_state.active_side)
            ^ zr.en_passant(self.game_state.en_passant)
    }

    /// Replaces the stored key with the key recomputed from scratch,
    /// establishing the incremental-hash invariant that `make` then
    /// maintains.
    pub fn init_key(&mut self, zr: &ZobristRandoms)
        requires
            old(self).wf(),
            zr.wf(),
        ensures
            final(self).wf(),
            key_ok(*final(self), *zr),
            final(self).pl() == old(self).pl(),
            final(self).bb_pieces == old(self).bb_pieces,
            final(self).bb_occupancy == old(self).bb_occupancy,
            final(self).history@ == old(self).history@,
            final(self).game_state == (GameState {
                zobrist_key: final(self).game_state.zobrist_key,
                ..old(self).game_state
            }),
    {
        let ghost pre = *self;
        let key = self.recompute_key(zr);
        self.game_state.zobrist_key = key;
        proof {
            lemma_wf_placement_same_fields(pre, *self);
        }
    }
}

/// The key recomputed from scratch always equals the incrementally
/// maintained key: a board that satisfies the incremental-hash
/// invariant `key_ok` — established by `init_key`, preserved by `make`
/// (its contract), and restored by `unmake` together with the rest of
/// the pre-move state — stores exactly the key its position folds to.
pub proof fn lemma_scratch_key_matches_incremental(b: Board, zr: ZobristRandoms)
    requires
        key_ok(b, zr),
    ensures
        b.game_state.zobrist_key == crate::zobrist::spec_key(
            zr,
            b.pl(),
            b.game_state.castling,
            b.game_state.active_side,
            b.game_state.en_passant,
        ),
{
}

/// A board whose bitboards, occupancy and piece lookup are taken
/// unchanged from a well-placed board is itself well placed.
pub proof fn lemma_wf_placement_same_fields(a: Board, b: Board)
    requires
        a.wf_placement(),
        b.bb_pieces == a.bb_pieces,
        b.bb_occupancy == a.bb_occupancy,
        b.piece_list == a.piece_list,
    ensures
        b.wf_placement(),
{
    assert forall|side: u8, piece: Pieces, sq: u64| valid_side(side) && sq < 64 implies (bit_set(
        b.spec_piece_bb(side, piece),
        sq,
    ) <==> b.pl()[sq as int] == Some((side, piece))) by {
        assert(bit_set(a.spec_piece_bb(side, piece), sq) <==> a.pl()[sq as int] == Some(
            (side, piece),
        ));
    }
    assert forall|side: u8, sq: u64| valid_side(side) && sq < 64 implies (bit_set(
        b.spec_occ(side),
        sq,
    ) <==> entry_of_side(b.pl()[sq as int], side)) by {
        assert(bit_set(a.spec_occ(side), sq) <==> entry_of_side(a.pl()[sq as int], side));
    }
    assert forall|sq: int| 0 <= sq < 64 implies entry_side_valid(b.pl()[sq]) by {
        assert(entry_side_valid(a.pl()[sq]));
    }
}

/// What `unmake` asks: a history entry to return to, and a board whose
/// placement shows `m` as the move just made by the side that entry
/// names. Calling it with an empty history is a caller bug and is ruled
/// out by precondition.
pub open spec fn unmake_ok(b: Board, m: Move) -> bool {
    &&& b.wf_placement()
    &&& b.history@.len() > 0
    &&& {
        let prev = b.history@.last();
        let side = prev.active_side;
        let from = m.spec_from();
        let to = m.spec_to();
        &&& valid_side(side)
        &&& from.valid() && to.valid() && from != to
        &&& m.spec_piece() is Some
        &&& b.pl()[to.0 as int] == Some((side, spec_placed(m)))
        &&& b.pl()[from.0 as int] is None
        &&& m.spec_en_passant() ==> {
            &&& m.spec_captured() == Some(Pieces::Pawn)
            &&& m.spec_piece() == Some(Pieces::Pawn)
            &&& (side == Sides::WHITE ==> to.0 / 8 == 5)
            &&& (side == Sides::BLACK ==> to.0 / 8 == 2)
            &&& b.pl()[spec_ep_victim(side, to).0 as int] is None
            &&& spec_ep_victim(side, to) != from
        }
        &&& m.spec_castling() ==> {
            &&& m.spec_piece() == Some(Pieces::King)
            &&& m.spec_captured() is None
            &&& m.spec_promoted() is None
            &&& !m.spec_en_passant()
            &&& (side == Sides::WHITE ==> from.0 == 4 && (to.0 == 6 || to.0 == 2))
            &&& (side == Sides::BLACK ==> from.0 == 60 && (to.0 == 62 || to.0 == 58))
            &&& b.pl()[spec_rook_to(to).0 as int] == Some((side, Pieces::Rook))
            &&& b.pl()[spec_rook_from(to).0 as int] is None
        }
    }
}

/// The piece placement after `m` is taken back by `side`: the captured
/// piece (if any) returns to its square, the mover returns to its
/// source, and a castling rook returns home.
pub open spec fn spec_pl_after_unmake(pl: Seq<PieceEntry>, side: u8, m: Move) -> Seq<PieceEntry> {
    let from = m.spec_from();
    let to = m.spec_to();
    let opp = spec_opponent(side);
    let base = pl.update(
        to.0 as int,
        if m.spec_en_passant() {
            None
        } else {
            match m.spec_captured() {
                Some(cap) => Some((opp, cap)),
                None => None,
            }
        },
    );
    let base2 = base.update(from.0 as int, Some((side, m.spec_piece()->0)));
    let base3 = if m.spec_en_passant() {
        base2.update(spec_ep_victim(side, to).0 as int, Some((opp, Pieces::Pawn)))
    } else {
        base2
    };
    if m.spec_castling() {
        base3.update(spec_rook_to(to).0 as int, None).update(
            spec_rook_from(to).0 as int,
            Some((side, Pieces::Rook)),
        )
    } else {
        base3
    }
}

impl Board {
    /// Takes back `m`: pops the newest history entry, restores the whole
    /// game state from it (Zobrist key included), and reverses the
    /// bitboard, occupancy and piece-lookup edits the move made.
    pub fn unmake(&mut self, m: Move)
        requires
            unmake_ok(*old(self), m),
        ensures
            final(self).wf_placement(),
            final(self).pl() == spec_pl_after_unmake(
                old(self).pl(),
                old(self).history@.last().active_side,
                m,
            ),
            final(self).game_state == old(self).history@.last(),
            final(self).history@ == old(self).history@.drop_last(),
            total_pop(*final(self)) == total_pop(*old(self)) + (if m.spec_captured() is Some {
                1int
            } else {
                0int
            }),
    {
        let ghost pre = *self;
        let prev = match self.history.pop() {
            Some(gs) => gs,
            None => vstd::pervasive::unreached(),
        };
        proof {
            lemma_wf_placement_same_fields(pre, *self);
        }
        let side = prev.active_side;
        let opp: u8 = if side == 0 {
            1
        } else {
            0
        };
        let piece = match m.piece() {
            Some(p) => p,
            None => vstd::pervasive::unreached(),
        };
        let from = m.from();
        let to = m.to();
        let placed = match m.promoted() {
            Some(p) => p,
            None => piece,
        };
        // the moved piece comes back from the destination
        self.remove_piece(side, placed, to);
        self.put_piece(side, piece, from);
        // a captured piece returns to the board
        if m.en_passant() {
            let victim = if side == Sides::WHITE {
                Square(to.as_u8() - 8)
            } else {
                Square(to.as_u8() + 8)
            };
            self.put_piece(opp, Pieces::Pawn, victim);
        } else {
            match m.captured() {
                Some(cap) => self.put_piece(opp, cap, to),
                None => {},
            }
        }
        // the castling rook returns home
        if m.castling() {
            let rf = if to.as_u8() == 6 {
                Square(7)
            } else if to.as_u8() == 2 {
                Square(0)
            } else if to.as_u8() == 62 {
                Square(63)
            } else {
                Square(56)
            };
            let rt = if to.as_u8() == 6 {
                Square(5)
            } else if to.as_u8() == 2 {
                Square(3)
            } else if to.as_u8() == 62 {
                Square(61)
            } else {
                Square(59)
            };
            self.remove_piece(side, Pieces::Rook, rt);
            self.put_piece(side, Pieces::Rook, rf);
        }
        let ghost mid = *self;
        // the snapshot restores the whole game state, Zobrist key included
        self.game_state = prev;
        proof {
            let post = *self;
            assert(post.pl() =~= spec_pl_after_unmake(pre.pl(), prev.active_side, m));
            lemma_wf_placement_same_fields(mid, post);
        }
    }
}

/// Exec twin of `spec_castling_keep`.
fn castling_keep(sq: u8) -> (r: u8)
    ensures
        r == spec_castling_keep(sq),
{
    if sq == 4 {
        0b1100
    } else if sq == 7 {
        0b1110
    } else if sq == 0 {
        0b1101
    } else if sq == 60 {
        0b0011
    } else if sq == 63 {
        0b1011
    } else if sq == 56 {
        0b0111
    } else {
        0b1111
    }
}

/// The incremental key update of `make` lands on exactly the key that
/// the post-move position folds to, whenever the pre-move key was right.
proof fn lemma_make_preserves_key(pre: Board, m: Move, zr: ZobristRandoms)
    requires
        pre.wf(),
        move_ok(pre, m),
        key_ok(pre, zr),
    ensures
        spec_key_after_make(pre, m, zr) == crate::zobrist::spec_key(
            zr,
            spec_pl_after_make(pre.pl(), pre.game_state.active_side, m),
            pre.game_state.castling & spec_castling_keep(m.spec_from().0) & spec_castling_keep(
                m.spec_to().0,
            ),
            spec_opponent(pre.game_state.active_side),
            spec_ep_after_make(m),
        ),
{
    let s = pre.game_state.active_side;
    let from = m.spec_from();
    let to = m.spec_to();
    let pl = pre.pl();
    let piece = m.spec_piece()->0;
    let placed = spec_placed(m);
    let a0 = crate::zobrist::xor_pieces(zr, pl, 64);
    let tf = zr.spec_piece(s, piece, from.0 as int);
    let tt = zr.spec_piece(s, placed, to.0 as int);
    let cc = zr.spec_castling(pre.game_state.castling);
    let cn = zr.spec_castling(
        pre.game_state.castling & spec_castling_keep(from.0) & spec_castling_keep(to.0),
    );
    let sc = zr.spec_side(s);
    let sn = zr.spec_side(spec_opponent(s));
    let ec = zr.spec_en_passant(pre.game_state.en_passant);
    let en = zr.spec_en_passant(spec_ep_after_make(m));
    let u1 = pl.update(from.0 as int, None);
    crate::zobrist::lemma_xor_pieces_update(zr, pl, from.0 as int, None, 64);
    let a1 = crate::zobrist::xor_pieces(zr, u1, 64);
    assert(a1 == a0 ^ tf ^ 0);
    if m.spec_en_passant() {
        let victim = spec_ep_victim(s, to);
        let tv = zr.spec_piece(spec_opponent(s), Pieces::Pawn, victim.0 as int);
        let u2 = u1.update(victim.0 as int, None);
        crate::zobrist::lemma_xor_pieces_update(zr, u1, victim.0 as int, None, 64);
        let a2 = crate::zobrist::xor_pieces(zr, u2, 64);
        assert(a2 == a1 ^ tv ^ 0);
        let u3 = u2.update(to.0 as int, Some((s, placed)));
        crate::zobrist::lemma_xor_pieces_update(zr, u2, to.0 as int, Some((s, placed)), 64);
        let a3 = crate::zobrist::xor_pieces(zr, u3, 64);
        assert(u2[to.0 as int] is None);
        assert(a3 == a2 ^ 0 ^ tt);
        assert(u3 == spec_pl_after_make(pl, s, m));
        let k = pre.game_state.zobrist_key;
        assert(k == a0 ^ cc ^ sc ^ ec);
        assert((((((a0 ^ cc ^ sc ^ ec) ^ tf) ^ tv) ^ tt) ^ cc ^ cn ^ sc ^ sn ^ ec ^ en) == (((((a0
            ^ tf ^ 0) ^ tv ^ 0) ^ 0 ^ tt) ^ cn) ^ sn ^ en)) by (bit_vector);
    } else if m.spec_castling() {
        let rf = spec_rook_from(to);
        let rt = spec_rook_to(to);
        let trf = zr.spec_piece(s, Pieces::Rook, rf.0 as int);
        let trt = zr.spec_piece(s, Pieces::Rook, rt.0 as int);
        let u3 = u1.update(to.0 as int, Some((s, placed)));
        crate::zobrist::lemma_xor_pieces_update(zr, u1, to.0 as int, Some((s, placed)), 64);
        let a3 = crate::zobrist::xor_pieces(zr, u3, 64);
        assert(u1[to.0 as int] is None);
        assert(a3 == a1 ^ 0 ^ tt);
        let u4 = u3.update(rf.0 as int, None);
        crate::zobrist::lemma_xor_pieces_update(zr, u3, rf.0 as int, None, 64);
        let a4 = crate::zobrist::xor_pieces(zr, u4, 64);
        assert(u3[rf.0 as int] == Some((s, Pieces::Rook)));
        assert(a4 == a3 ^ trf ^ 0);
        let u5 = u4.update(rt.0 as int, Some((s, Pieces::Rook)));
        crate::zobrist::lemma_xor_pieces_update(zr, u4, rt.0 as int, Some((s, Pieces::Rook)), 64);
        let a5 = crate::zobrist::xor_pieces(zr, u5, 64);
        assert(u4[rt.0 as int] is None);
        assert(a5 == a4 ^ 0 ^ trt);
        assert(u5 == spec_pl_after_make(pl, s, m));
        let k = pre.game_state.zobrist_key;
        assert(k == a0 ^ cc ^ sc ^ ec);
        let lhs = (((((a0 ^ cc ^ sc ^ ec) ^ tf) ^ tt) ^ trf ^ trt) ^ cc ^ cn ^ sc ^ sn ^ ec ^ en);
        let rhs = ((((((a0 ^ tf ^ 0) ^ 0 ^ tt) ^ trf ^ 0) ^ 0 ^ trt) ^ cn) ^ sn) ^ en;
        assert(lhs == rhs) by (bit_vector)
            requires
                lhs == (((((a0 ^ cc ^ sc ^ ec) ^ tf) ^ tt) ^ trf ^ trt) ^ cc ^ cn ^ sc ^ sn ^ ec ^ en),
                rhs == ((((((a0 ^ tf ^ 0) ^ 0 ^ tt) ^ trf ^ 0) ^ 0 ^ trt) ^ cn) ^ sn) ^ en,
        ;
    } else {
        match m.spec_captured() {
            Some(cap) => {
                let tc = zr.spec_piece(spec_opponent(s), cap, to.0 as int);
                let u3 = u1.update(to.0 as int, Some((s, placed)));
                crate::zobrist::lemma_xor_pieces_update(zr, u1, to.0 as int, Some((s, placed)), 64);
                let a3 = crate::zobrist::xor_pieces(zr, u3, 64);
                assert(u1[to.0 as int] == Some((spec_opponent(s), cap)));
                assert(a3 == a1 ^ tc ^ tt);
                assert(u3 == spec_pl_after_make(pl, s, m));
                let k = pre.game_state.zobrist_key;
                assert(k == a0 ^ cc ^ sc ^ ec);
                assert((((((a0 ^ cc ^ sc ^ ec) ^ tf) ^ tc) ^ tt) ^ cc ^ cn ^ sc ^ sn ^ ec ^ en)
                    == ((((a0 ^ tf ^ 0) ^ tc ^ tt) ^ cn) ^ sn ^ en)) by (bit_vector);
            },
            None => {
                let u3 = u1.update(to.0 as int, Some((s, placed)));
                crate::zobrist::lemma_xor_pieces_update(zr, u1, to.0 as int, Some((s, placed)), 64);
                let a3 = crate::zobrist::xor_pieces(zr, u3, 64);
                assert(u1[to.0 as int] is None);
                assert(a3 == a1 ^ 0 ^ tt);
                assert(u3 == spec_pl_after_make(pl, s, m));
                let k = pre.game_state.zobrist_key;
                assert(k == a0 ^ cc ^ sc ^ ec);
                assert(((((a0 ^ cc ^ sc ^ ec) ^ tf) ^ tt) ^ cc ^ cn ^ sc ^ sn ^ ec ^ en) == ((((a0
                    ^ tf ^ 0) ^ 0 ^ tt) ^ cn) ^ sn ^ en)) by (bit_vector);
            },
        }
    }
}

/// The opponent of a side.
pub open spec fn spec_opponent(side: u8) -> u8 {
    if side == 0 {
        1u8
    } else {
        0u8
    }
}

/// The piece a move leaves on its destination: the promotion piece when
/// one is named, else the moving piece.
pub open spec fn spec_placed(m: crate::moves::Move) -> Pieces {
    match m.spec_promoted() {
        Some(p) => p,
        None => m.spec_piece()->0,
    }
}

/// The square of the pawn captured en passant: one rank behind the
/// destination, from the mover's point of view.
pub open spec fn spec_ep_victim(side: u8, to: Square) -> Square {
    if side == Sides::WHITE {
        Square((to.0 - 8) as u8)
    } else {
        Square((to.0 + 8) as u8)
    }
}

/// Where the rook stands before the king castles to `to`.
pub open spec fn spec_rook_from(to: Square) -> Square {
    if to.0 == 6 {
        Square(7)
    } else if to.0 == 2 {
        Square(0)
    } else if to.0 == 62 {
        Square(63)
    } else {
        Square(56)
    }
}

/// Where the rook lands when the king castles to `to`.
pub open spec fn spec_rook_to(to: Square) -> Square {
    if to.0 == 6 {
        Square(5)
    } else if to.0 == 2 {
        Square(3)
    } else if to.0 == 62 {
        Square(61)
    } else {
        Square(59)
    }
}

/// The castling-rights bits a move touching `sq` leaves standing:
/// leaving or striking a king or rook home square drops its rights.
pub open spec fn spec_castling_keep(sq: u8) -> u8 {
    if sq == 4 {
        0b1100u8
    } else if sq == 7 {
        0b1110u8
    } else if sq == 0 {
        0b1101u8
    } else if sq == 60 {
        0b0011u8
    } else if sq == 63 {
        0b1011u8
    } else if sq == 56 {
        0b0111u8
    } else {
        0b1111u8
    }
}

/// The en-passant target after a move: the skipped square behind a
/// double pawn push, else nothing.
pub open spec fn spec_ep_after_make(m: crate::moves::Move) -> Option<Square> {
    if m.spec_double_step() {
        Some(Square(((m.spec_from().0 + m.spec_to().0) / 2) as u8))
    } else {
        None
    }
}

/// The halfmove clock after a move: reset by a pawn move or a capture,
/// else one more.
pub open spec fn spec_clock_after_make(gs: GameState, m: crate::moves::Move) -> u16 {
    if m.spec_piece() == Some(Pieces::Pawn) || m.spec_captured() is Some {
        0u16
    } else {
        (gs.half_move_clock + 1) as u16
    }
}

/// What `make` asks of a move against the current board: the moving
/// piece stands on the source, the destination and flags are consistent
/// with what stands there, and the clocks and history have room. Chess
/// legality beyond this consistency is the move generator's business.
pub open spec fn move_ok(b: Board, m: crate::moves::Move) -> bool {
    let side = b.game_state.active_side;
    let opp = spec_opponent(side);
    let from = m.spec_from();
    let to = m.spec_to();
    &&& from.valid() && to.valid() && from != to
    &&& m.spec_piece() is Some
    &&& b.pl()[from.0 as int] == Some((side, m.spec_piece()->0))
    &&& if m.spec_en_passant() {
        &&& m.spec_captured() == Some(Pieces::Pawn)
        &&& m.spec_piece() == Some(Pieces::Pawn)
        &&& b.game_state.en_passant == Some(to)
        &&& (side == Sides::WHITE ==> to.0 / 8 == 5)
        &&& (side == Sides::BLACK ==> to.0 / 8 == 2)
        &&& b.pl()[to.0 as int] is None
        &&& b.pl()[spec_ep_victim(side, to).0 as int] == Some((opp, Pieces::Pawn))
        &&& spec_ep_victim(side, to) != from
    } else {
        match m.spec_captured() {
            Some(cap) => b.pl()[to.0 as int] == Some((opp, cap)),
            None => b.pl()[to.0 as int] is None,
        }
    }
    &&& m.spec_double_step() ==> {
        &&& m.spec_piece() == Some(Pieces::Pawn)
        &&& m.spec_captured() is None
        &&& !m.spec_castling() && !m.spec_en_passant()
        &&& (side == Sides::WHITE ==> from.0 / 8 == 1 && to.0 == from.0 + 16)
        &&& (side == Sides::BLACK ==> from.0 / 8 == 6 && from.0 == to.0 + 16)
    }
    &&& m.spec_castling() ==> {
        &&& m.spec_piece() == Some(Pieces::King)
        &&& m.spec_captured() is None
        &&& m.spec_promoted() is None
        &&& !m.spec_en_passant() && !m.spec_double_step()
        &&& (side == Sides::WHITE ==> from.0 == 4 && (to.0 == 6 || to.0 == 2))
        &&& (side == Sides::BLACK ==> from.0 == 60 && (to.0 == 62 || to.0 == 58))
        &&& b.pl()[spec_rook_from(to).0 as int] == Some((side, Pieces::Rook))
        &&& b.pl()[spec_rook_to(to).0 as int] is None
    }
    &&& b.game_state.half_move_clock < 0xFFFF
    &&& b.game_state.fullmove_number < 0xFFFF
    &&& b.history@.len() < NrOf::MAX_HISTORY
}

/// The piece placement after `side` makes `m`: the source empties, the
/// en-passant victim (if any) empties, the placed piece lands on the
/// destination, and a castling rook crosses over.
pub open spec fn spec_pl_after_make(pl: Seq<PieceEntry>, side: u8, m: crate::moves::Move) -> Seq<
    PieceEntry,
> {
    let from = m.spec_from();
    let to = m.spec_to();
    let base = pl.update(from.0 as int, None);
    let base2 = if m.spec_en_passant() {
        base.update(spec_ep_victim(side, to).0 as int, None)
    } else {
        base
    };
    let base3 = base2.update(to.0 as int, Some((side, spec_placed(m))));
    if m.spec_castling() {
        base3.update(spec_rook_from(to).0 as int, None).update(
            spec_rook_to(to).0 as int,
            Some((side, Pieces::Rook)),
        )
    } else {
        base3
    }
}

/// The board's stored Zobrist key equals the key its position folds to.
pub open spec fn key_ok(b: Board, zr: crate::zobrist::ZobristRandoms) -> bool {
    b.game_state.zobrist_key == crate::zobrist::spec_key(
        zr,
        b.pl(),
        b.game_state.castling,
        b.game_state.active_side,
        b.game_state.en_passant,
    )
}

/// The incremental key update `make` applies: each feature that changes
/// folds its old key out and its new key in.
pub open spec fn spec_key_after_make(
    b: Board,
    m: crate::moves::Move,
    zr: crate::zobrist::ZobristRandoms,
) -> u64 {
    let s = b.game_state.active_side;
    let from = m.spec_from();
    let to = m.spec_to();
    let new_castling = b.game_state.castling & spec_castling_keep(from.0) & spec_castling_keep(
        to.0,
    );
    let k0 = b.game_state.zobrist_key ^ zr.spec_piece(s, m.spec_piece()->0, from.0 as int);
    let k1 = if m.spec_en_passant() {
        k0 ^ zr.spec_piece(spec_opponent(s), Pieces::Pawn, spec_ep_victim(s, to).0 as int)
    } else {
        match m.spec_captured() {
            Some(cap) => k0 ^ zr.spec_piece(spec_opponent(s), cap, to.0 as int),
            None => k0,
        }
    };
    let k2 = k1 ^ zr.spec_piece(s, spec_placed(m), to.0 as int);
    let k3 = if m.spec_castling() {
        k2 ^ zr.spec_piece(s, Pieces::Rook, spec_rook_from(to).0 as int) ^ zr.spec_piece(
            s,
            Pieces::Rook,
            spec_rook_to(to).0 as int,
        )
    } else {
        k2
    };
    let k4 = k3 ^ zr.spec_castling(b.game_state.castling) ^ zr.spec_castling(new_castling);
    let k5 = k4 ^ zr.spec_side(s) ^ zr.spec_side(spec_opponent(s));
    k5 ^ zr.spec_en_passant(b.game_state.en_passant) ^ zr.spec_en_passant(spec_ep_after_make(m))
}

/// Sum of the bit counts of the first `n` bitboards.
pub open spec fn sum_pop(s: Seq<Bitboard>, n: int) -> int
    decreases n,
{
    if n <= 0 {
        0
    } else {
        sum_pop(s, n - 1) + pop64(s[n - 1].0)
    }
}

/// The number of pieces on the board: the bit counts of all twelve piece
/// bitboards, summed.
pub open spec fn total_pop(b: Board) -> int {
    sum_pop(b.bb_pieces@, 12)
}

/// Replacing one bitboard of the sequence moves the sum by the
/// difference of the two bit counts.
pub proof fn lemma_sum_pop_update(s: Seq<Bitboard>, i: int, v: Bitboard, n: int)
    requires
        0 <= i < s.len(),
        n <= s.len(),
    ensures
        i < n ==> sum_pop(s.update(i, v), n) == sum_pop(s, n) - pop64(s[i].0) + pop64(v.0),
        i >= n ==> sum_pop(s.update(i, v), n) == sum_pop(s, n),
    decreases n,
{
    if n > 0 {
        lemma_sum_pop_update(s, i, v, n - 1);
    }
}

/// After `put_piece`'s field updates, the placement invariant still
/// holds.
proof fn lemma_placement_after_put(pre: Board, post: Board, side: u8, piece: Pieces, sq: u64)
    requires
        pre.wf_placement(),
        valid_side(side),
        sq < 64,
        pre.pl()[sq as int] is None,
        post.pl() == pre.pl().update(sq as int, Some((side, piece))),
        post.bb_pieces@ == pre.bb_pieces@.update(
            side as int * 6 + piece.index(),
            Bitboard(pre.spec_piece_bb(side, piece) | (1u64 << sq)),
        ),
        post.bb_occupancy@ == pre.bb_occupancy@.update(
            side as int,
            Bitboard(pre.spec_occ(side) | (1u64 << sq)),
        ),
    ensures
        post.wf_placement(),
{
    assert forall|s2: u8, p2: Pieces, i: u64| valid_side(s2) && i < 64 implies (bit_set(
        post.spec_piece_bb(s2, p2),
        i,
    ) <==> post.pl()[i as int] == Some((s2, p2))) by {
        assert(bit_set(pre.spec_piece_bb(s2, p2), i) <==> pre.pl()[i as int] == Some((s2, p2)));
        if s2 == side && p2 == piece {
            crate::bitboard::lemma_bit_or(pre.spec_piece_bb(side, piece), sq, i);
        } else {
            assert(post.spec_piece_bb(s2, p2) == pre.spec_piece_bb(s2, p2));
        }
    }
    assert forall|s2: u8, i: u64| valid_side(s2) && i < 64 implies (bit_set(post.spec_occ(s2), i)
        <==> entry_of_side(post.pl()[i as int], s2)) by {
        assert(bit_set(pre.spec_occ(s2), i) <==> entry_of_side(pre.pl()[i as int], s2));
        if s2 == side {
            crate::bitboard::lemma_bit_or(pre.spec_occ(side), sq, i);
        } else {
            assert(post.spec_occ(s2) == pre.spec_occ(s2));
        }
    }
}

/// After `remove_piece`'s field updates, the placement invariant still
/// holds.
proof fn lemma_placement_after_remove(pre: Board, post: Board, side: u8, piece: Pieces, sq: u64)
    requires
        pre.wf_placement(),
        valid_side(side),
        sq < 64,
        pre.pl()[sq as int] == Some((side, piece)),
        post.pl() == pre.pl().update(sq as int, None),
        post.bb_pieces@ == pre.bb_pieces@.update(
            side as int * 6 + piece.index(),
            Bitboard(pre.spec_piece_bb(side, piece) & !(1u64 << sq)),
        ),
        post.bb_occupancy@ == pre.bb_occupancy@.update(
            side as int,
            Bitboard(pre.spec_occ(side) & !(1u64 << sq)),
        ),
    ensures
        post.wf_placement(),
{
    assert forall|s2: u8, p2: Pieces, i: u64| valid_side(s2) && i < 64 implies (bit_set(
        post.spec_piece_bb(s2, p2),
        i,
    ) <==> post.pl()[i as int] == Some((s2, p2))) by {
        assert(bit_set(pre.spec_piece_bb(s2, p2), i) <==> pre.pl()[i as int] == Some((s2, p2)));
        if s2 == side && p2 == piece {
            crate::bitboard::lemma_bit_andnot(pre.spec_piece_bb(side, piece), sq, i);
        } else {
            assert(post.spec_piece_bb(s2, p2) == pre.spec_piece_bb(s2, p2));
        }
    }
    assert forall|s2: u8, i: u64| valid_side(s2) && i < 64 implies (bit_set(post.spec_occ(s2), i)
        <==> entry_of_side(post.pl()[i as int], s2)) by {
        assert(bit_set(pre.spec_occ(s2), i) <==> entry_of_side(pre.pl()[i as int], s2));
        if s2 == side {
            crate::bitboard::lemma_bit_andnot(pre.spec_occ(side), sq, i);
        } else {
            assert(post.spec_occ(s2) == pre.spec_occ(s2));
        }
    }
}

} // verus!
