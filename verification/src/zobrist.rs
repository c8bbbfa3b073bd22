//! The Zobrist table: pseudo-random 64-bit keys for every board feature,
//! drawn once from a seeded generator, and the XOR fold that turns a
//! position into its hash key.
use vstd::prelude::*;

verus! {

use crate::defs::valid_side;
use crate::pieces::Pieces;
use crate::square::Square;

/// A position's Zobrist hash.
pub type ZobristKey = u64;

/// Declares rand_chacha's ChaCha20 generator so a field may hold one.
#[verifier::external_type_specification]
#[verifier::external_body]
pub struct ExChaCha20Rng(rand_chacha::ChaCha20Rng);

/// The value at position `index` of the 64-bit ChaCha20 stream grown
/// from `seed`. ChaCha is a pure stream cipher: rand_chacha documents
/// that a seeded generator yields the same stream in every process and
/// on every machine, so the value is a function of seed and position
/// alone.
pub uninterp spec fn chacha_u64(seed: Seq<u8>, index: int) -> u64;

/// A seeded ChaCha20 generator, with its seed and a ghost count of the
/// values drawn so far: position `drawn` of the stream comes next.
struct SeededStream {
    rng: rand_chacha::ChaCha20Rng,
    seed: [u8; 32],
    drawn: Ghost<int>,
}

/// Relies on `ChaCha20Rng::from_seed` (`rand_core::SeedableRng`): the
/// generator starts its seed's stream at position zero.
#[verifier::external_body]
fn stream_from_seed(seed: [u8; 32]) -> (r: SeededStream)
    ensures
        r.seed == seed,
        r.drawn@ == 0,
{
    SeededStream {
        rng: <rand_chacha::ChaCha20Rng as rand::SeedableRng>::from_seed(seed),
        seed,
        drawn: Ghost(0int),
    }
}

/// Relies on `rand::Rng::random::<u64>` on ChaCha20: the draw is the
/// stream's value at the generator's position, which then advances.
#[verifier::external_body]
fn stream_draw(s: &mut SeededStream) -> (r: u64)
    ensures
        final(s).seed == old(s).seed,
        final(s).drawn@ == old(s).drawn@ + 1,
        r == chacha_u64(old(s).seed@, old(s).drawn@),
{
    rand::Rng::random::<u64>(&mut s.rng)
}

/// The fixed seed the table is always grown from.
pub open spec fn spec_table_seed() -> Seq<u8> {
    Seq::new(32, |i: int| 125u8)
}

/// The process-wide table of random keys: one per (side, piece, square),
/// one per castling-rights mask, one per side to move, and one per
/// en-passant square plus a "none" slot. Built once, never mutated.
pub struct ZobristRandoms {
    /// Keys per (side, piece, square), flattened side-major.
    pieces: Vec<u64>,
    /// Keys per castling-rights mask.
    castling: Vec<u64>,
    /// Keys per side to move.
    sides: Vec<u64>,
    /// Keys per en-passant target square; the last slot stands for "none".
    en_passant: Vec<u64>,
}

impl ZobristRandoms {
    /// The table holds every slot its lookups may read.
    pub closed spec fn wf(self) -> bool {
        self.pieces@.len() == 768 && self.castling@.len() == 16 && self.sides@.len() == 2
            && self.en_passant@.len() == 65
    }

    /// The raw (side, piece, square) slot at flat index `i`.
    pub closed spec fn spec_piece_slot(self, i: int) -> u64 {
        self.pieces@[i]
    }

    /// The raw en-passant slot at index `sq`; slot 64 stands for "none".
    pub closed spec fn spec_ep_slot(self, sq: int) -> u64 {
        self.en_passant@[sq]
    }

    /// The key of `piece` of `side` standing on square `sq`.
    pub open spec fn spec_piece(self, side: u8, piece: Pieces, sq: int) -> u64 {
        self.spec_piece_slot(side as int * 384 + piece.index() * 64 + sq)
    }

    /// The key of a castling-rights mask.
    pub closed spec fn spec_castling(self, mask: u8) -> u64 {
        self.castling@[mask as int]
    }

    /// The key of the side to move.
    pub closed spec fn spec_side(self, side: u8) -> u64 {
        self.sides@[side as int]
    }

    /// The key of the en-passant target, or of the "none" slot.
    pub closed spec fn spec_en_passant(self, en_passant: Option<Square>) -> u64 {
        match en_passant {
            Some(sq) => self.en_passant@[sq.0 as int],
            None => self.en_passant@[64],
        }
    }

    /// Every slot holds its value of the fixed-seed stream, drawn in
    /// fill order: the (side, piece, square) slots side-major first,
    /// then the castling masks, the sides, and the en-passant slots.
    pub open spec fn deterministic(self) -> bool {
        &&& forall|i: int| 0 <= i < 768 ==> self.spec_piece_slot(i) == chacha_u64(
            spec_table_seed(),
            i,
        )
        &&& forall|m: u8| m < 16 ==> self.spec_castling(m) == chacha_u64(
            spec_table_seed(),
            768 + m,
        )
        &&& forall|s: u8| s < 2 ==> self.spec_side(s) == chacha_u64(spec_table_seed(), 784 + s)
        &&& forall|sq: int| 0 <= sq < 65 ==> self.spec_ep_slot(sq) == chacha_u64(
            spec_table_seed(),
            786 + sq,
        )
    }

    /// Fills the table from a generator seeded with a fixed constant:
    /// first every (side, piece, square) slot in side-major order, then
    /// the castling masks, the sides, and the en-passant slots. Two
    /// tables built this way are equal, slot for slot.
    pub fn new() -> (r: ZobristRandoms)
        ensures
            r.wf(),
            r.deterministic(),
    {
        let seed_bytes: [u8; 32] = [125u8; 32];
        proof {
            assert(seed_bytes@ =~= spec_table_seed());
        }
        let mut stream = stream_from_seed(seed_bytes);
        let mut pieces: Vec<u64> = Vec::new();
        while pieces.len() < 768
            invariant
                pieces@.len() <= 768,
                stream.seed == seed_bytes,
                seed_bytes@ == spec_table_seed(),
                stream.drawn@ == pieces@.len(),
                forall|i: int|
                    0 <= i < pieces@.len() ==> pieces@[i] == chacha_u64(spec_table_seed(), i),
            decreases 768 - pieces@.len(),
        {
            let v = stream_draw(&mut stream);
            pieces.push(v);
        }
        let mut castling: Vec<u64> = Vec::new();
        while castling.len() < 16
            invariant
                castling@.len() <= 16,
                stream.seed == seed_bytes,
                seed_bytes@ == spec_table_seed(),
                stream.drawn@ == 768 + castling@.len(),
                forall|i: int|
                    0 <= i < castling@.len() ==> castling@[i] == chacha_u64(
                        spec_table_seed(),
                        768 + i,
                    ),
            decreases 16 - castling@.len(),
        {
            let v = stream_draw(&mut stream);
            castling.push(v);
        }
        let mut sides: Vec<u64> = Vec::new();
        while sides.len() < 2
            invariant
                sides@.len() <= 2,
                stream.seed == seed_bytes,
                seed_bytes@ == spec_table_seed(),
                stream.drawn@ == 784 + sides@.len(),
                forall|i: int|
                    0 <= i < sides@.len() ==> sides@[i] == chacha_u64(spec_table_seed(), 784 + i),
            decreases 2 - sides@.len(),
        {
            let v = stream_draw(&mut stream);
            sides.push(v);
        }
        let mut en_passant: Vec<u64> = Vec::new();
        while en_passant.len() < 65
            invariant
                en_passant@.len() <= 65,
                stream.seed == seed_bytes,
                seed_bytes@ == spec_table_seed(),
                stream.drawn@ == 786 + en_passant@.len(),
                forall|i: int|
                    0 <= i < en_passant@.len() ==> en_passant@[i] == chacha_u64(
                        spec_table_seed(),
                        786 + i,
                    ),
            decreases 65 - en_passant@.len(),
        {
            let v = stream_draw(&mut stream);
            en_passant.push(v);
        }
        ZobristRandoms { pieces, castling, sides, en_passant }
    }

    /// Reads the key of `piece` of `side` on `square`.
    pub fn piece(&self, side: u8, piece: Pieces, square: Square) -> (r: ZobristKey)
        requires
            self.wf(),
            valid_side(side),
            square.valid(),
        ensures
            r == self.spec_piece(side, piece, square.0 as int),
    {
        self.pieces[(side as usize) * 384 + piece.as_index() * 64 + (square.0 as usize)]
    }

    /// Reads the key of a castling-rights mask.
    pub fn castling(&self, castling_permissions: u8) -> (r: ZobristKey)
        requires
            self.wf(),
            castling_permissions < 16,
        ensures
            r == self.spec_castling(castling_permissions),
    {
        self.castling[castling_permissions as usize]
    }

    /// Reads the key of the side to move.
    pub fn side(&self, side: u8) -> (r: ZobristKey)
        requires
            self.wf(),
            valid_side(side),
        ensures
            r == self.spec_side(side),
    {
        self.sides[side as usize]
    }

    /// Reads the key of the en-passant target, the dedicated "none" slot
    /// when there is no target.
    pub fn en_passant(&self, en_passant: Option<Square>) -> (r: ZobristKey)
        requires
            self.wf(),
            match en_passant {
                Some(sq) => sq.valid(),
                None => true,
            },
        ensures
            r == self.spec_en_passant(en_passant),
    {
        match en_passant {
            Some(ep) => self.en_passant[ep.0 as usize],
            None => self.en_passant[64],
        }
    }
}

/// The key a square contributes to the piece fold: the key of the piece
/// standing there, or nothing.
pub open spec fn piece_contrib(zr: ZobristRandoms, entry: Option<(u8, Pieces)>, sq: int) -> u64 {
    match entry {
        Some(sp) => zr.spec_piece(sp.0, sp.1, sq),
        None => 0,
    }
}

/// XOR of the piece keys of the first `n` squares of a placement.
pub open spec fn xor_pieces(zr: ZobristRandoms, pl: Seq<Option<(u8, Pieces)>>, n: int) -> u64
    decreases n,
{
    if n <= 0 {
        0
    } else {
        xor_pieces(zr, pl, n - 1) ^ piece_contrib(zr, pl[n - 1], n - 1)
    }
}

/// The Zobrist key of a whole position: the XOR of every occupied
/// square's piece key, the castling-rights key, the side-to-move key,
/// and the en-passant key.
pub open spec fn spec_key(
    zr: ZobristRandoms,
    pl: Seq<Option<(u8, Pieces)>>,
    castling: u8,
    side: u8,
    en_passant: Option<Square>,
) -> u64 {
    xor_pieces(zr, pl, 64) ^ zr.spec_castling(castling) ^ zr.spec_side(side) ^ zr.spec_en_passant(
        en_passant,
    )
}

/// Changing one square of the placement folds the old entry's key out
/// and the new entry's key in.
pub proof fn lemma_xor_pieces_update(
    zr: ZobristRandoms,
    pl: Seq<Option<(u8, Pieces)>>,
    i: int,
    v: Option<(u8, Pieces)>,
    n: int,
)
    requires
        0 <= i < pl.len(),
        n <= pl.len(),
    ensures
        i < n ==> xor_pieces(zr, pl.update(i, v), n) == xor_pieces(zr, pl, n) ^ piece_contrib(
            zr,
            pl[i],
            i,
        ) ^ piece_contrib(zr, v, i),
        i >= n ==> xor_pieces(zr, pl.update(i, v), n) == xor_pieces(zr, pl, n),
    decreases n,
{
    if n <= 0 {
    } else {
        let up = pl.update(i, v);
        lemma_xor_pieces_update(zr, pl, i, v, n - 1);
        if i == n - 1 {
            let a = xor_pieces(zr, pl, n - 1);
            let o = piece_contrib(zr, pl[i], i);
            let w = piece_contrib(zr, v, i);
            assert(xor_pieces(zr, up, n) == a ^ w);
            assert((a ^ o) ^ o ^ w == a ^ w) by (bit_vector);
        } else if i < n - 1 {
            let a = xor_pieces(zr, pl, n - 1);
            let o = piece_contrib(zr, pl[i], i);
            let w = piece_contrib(zr, v, i);
            let c = piece_contrib(zr, pl[n - 1], n - 1);
            assert(up[n - 1] == pl[n - 1]);
            assert(xor_pieces(zr, up, n) == (a ^ o ^ w) ^ c);
            assert((a ^ o ^ w) ^ c == (a ^ c) ^ o ^ w) by (bit_vector);
        } else {
            assert(up[n - 1] == pl[n - 1]);
        }
    }
}

} // verus!
