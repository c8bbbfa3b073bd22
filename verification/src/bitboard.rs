//! A bitboard: a 64-bit set of squares, bit *i* standing for square *i*.
use vstd::prelude::*;

verus! {

use crate::square::Square;

/// A 64-bit set of squares. Bit *i* is set exactly when square *i* is in
/// the set, in the same little-endian order as `Square`'s index.
#[derive(Debug, Clone, Copy, PartialEq, Eq, Structural)]
pub struct Bitboard(pub u64);

/// Square `sq` is a member of the bit set `bb`.
pub open spec fn bit_set(bb: u64, sq: u64) -> bool {
    bb & (1u64 << sq) != 0
}

/// The number of set bits of `x`.
pub open spec fn pop64(x: u64) -> nat
    decreases x,
{
    if x == 0 {
        0
    } else {
        (x % 2 + pop64(x / 2)) as nat
    }
}

/// The bit count always splits into the lowest bit plus the rest.
proof fn lemma_pop64_unfold(x: u64)
    ensures
        pop64(x) == x % 2 + pop64(x / 2),
    decreases x,
{
    if x == 0 {
    }
}

/// Setting a clear bit raises the bit count by exactly one.
pub proof fn lemma_pop64_set(x: u64, sq: u64)
    requires
        sq < 64,
        x & (1u64 << sq) == 0,
    ensures
        pop64(x | (1u64 << sq)) == pop64(x) + 1,
    decreases sq,
{
    let y = x | (1u64 << sq);
    lemma_pop64_unfold(x);
    lemma_pop64_unfold(y);
    if sq == 0 {
        assert(y % 2 == 1 && x % 2 == 0 && y / 2 == x / 2) by (bit_vector)
            requires
                x & (1u64 << 0u64) == 0,
                y == x | (1u64 << 0u64),
        ;
    } else {
        let sqm = (sq - 1) as u64;
        assert(y % 2 == x % 2 && y / 2 == (x / 2) | (1u64 << sqm)
            && (x / 2) & (1u64 << sqm) == 0) by (bit_vector)
            requires
                1 <= sq < 64,
                sqm == sq - 1,
                x & (1u64 << sq) == 0,
                y == x | (1u64 << sq),
        ;
        lemma_pop64_set(x / 2, sqm);
    }
}

/// Clearing a set bit lowers the bit count by exactly one.
pub proof fn lemma_pop64_clear(x: u64, sq: u64)
    requires
        sq < 64,
        x & (1u64 << sq) != 0,
    ensures
        pop64(x) == pop64(x & !(1u64 << sq)) + 1,
{
    let y = x & !(1u64 << sq);
    assert(y & (1u64 << sq) == 0 && (y | (1u64 << sq)) == x) by (bit_vector)
        requires
            sq < 64,
            x & (1u64 << sq) != 0,
            y == x & !(1u64 << sq),
    ;
    lemma_pop64_set(y, sq);
}

/// Two bit sets with the same members are the same value.
pub proof fn lemma_bits_ext(a: u64, b: u64)
    requires
        forall|i: u64| i < 64 ==> (#[trigger] (a & (1u64 << i)) != 0) == ((b & (1u64 << i)) != 0),
    ensures
        a == b,
{
    broadcast use vstd::std_specs::bits::axiom_u64_trailing_zeros;

    if a != b {
        let d = a ^ b;
        assert(d != 0) by (bit_vector)
            requires
                a != b,
                d == a ^ b,
        ;
        let t = vstd::std_specs::bits::u64_trailing_zeros(d) as u64;
        assert(t < 64 && (d >> t) & 1u64 == 1u64);
        assert(((a & (1u64 << t)) != 0) != ((b & (1u64 << t)) != 0)) by (bit_vector)
            requires
                d == a ^ b,
                t < 64,
                (d >> t) & 1u64 == 1u64,
        ;
    }
}

/// Membership after setting a bit: square `i` is in `x | (1 << sq)`
/// exactly when it was in `x` or is `sq` itself.
pub proof fn lemma_bit_or(x: u64, sq: u64, i: u64)
    by (bit_vector)
    requires
        sq < 64,
        i < 64,
    ensures
        ((x | (1u64 << sq)) & (1u64 << i) != 0) == ((x & (1u64 << i) != 0) || i == sq),
{
}

/// Membership after clearing a bit: square `i` is in `x & !(1 << sq)`
/// exactly when it was in `x` and is not `sq`.
pub proof fn lemma_bit_andnot(x: u64, sq: u64, i: u64)
    by (bit_vector)
    requires
        sq < 64,
        i < 64,
    ensures
        ((x & !(1u64 << sq)) & (1u64 << i) != 0) == ((x & (1u64 << i) != 0) && i != sq),
{
}

/// Relies on `u64::count_ones`: the number of one bits of the value.
#[verifier::external_body]
fn hw_count_ones(x: u64) -> (r: u32)
    ensures
        r == pop64(x),
{
    x.count_ones()
}

impl Bitboard {
    /// The empty set of squares.
    pub fn empty() -> (r: Bitboard)
        ensures
            r.0 == 0,
    {
        Bitboard(0)
    }

    /// The set holding `square` alone.
    pub fn from_square(square: Square) -> (r: Bitboard)
        requires
            square.valid(),
        ensures
            r.0 == 1u64 << square.0,
    {
        Bitboard(1u64 << square.0)
    }

    /// Whether `square` is in the set.
    pub fn is_set(self, square: Square) -> (r: bool)
        requires
            square.valid(),
        ensures
            r == bit_set(self.0, square.0 as u64),
    {
        (self.0 & (1u64 << square.0)) != 0
    }

    /// Puts `square` into the set.
    pub fn set(&mut self, square: Square)
        requires
            square.valid(),
        ensures
            final(self).0 == old(self).0 | (1u64 << square.0),
    {
        self.0 = self.0 | (1u64 << square.0);
    }

    /// Takes `square` out of the set.
    pub fn clear(&mut self, square: Square)
        requires
            square.valid(),
        ensures
            final(self).0 == old(self).0 & !(1u64 << square.0),
    {
        self.0 = self.0 & !(1u64 << square.0);
    }

    /// Toggles `square`'s membership.
    pub fn flip(&mut self, square: Square)
        requires
            square.valid(),
        ensures
            final(self).0 == old(self).0 ^ (1u64 << square.0),
    {
        self.0 = self.0 ^ (1u64 << square.0);
    }

    /// Counts the squares in the set, with the hardware population count.
    pub fn pop_count(self) -> (r: u32)
        ensures
            r == pop64(self.0),
    {
        hw_count_ones(self.0)
    }

    /// The union of the two sets.
    pub fn bitor(self, rhs: Bitboard) -> (r: Bitboard)
        ensures
            r.0 == self.0 | rhs.0,
    {
        Bitboard(self.0 | rhs.0)
    }

    /// The intersection of the two sets.
    pub fn bitand(self, rhs: Bitboard) -> (r: Bitboard)
        ensures
            r.0 == self.0 & rhs.0,
    {
        Bitboard(self.0 & rhs.0)
    }
}

impl Square {
    /// The bitboard holding this square alone.
    pub fn bb_mask(self) -> (r: Bitboard)
        requires
            self.valid(),
        ensures
            r.0 == 1u64 << self.0,
    {
        Bitboard(1u64 << self.0)
    }
}

} // verus!
