use librune::bitboard::Bitboard;
use librune::square::Square;

#[test]
fn single_square_operations() {
    let mut bb = Bitboard::empty();
    assert!(!bb.is_set(Square(20)));
    bb.set(Square(20));
    assert!(bb.is_set(Square(20)));
    assert_eq!(bb, Bitboard(1u64 << 20));
    bb.clear(Square(20));
    assert!(!bb.is_set(Square(20)));
    assert_eq!(bb, Bitboard(0));
    bb.flip(Square(63));
    assert_eq!(bb, Bitboard(1u64 << 63));
    bb.flip(Square(63));
    assert_eq!(bb, Bitboard(0));
    assert_eq!(Square(5).bb_mask(), Bitboard(1u64 << 5));
}

#[test]
fn pop_count_counts_set_bits() {
    assert_eq!(Bitboard(0).pop_count(), 0);
    assert_eq!(Bitboard(0b1011).pop_count(), 3);
    assert_eq!(Bitboard(u64::MAX).pop_count(), 64);
    assert_eq!(Bitboard(0x8000_0000_0000_0001).pop_count(), 2);
}

#[test]
fn pop_count_inclusion_exclusion() {
    let a = Bitboard(0x0F0F_1234_5678_9ABC);
    let b = Bitboard(0xFFF0_0F0F_8421_1248);
    let union = a.bitor(b).pop_count();
    let both = a.bitand(b).pop_count();
    assert_eq!(union, a.pop_count() + b.pop_count() - both);
}
