use librune::bitboard::Bitboard;
use librune::square::Square;

#[test]
fn representation() {
    let sq = Square::try_from(0u8).expect("Expected try_from to succeed");
    assert_eq!(sq, Square(0));
    assert_eq!(sq.file().as_u8(), 0);
    assert_eq!(sq.rank().as_u8(), 0);
    assert_eq!(sq.to_string(), "a1");
    assert_eq!(Bitboard::from_square(sq), Bitboard(1u64));

    let sq = Square::try_from(63u8).expect("Expected try_from to succeed");
    assert_eq!(sq, Square(63));
    assert_eq!(sq.file().as_u8(), 7);
    assert_eq!(sq.rank().as_u8(), 7);
    assert_eq!(sq.to_string(), "h8");
    assert_eq!(Bitboard::from_square(sq), Bitboard(1u64 << 63));
}

#[test]
fn square_index_decomposition() {
    for s in 0u8..64 {
        let sq = Square::try_from(s).unwrap();
        assert_eq!(sq.file().as_u8() + 8 * sq.rank().0, s);
    }
}

#[test]
fn square_try_from_rejects_out_of_range() {
    for s in 64u8..=255 {
        assert!(Square::try_from(s).is_err());
    }
}
