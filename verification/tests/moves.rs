use librune::moves::{GameMove, Move, MoveFlags, ShortMove};
use librune::pieces::Pieces;
use librune::square::Square;

#[test]
fn move_fields_round_trip() {
    let m = Move::encode(
        Pieces::Pawn,
        Square(12),
        Square(28),
        None,
        None,
        false,
        true,
        false,
    );
    assert_eq!(m.piece(), Some(Pieces::Pawn));
    assert_eq!(m.from(), Square(12));
    assert_eq!(m.to(), Square(28));
    assert_eq!(m.captured(), None);
    assert_eq!(m.promoted(), None);
    assert!(!m.en_passant());
    assert!(m.double_step());
    assert!(!m.castling());
    assert_eq!(m.get_sort_score(), 0);
}

#[test]
fn move_capture_and_promotion_fields() {
    let m = Move::encode(
        Pieces::Pawn,
        Square(48),
        Square(57),
        Some(Pieces::Rook),
        Some(Pieces::Queen),
        false,
        false,
        false,
    );
    assert_eq!(m.captured(), Some(Pieces::Rook));
    assert_eq!(m.promoted(), Some(Pieces::Queen));
}

#[test]
fn sort_score_leaves_move_bits_alone() {
    let mut m = Move::encode(
        Pieces::Knight,
        Square(1),
        Square(18),
        None,
        None,
        false,
        false,
        false,
    );
    let before = m.get_move();
    m.set_sort_score(0xDEAD_BEEF);
    assert_eq!(m.get_sort_score(), 0xDEAD_BEEF);
    assert_eq!(m.get_move(), before);
    assert_eq!(m.to_short_move().get_move(), before);
    assert_eq!(ShortMove::new(before).get_move(), before);
}

#[test]
fn raw_move_data_is_kept() {
    let m = Move::new(0b101);
    assert_eq!(m.get_move(), 0b101);
}

#[test]
fn game_move_packs_source_destination_flags() {
    let gm = GameMove::from_parts(Square(12), Square(28), MoveFlags::CAPTURE);
    assert_eq!(gm.source(), Square(12));
    assert_eq!(gm.0, (12u16 << 10) | (28u16 << 4) | 1);
    let null_flags = GameMove::from_parts(Square(0), Square(0), MoveFlags::NONE);
    assert_eq!(null_flags.0, 0);
}
