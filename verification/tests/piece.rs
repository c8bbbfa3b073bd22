use librune::defs::NrOf;
use librune::pieces::Pieces;

#[test]
fn piece_from_usize() {
    for i in 0..NrOf::PIECE_TYPES {
        let piece = Pieces::try_from(i);
        assert!(piece.is_ok());
    }
}

#[test]
fn piece_to_usize() {
    for i in 0..NrOf::PIECE_TYPES {
        let piece = Pieces::try_from(i);
        assert!(piece.is_ok(), "Failed to cast usize {} to a valid Piece", i);
        assert_eq!(piece.unwrap() as usize, i)
    }
}

#[test]
fn piece_from_out_of_range_usize() {
    assert!(Pieces::try_from(6).is_err());
    assert!(Pieces::try_from(100).is_err());
}

#[test]
fn piece_letters_decode() {
    assert_eq!(Pieces::match_char(b'p'), Some(Pieces::Pawn));
    assert_eq!(Pieces::match_char(b'N'), Some(Pieces::Knight));
    assert_eq!(Pieces::match_char(b'b'), Some(Pieces::Bishop));
    assert_eq!(Pieces::match_char(b'R'), Some(Pieces::Rook));
    assert_eq!(Pieces::match_char(b'q'), Some(Pieces::Queen));
    assert_eq!(Pieces::match_char(b'K'), Some(Pieces::King));
    assert_eq!(Pieces::match_char(b'x'), None);
}
