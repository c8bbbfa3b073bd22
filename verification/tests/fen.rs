use librune::bitboard::Bitboard;
use librune::defs::Sides;
use librune::fen::{parse_fen, ParseFenError, STARTING_FEN};
use librune::pieces::Pieces;
use librune::square::Square;

#[test]
fn starting_pos_valid() {
    let parse = parse_fen(STARTING_FEN).expect("Starting FEN should always be valid!");

    assert_eq!(
        parse.get_occupancy_bb(Sides::WHITE).bitor(parse.get_occupancy_bb(Sides::BLACK)),
        Bitboard(0xFFFF_0000_0000_FFFF)
    );

    assert_eq!(parse.get_piece_bb(Sides::WHITE, Pieces::Pawn), Bitboard(0x0000_0000_0000_FF00));
    assert_eq!(parse.get_piece_bb(Sides::BLACK, Pieces::Pawn), Bitboard(0x00FF_0000_0000_0000));

    assert_eq!(parse.get_piece_bb(Sides::WHITE, Pieces::Rook), Bitboard(0x0000_0000_0000_0081));
    assert_eq!(parse.get_piece_bb(Sides::BLACK, Pieces::Rook), Bitboard(0x8100_0000_0000_0000));

    assert_eq!(parse.get_piece_bb(Sides::WHITE, Pieces::Knight), Bitboard(0x0000_0000_0000_0042));
    assert_eq!(parse.get_piece_bb(Sides::BLACK, Pieces::Knight), Bitboard(0x4200_0000_0000_0000));

    assert_eq!(parse.get_piece_bb(Sides::WHITE, Pieces::Bishop), Bitboard(0x0000_0000_0000_0024));
    assert_eq!(parse.get_piece_bb(Sides::BLACK, Pieces::Bishop), Bitboard(0x2400_0000_0000_0000));

    assert_eq!(parse.get_piece_bb(Sides::WHITE, Pieces::Queen), Bitboard(0x0000_0000_0000_0008));
    assert_eq!(parse.get_piece_bb(Sides::BLACK, Pieces::Queen), Bitboard(0x0800_0000_0000_0000));

    assert_eq!(parse.get_piece_bb(Sides::WHITE, Pieces::King), Bitboard(0x0000_0000_0000_0010));
    assert_eq!(parse.get_piece_bb(Sides::BLACK, Pieces::King), Bitboard(0x1000_0000_0000_0000));
}

#[test]
fn side_to_move_white() {
    let parse = parse_fen("8/8/8/8/8/8/8/8 w - - 0 1").unwrap();
    assert_eq!(parse.game_state.active_side, Sides::WHITE);
}

#[test]
fn side_to_move_black() {
    let parse = parse_fen("8/8/8/8/8/8/8/8 b - - 0 1").unwrap();
    assert_eq!(parse.game_state.active_side, Sides::BLACK);
}

#[test]
fn castling_rights_parsed() {
    let parse = parse_fen("r3k2r/8/8/8/8/8/8/R3K2R w KQkq - 0 1").unwrap();
    assert_eq!(parse.game_state.castling, 0b1111);
}

#[test]
fn no_castling_rights() {
    let parse = parse_fen("r3k2r/8/8/8/8/8/8/R3K2R w - - 0 1").unwrap();
    assert_eq!(parse.game_state.castling, 0b0);
}

#[test]
fn en_passant_square_parsed() {
    let parse = parse_fen("8/8/8/3pP3/8/8/8/8 w - d6 0 2").unwrap();
    assert_eq!(parse.game_state.en_passant, Some(Square(43)));
}

#[test]
fn invalid_fen_rejected() {
    assert!(parse_fen("8/8/8/8/8/8/8/9 w - - 0 1").is_err());
    assert!(parse_fen("8/8/8/8/8/8/8/8 x - - 0 1").is_err());
    assert!(parse_fen("8/8/8/8/8/8/8/8 w - -").is_err());
}

#[test]
fn empty_board_valid() {
    let parse = parse_fen("8/8/8/8/8/8/8/8 w - - 0 1").unwrap();
    for side in [Sides::WHITE, Sides::BLACK] {
        for piece in Pieces::all() {
            assert_eq!(parse.get_piece_bb(side, piece), Bitboard(0));
        }
    }
}

#[test]
fn error_variant_per_field() {
    assert!(matches!(parse_fen("8/8/8/8/8/8/8/8 w - -"), Err(ParseFenError::NotEnoughParts)));
    assert!(matches!(
        parse_fen("8/8/8/8/8/8/8/9 w - - 0 1"),
        Err(ParseFenError::InvalidBoardPart(_))
    ));
    assert!(matches!(
        parse_fen("8/8/8/8/8/8/8 w - - 0 1"),
        Err(ParseFenError::InvalidBoardPart(_))
    ));
    assert!(matches!(
        parse_fen("8/8/8/8/8/8/8/8 x - - 0 1"),
        Err(ParseFenError::InvalidSideToMove(_))
    ));
    assert!(matches!(
        parse_fen("8/8/8/8/8/8/8/8 w KQx - 0 1"),
        Err(ParseFenError::InvalidCastlingPart(_))
    ));
    assert!(matches!(
        parse_fen("8/8/8/8/8/8/8/8 w - e4 0 1"),
        Err(ParseFenError::InvalidEnPassantPart(_))
    ));
    assert!(matches!(
        parse_fen("8/8/8/8/8/8/8/8 w - - x 1"),
        Err(ParseFenError::InvalidHalfmovePart(_))
    ));
    assert!(matches!(
        parse_fen("8/8/8/8/8/8/8/8 w - - 0 70000"),
        Err(ParseFenError::InvalidFullmovePart(_))
    ));
}

#[test]
fn serialize_round_trips_exactly() {
    for fen in [
        STARTING_FEN,
        "8/8/8/3pP3/8/8/8/8 b Kq d6 13 42",
        "8/8/8/8/8/8/8/8 w - - 0 1",
        "r3k2r/8/8/8/8/8/8/R3K2R b KQkq - 99 65535",
    ] {
        let first = parse_fen(fen).unwrap();
        let text = librune::fen::serialize(&first);
        let second = parse_fen(&text).unwrap();
        assert_eq!(second, first);
    }
}

#[test]
fn serialize_starting_position_verbatim() {
    let board = parse_fen(STARTING_FEN).unwrap();
    assert_eq!(librune::fen::serialize(&board), STARTING_FEN);
}

#[test]
fn fen_helpers_parse_fields() {
    assert_eq!(librune::fen::Fen::parse_castling("Kq").unwrap(), 0b1001);
    assert!(librune::fen::Fen::parse_castling("Kx").is_err());
    assert_eq!(librune::fen::Fen::parse_en_passant("-").unwrap(), None);
    assert_eq!(librune::fen::Fen::parse_en_passant("d6").unwrap(), Some(Square(43)));
    assert!(librune::fen::Fen::parse_en_passant("d4").is_err());
    assert!(librune::fen::Fen::parse_en_passant("d66").is_err());
}
