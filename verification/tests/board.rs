use librune::board::Board;
use librune::defs::Sides;
use librune::fen::{parse_fen, ParseFenError, STARTING_FEN};
use librune::moves::Move;
use librune::pieces::Pieces;
use librune::square::Square;
use librune::zobrist::ZobristRandoms;

fn total_population(board: &Board) -> u32 {
    let mut total = 0;
    for side in [Sides::WHITE, Sides::BLACK] {
        for piece in Pieces::all() {
            total += board.get_piece_bb(side, piece).pop_count();
        }
    }
    total
}

fn prepared(fen: &str, zr: &ZobristRandoms) -> Board {
    let mut board = parse_fen(fen).unwrap();
    board.init_key(zr);
    board
}

#[test]
fn make_unmake_restores_quiet_move() {
    let zr = ZobristRandoms::new();
    let mut board = prepared(STARTING_FEN, &zr);
    let before = board.clone();
    let pop_before = total_population(&board);

    // the double pawn push from e2 to e4
    let m = Move::encode(Pieces::Pawn, Square(12), Square(28), None, None, false, true, false);
    board.make(m, &zr);

    assert_eq!(board.game_state.active_side, Sides::BLACK);
    assert_eq!(board.game_state.en_passant, Some(Square(20)));
    assert_eq!(board.game_state.half_move_clock, 0);
    assert_eq!(board.game_state.fullmove_number, 1);
    assert_eq!(total_population(&board), pop_before);
    assert_eq!(board.recompute_key(&zr), board.game_state.zobrist_key);

    board.unmake(m);
    assert_eq!(board, before);
}

#[test]
fn make_unmake_restores_capture() {
    let zr = ZobristRandoms::new();
    let mut board = prepared("k7/8/8/3p4/4P3/8/8/K7 w - - 4 11", &zr);
    let before = board.clone();
    let pop_before = total_population(&board);

    let m = Move::encode(
        Pieces::Pawn,
        Square(28),
        Square(35),
        Some(Pieces::Pawn),
        None,
        false,
        false,
        false,
    );
    board.make(m, &zr);

    assert_eq!(total_population(&board), pop_before - 1);
    assert_eq!(board.game_state.half_move_clock, 0);
    assert_eq!(board.recompute_key(&zr), board.game_state.zobrist_key);

    board.unmake(m);
    assert_eq!(board, before);
}

#[test]
fn make_unmake_restores_en_passant_capture() {
    let zr = ZobristRandoms::new();
    let mut board = prepared("8/8/8/3pP3/8/8/8/8 w - d6 0 2", &zr);
    let before = board.clone();
    let pop_before = total_population(&board);

    let m = Move::encode(
        Pieces::Pawn,
        Square(36),
        Square(43),
        Some(Pieces::Pawn),
        None,
        true,
        false,
        false,
    );
    board.make(m, &zr);

    assert_eq!(total_population(&board), pop_before - 1);
    assert_eq!(board.piece_on(Square(35)), None);
    assert_eq!(board.piece_on(Square(43)), Some((Sides::WHITE, Pieces::Pawn)));
    assert_eq!(board.game_state.en_passant, None);
    assert_eq!(board.recompute_key(&zr), board.game_state.zobrist_key);

    board.unmake(m);
    assert_eq!(board, before);
}

#[test]
fn make_unmake_restores_castling() {
    let zr = ZobristRandoms::new();
    let mut board = prepared("r3k2r/8/8/8/8/8/8/R3K2R w KQkq - 0 1", &zr);
    let before = board.clone();
    let pop_before = total_population(&board);

    // white castles king-side
    let m = Move::encode(Pieces::King, Square(4), Square(6), None, None, false, false, true);
    board.make(m, &zr);

    assert_eq!(total_population(&board), pop_before);
    assert_eq!(board.piece_on(Square(6)), Some((Sides::WHITE, Pieces::King)));
    assert_eq!(board.piece_on(Square(5)), Some((Sides::WHITE, Pieces::Rook)));
    assert_eq!(board.piece_on(Square(7)), None);
    assert_eq!(board.piece_on(Square(4)), None);
    assert_eq!(board.game_state.castling, 0b1100);
    assert_eq!(board.recompute_key(&zr), board.game_state.zobrist_key);

    board.unmake(m);
    assert_eq!(board, before);
}

#[test]
fn make_unmake_restores_promotion() {
    let zr = ZobristRandoms::new();
    let mut board = prepared("8/P7/8/8/8/8/8/8 w - - 0 1", &zr);
    let before = board.clone();
    let pop_before = total_population(&board);

    let m = Move::encode(
        Pieces::Pawn,
        Square(48),
        Square(56),
        None,
        Some(Pieces::Queen),
        false,
        false,
        false,
    );
    board.make(m, &zr);

    assert_eq!(total_population(&board), pop_before);
    assert_eq!(board.piece_on(Square(56)), Some((Sides::WHITE, Pieces::Queen)));
    assert_eq!(board.piece_on(Square(48)), None);
    assert_eq!(board.recompute_key(&zr), board.game_state.zobrist_key);

    board.unmake(m);
    assert_eq!(board, before);
}

#[test]
fn incremental_key_tracks_scratch_key_over_sequence() {
    let zr = ZobristRandoms::new();
    let mut board = prepared(STARTING_FEN, &zr);

    let moves = [
        Move::encode(Pieces::Pawn, Square(12), Square(28), None, None, false, true, false),
        Move::encode(Pieces::Pawn, Square(52), Square(36), None, None, false, true, false),
        Move::encode(Pieces::Knight, Square(6), Square(21), None, None, false, false, false),
        Move::encode(Pieces::Knight, Square(57), Square(42), None, None, false, false, false),
    ];
    for m in moves {
        board.make(m, &zr);
        assert_eq!(board.recompute_key(&zr), board.game_state.zobrist_key);
    }
    for m in moves.iter().rev() {
        board.unmake(*m);
        assert_eq!(board.recompute_key(&zr), board.game_state.zobrist_key);
    }
}

#[test]
fn fullmove_number_increments_after_black() {
    let zr = ZobristRandoms::new();
    let mut board = prepared(STARTING_FEN, &zr);
    assert_eq!(board.game_state.fullmove_number, 1);
    board.make(
        Move::encode(Pieces::Pawn, Square(12), Square(28), None, None, false, true, false),
        &zr,
    );
    assert_eq!(board.game_state.fullmove_number, 1);
    board.make(
        Move::encode(Pieces::Pawn, Square(52), Square(36), None, None, false, true, false),
        &zr,
    );
    assert_eq!(board.game_state.fullmove_number, 2);
}

#[test]
fn halfmove_clock_counts_quiet_moves() {
    let zr = ZobristRandoms::new();
    let mut board = prepared("r3k2r/8/8/8/8/8/8/R3K2R w KQkq - 7 10", &zr);
    board.make(
        Move::encode(Pieces::Rook, Square(0), Square(8), None, None, false, false, false),
        &zr,
    );
    assert_eq!(board.game_state.half_move_clock, 8);
    // moving the queen-side rook from a1 drops White's queen-side right
    assert_eq!(board.game_state.castling, 0b1101);
}

#[test]
fn raw_bitboard_access_reads_and_writes() {
    let mut board = Board::new();
    assert_eq!(board.occupancy(), librune::bitboard::Bitboard(0));
    board.set_piece_bb(Sides::WHITE, Pieces::Knight, librune::bitboard::Bitboard(0b1010));
    board.set_occupancy_bb(Sides::WHITE, librune::bitboard::Bitboard(0b1010));
    assert_eq!(
        board.get_piece_bb(Sides::WHITE, Pieces::Knight),
        librune::bitboard::Bitboard(0b1010)
    );
    assert_eq!(board.occupancy_side(Sides::WHITE), librune::bitboard::Bitboard(0b1010));
    assert_eq!(board.occupancy(), librune::bitboard::Bitboard(0b1010));
}

#[test]
fn error_payload_carries_offending_text() {
    match parse_fen("8/8/8/8/8/8/8/8 zz - - 0 1") {
        Err(ParseFenError::InvalidSideToMove(text)) => assert_eq!(text, "zz"),
        other => panic!("unexpected parse outcome: {:?}", other),
    }
}

#[test]
fn zobrist_lookups_are_stable() {
    let zr = ZobristRandoms::new();
    assert_eq!(zr.en_passant(None), zr.en_passant(None));
    assert_eq!(
        zr.piece(Sides::WHITE, Pieces::King, Square(0)),
        zr.piece(Sides::WHITE, Pieces::King, Square(0))
    );
    assert_eq!(zr.castling(0b1111), zr.castling(0b1111));
    assert_eq!(zr.side(Sides::BLACK), zr.side(Sides::BLACK));
}

#[test]
fn zobrist_table_is_deterministic() {
    let a = ZobristRandoms::new();
    let b = ZobristRandoms::new();
    for side in [Sides::WHITE, Sides::BLACK] {
        for piece in Pieces::all() {
            for sq in 0u8..64 {
                assert_eq!(a.piece(side, piece, Square(sq)), b.piece(side, piece, Square(sq)));
            }
        }
    }
    for mask in 0u8..16 {
        assert_eq!(a.castling(mask), b.castling(mask));
    }
    assert_eq!(a.side(Sides::WHITE), b.side(Sides::WHITE));
    assert_eq!(a.side(Sides::BLACK), b.side(Sides::BLACK));
    assert_eq!(a.en_passant(None), b.en_passant(None));
    for sq in 0u8..64 {
        assert_eq!(a.en_passant(Some(Square(sq))), b.en_passant(Some(Square(sq))));
    }
}
