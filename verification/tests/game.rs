use librune::defs::{CastlingRights, Sides};
use librune::gamestate::GameState;
use librune::moves::Move;
use librune::square::Square;
use librune::weights::Weights;

#[test]
fn test_game_state_new_defaults() {
    let gs = GameState::new();
    assert_eq!(gs.active_side, Sides::WHITE);
    assert_eq!(gs.castling, 0);
    assert_eq!(gs.en_passant, None);
    assert_eq!(gs.half_move_clock, 0);
    assert_eq!(gs.fullmove_number, 0);
    assert_eq!(gs.zobrist_key, 0);
    assert_eq!(gs.phase_value, 0);
    assert_eq!(gs.psqt_value, [Weights(0, 0); 2]);
}

#[test]
fn test_game_state_clear() {
    let mut gs = GameState {
        active_side: Sides::BLACK,
        castling: CastlingRights::ALL,
        en_passant: Some(Square(10)),
        half_move_clock: 50,
        fullmove_number: 10,
        zobrist_key: 12345,
        phase_value: 100,
        psqt_value: [Weights(10, 20); 2],
        next_move: Move::new(1),
    };

    gs.clear();
    let default_gs = GameState::new();

    assert_eq!(gs.active_side, default_gs.active_side);
    assert_eq!(gs.castling, default_gs.castling);
    assert_eq!(gs.en_passant, default_gs.en_passant);
    assert_eq!(gs.half_move_clock, default_gs.half_move_clock);
    assert_eq!(gs.fullmove_number, default_gs.fullmove_number);
    assert_eq!(gs.zobrist_key, default_gs.zobrist_key);
    assert_eq!(gs.phase_value, default_gs.phase_value);
    assert_eq!(gs.psqt_value, default_gs.psqt_value);
}

#[test]
fn game_from_fen_builds_board() {
    let game = librune::game::Game::from_fen("8/8/8/3pP3/8/8/8/8 b - d6 0 2").unwrap();
    assert_eq!(game.board.game_state.active_side, Sides::BLACK);
    assert_eq!(game.board.game_state.en_passant, Some(Square(43)));
    assert!(librune::game::Game::from_fen("8/8/8/8 w - - 0 1").is_err());
}

#[test]
fn weights_accessors_and_add() {
    let w = Weights(7, -3);
    assert_eq!(w.middlegame(), 7);
    assert_eq!(w.endgame(), -3);
    let sum = w.add(Weights(5, 13));
    assert_eq!(sum, Weights(12, 10));
}
