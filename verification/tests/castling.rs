use librune::defs::CastlingRights;
use librune::fen::parse_castling_rights;
use librune::gamestate::GameState;

#[test]
fn test_castling_from_string_all() {
    let castling = parse_castling_rights(&String::from("KQkq")).unwrap();
    assert_eq!(castling, CastlingRights::ALL);
}

#[test]
fn test_castling_from_string_none() {
    let castling = parse_castling_rights(&String::from("-")).unwrap();
    assert_eq!(castling, CastlingRights::NONE);
}

#[test]
fn test_castling_from_string_partial_single() {
    let castling = parse_castling_rights(&String::from("Q")).unwrap();
    assert_eq!(castling, CastlingRights::WQ);
}

#[test]
fn test_castling_from_string_partial_invalid() {
    let castling = parse_castling_rights(&String::from("Kk")).unwrap();
    assert_eq!(castling, CastlingRights::WK | CastlingRights::BK);
}

#[test]
fn test_castling_to_string() {
    let gs_none = GameState { castling: 0, ..GameState::new() };
    assert_eq!(gs_none.castling_to_string(), "-");

    let gs_all = GameState { castling: CastlingRights::ALL, ..GameState::new() };
    assert_eq!(gs_all.castling_to_string(), "KQkq");

    let gs_wk = GameState { castling: CastlingRights::WK, ..GameState::new() };
    assert_eq!(gs_wk.castling_to_string(), "K");

    let gs_wq_bk = GameState { castling: CastlingRights::WQ | CastlingRights::BK, ..GameState::new() };
    assert_eq!(gs_wq_bk.castling_to_string(), "Qk");

    let gs_kq = GameState { castling: CastlingRights::WK | CastlingRights::WQ, ..GameState::new() };
    assert_eq!(gs_kq.castling_to_string(), "KQ");
}

#[test]
fn castling_rights_invalid_char_rejected() {
    assert!(parse_castling_rights("KX").is_err());
    assert!(parse_castling_rights("x").is_err());
}
