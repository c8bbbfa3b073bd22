use librune::gamestate::GameState;
use librune::history::History;

#[test]
fn push() {
    let mut history = History::new();
    history.push(GameState { castling: 0b001, ..GameState::new() });

    assert_eq!(history.get(), Some(GameState { castling: 0b001, ..GameState::new() }));
}

#[test]
fn pop() {
    let mut history = History::new();
    let expected_state = GameState { castling: 0b001, ..GameState::new() };

    history.push(expected_state);

    assert_eq!(history.get(), Some(expected_state));
    assert_eq!(history.pop(), Some(expected_state));
    assert_eq!(history.get(), None);
}

#[test]
fn pop_on_empty_history() {
    let mut history = History::new();
    assert_eq!(history.pop(), None);
    assert_eq!(history.len(), 0);
}
