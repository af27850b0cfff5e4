use minishell::history::InputHistory;
use minishell::input_state_handler::{InputState, InputStateHandler};

#[test]
fn scrolls_newest_first() {
    let mut h = InputHistory::make(50);
    h.store("one".to_string());
    h.store("two".to_string());
    assert_eq!(h.scroll_up().cloned(), Some("two".to_string()));
    assert_eq!(h.scroll_up().cloned(), Some("one".to_string()));
    assert_eq!(h.scroll_up().cloned(), None);
    assert_eq!(h.scroll_down().cloned(), None);
    assert_eq!(h.scroll_down().cloned(), Some("one".to_string()));
    assert_eq!(h.scroll_down().cloned(), None);
}

#[test]
fn oldest_line_leaves_when_full() {
    let mut h = InputHistory::make(3);
    h.store("a".to_string());
    h.store("b".to_string());
    h.store("c".to_string());
    assert_eq!(h.scroll_up().cloned(), Some("c".to_string()));
    assert_eq!(h.scroll_up().cloned(), Some("b".to_string()));
    assert_eq!(h.scroll_up().cloned(), None);
}

#[test]
fn arrow_sequence_reaches_func() {
    let mut s = InputStateHandler::make();
    assert_eq!(*s.current_state(), InputState::ANY);
    s.advance_state('\x1b');
    assert_eq!(*s.current_state(), InputState::ESC);
    s.advance_state('[');
    assert_eq!(*s.current_state(), InputState::BRACK);
    s.advance_state('A');
    assert_eq!(*s.current_state(), InputState::FUNC);
    s.advance_state('x');
    assert_eq!(*s.current_state(), InputState::ANY);
}

#[test]
fn backspace_and_reset() {
    let mut s = InputStateHandler::make();
    s.advance_state('\u{7f}');
    assert_eq!(*s.current_state(), InputState::BACKSPACE);
    s.advance_state('a');
    assert_eq!(*s.current_state(), InputState::ANY);
    s.advance_state('\x1b');
    s.advance_state('q');
    assert_eq!(*s.current_state(), InputState::ANY);
    s.advance_state('\x1b');
    s.reset_to_any();
    assert_eq!(*s.current_state(), InputState::ANY);
}

#[test]
fn single_line_capacity_edges() {
    let mut h = InputHistory::make(2);
    h.store("x".to_string());
    h.store("y".to_string());
    assert_eq!(h.scroll_up().cloned(), Some("y".to_string()));
    assert_eq!(h.scroll_up().cloned(), None);
}
