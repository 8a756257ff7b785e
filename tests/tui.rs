use rfp::tui::{action_of, handle_keypress, run_selection_step, selected_paths, start, Action, InputEvent, KeyCode, TUILoopEvent, TUIState};

fn items(names: &[&str]) -> Vec<String> {
    names.iter().map(|s| s.to_string()).collect()
}

fn key(code: KeyCode) -> InputEvent {
    InputEvent::Key { code, control: false, press: true }
}

fn ch(c: char) -> InputEvent {
    key(KeyCode::Char(c))
}

fn press(state: &mut TUIState, event: InputEvent) -> TUILoopEvent {
    handle_keypress(state, event)
}

fn selection(state: &TUIState) -> Vec<bool> {
    (0..state.len()).map(|i| state.is_selected(i)).collect()
}

#[test]
fn empty_candidates_return_early() {
    match start(vec![]) {
        Err((paths, outcome)) => {
            assert!(paths.is_empty());
            assert_eq!(outcome, TUILoopEvent::EarlyReturn);
        }
        Ok(_) => panic!("a session was opened over no candidates"),
    }
}

#[test]
fn session_starts_at_the_top() {
    let state = start(items(&["a", "b"])).ok().unwrap();
    assert_eq!(state.cursor(), 0);
    assert_eq!(selection(&state), vec![false, false]);
    assert!(!state.is_showing_help());
    assert_eq!(state.items(), &items(&["a", "b"]));
}

#[test]
fn cursor_wraps_both_ways() {
    let mut state = TUIState::new(items(&["a", "b", "c"]));
    assert_eq!(press(&mut state, ch('G')), TUILoopEvent::Continue);
    assert_eq!(state.cursor(), 2);
    press(&mut state, key(KeyCode::Down));
    assert_eq!(state.cursor(), 0);
    press(&mut state, ch('k'));
    assert_eq!(state.cursor(), 2);
    press(&mut state, ch('j'));
    assert_eq!(state.cursor(), 0);
    press(&mut state, key(KeyCode::Up));
    assert_eq!(state.cursor(), 2);
}

#[test]
fn paging_moves_by_viewport_and_clamps() {
    let mut state = TUIState::new(items(&["0", "1", "2", "3", "4", "5", "6", "7", "8", "9"]));
    state.set_viewport_height(4);
    assert_eq!(state.viewport_height(), 4);
    press(&mut state, ch('d'));
    assert_eq!(state.cursor(), 2);
    press(&mut state, ch('f'));
    assert_eq!(state.cursor(), 6);
    press(&mut state, key(KeyCode::PageDown));
    assert_eq!(state.cursor(), 9);
    press(&mut state, ch('d'));
    assert_eq!(state.cursor(), 0);
    press(&mut state, ch('u'));
    assert_eq!(state.cursor(), 9);
    press(&mut state, ch('u'));
    assert_eq!(state.cursor(), 7);
    press(&mut state, ch('b'));
    assert_eq!(state.cursor(), 3);
    press(&mut state, key(KeyCode::PageUp));
    assert_eq!(state.cursor(), 0);
    press(&mut state, ch('b'));
    assert_eq!(state.cursor(), 9);
    press(&mut state, key(KeyCode::Home));
    assert_eq!(state.cursor(), 0);
    press(&mut state, key(KeyCode::End));
    assert_eq!(state.cursor(), 9);
}

#[test]
fn zero_height_half_page_stays() {
    let mut state = TUIState::new(items(&["a", "b", "c"]));
    state.set_viewport_height(1);
    press(&mut state, ch('d'));
    assert_eq!(state.cursor(), 0);
}

#[test]
fn select_all_toggles() {
    let mut state = TUIState::new(items(&["a", "b", "c"]));
    press(&mut state, ch('a'));
    assert_eq!(selection(&state), vec![true, true, true]);
    press(&mut state, ch('a'));
    assert_eq!(selection(&state), vec![false, false, false]);
    press(&mut state, ch(' '));
    press(&mut state, ch('a'));
    assert_eq!(selection(&state), vec![true, true, true]);
}

#[test]
fn submit_yields_index_order() {
    let mut state = TUIState::new(items(&["item0", "item1", "item2"]));
    press(&mut state, ch('G'));
    press(&mut state, ch(' '));
    press(&mut state, ch('g'));
    press(&mut state, ch(' '));
    press(&mut state, ch('j'));
    press(&mut state, ch(' '));
    assert_eq!(selection(&state), vec![true, true, true]);
    let done = run_selection_step(&mut state, key(KeyCode::Enter));
    assert_eq!(done, Some((items(&["item0", "item1", "item2"]), TUILoopEvent::Submit)));
}

#[test]
fn submit_with_partial_selection() {
    let mut state = TUIState::new(items(&["x", "y", "z"]));
    press(&mut state, ch('G'));
    press(&mut state, ch(' '));
    press(&mut state, ch('g'));
    press(&mut state, ch(' '));
    assert_eq!(selected_paths(&state), items(&["x", "z"]));
    press(&mut state, ch(' '));
    assert_eq!(selected_paths(&state), items(&["z"]));
}

#[test]
fn submit_with_nothing_selected() {
    let mut state = TUIState::new(items(&["x"]));
    let done = run_selection_step(&mut state, key(KeyCode::Enter));
    assert_eq!(done, Some((vec![], TUILoopEvent::Submit)));
}

#[test]
fn quit_and_interrupt_end_without_paths() {
    let mut state = TUIState::new(items(&["x", "y"]));
    press(&mut state, ch(' '));
    assert_eq!(run_selection_step(&mut state, ch('q')), Some((vec![], TUILoopEvent::Quit)));
    assert_eq!(run_selection_step(&mut state, key(KeyCode::Esc)), Some((vec![], TUILoopEvent::Quit)));
    let ctrl_c = InputEvent::Key { code: KeyCode::Char('c'), control: true, press: true };
    assert_eq!(run_selection_step(&mut state, ctrl_c), Some((vec![], TUILoopEvent::Interrupted)));
    assert_eq!(run_selection_step(&mut state, ch('c')), None);
    assert_eq!(run_selection_step(&mut state, ch('j')), None);
    assert_eq!(state.cursor(), 1);
}

#[test]
fn only_key_presses_count() {
    let mut state = TUIState::new(items(&["x", "y"]));
    let release = InputEvent::Key { code: KeyCode::Down, control: false, press: false };
    assert_eq!(press(&mut state, release), TUILoopEvent::Continue);
    assert_eq!(press(&mut state, InputEvent::Other), TUILoopEvent::Continue);
    assert_eq!(press(&mut state, ch('z')), TUILoopEvent::Continue);
    assert_eq!(press(&mut state, key(KeyCode::Other)), TUILoopEvent::Continue);
    assert_eq!(state.cursor(), 0);
    assert_eq!(selection(&state), vec![false, false]);
}

#[test]
fn help_toggles_without_blocking() {
    let mut state = TUIState::new(items(&["x", "y"]));
    press(&mut state, ch('?'));
    assert!(state.is_showing_help());
    press(&mut state, ch('j'));
    press(&mut state, ch(' '));
    assert_eq!(state.cursor(), 1);
    assert_eq!(selection(&state), vec![false, true]);
    press(&mut state, ch('?'));
    assert!(!state.is_showing_help());
}

#[test]
fn jumps_between_selected_items() {
    let mut state = TUIState::new(items(&["0", "1", "2", "3", "4", "5"]));
    press(&mut state, ch('l'));
    assert_eq!(state.cursor(), 0);
    press(&mut state, ch('h'));
    assert_eq!(state.cursor(), 0);
    press(&mut state, ch('j'));
    press(&mut state, ch(' '));
    press(&mut state, ch('j'));
    press(&mut state, ch('j'));
    press(&mut state, ch('j'));
    press(&mut state, ch(' '));
    // selected: 1 and 4; cursor at 4
    press(&mut state, ch('l'));
    assert_eq!(state.cursor(), 1);
    press(&mut state, key(KeyCode::Right));
    assert_eq!(state.cursor(), 4);
    press(&mut state, ch('h'));
    assert_eq!(state.cursor(), 1);
    press(&mut state, key(KeyCode::Left));
    assert_eq!(state.cursor(), 4);
    press(&mut state, ch('g'));
    press(&mut state, ch('h'));
    assert_eq!(state.cursor(), 4);
    press(&mut state, ch('G'));
    press(&mut state, ch('l'));
    assert_eq!(state.cursor(), 1);
}

#[test]
fn key_legend() {
    assert_eq!(action_of(ch('j')), Action::Down);
    assert_eq!(action_of(ch('k')), Action::Up);
    assert_eq!(action_of(ch('d')), Action::HalfPageDown);
    assert_eq!(action_of(ch('u')), Action::HalfPageUp);
    assert_eq!(action_of(ch('f')), Action::PageDown);
    assert_eq!(action_of(ch('b')), Action::PageUp);
    assert_eq!(action_of(ch('g')), Action::Top);
    assert_eq!(action_of(ch('G')), Action::Bottom);
    assert_eq!(action_of(ch('h')), Action::PreviousSelected);
    assert_eq!(action_of(ch('l')), Action::NextSelected);
    assert_eq!(action_of(ch(' ')), Action::ToggleSelection);
    assert_eq!(action_of(ch('a')), Action::ToggleAll);
    assert_eq!(action_of(ch('?')), Action::ToggleHelp);
    assert_eq!(action_of(key(KeyCode::Enter)), Action::Submit);
    assert_eq!(action_of(ch('q')), Action::Quit);
    assert_eq!(action_of(key(KeyCode::Esc)), Action::Quit);
    assert_eq!(action_of(ch('c')), Action::Nothing);
    let ctrl_c = InputEvent::Key { code: KeyCode::Char('c'), control: true, press: true };
    assert_eq!(action_of(ctrl_c), Action::Interrupt);
}
