use mlux::input::{
    map_command_key, map_key_event, map_search_key, Action, CommandAction, InputAccumulator, KeyCode,
    KeyInput, SearchAction, MOD_CONTROL, MOD_NONE, MOD_SHIFT,
};

fn key(code: KeyCode, modifiers: u8) -> KeyInput {
    KeyInput { code, modifiers }
}

fn simple_key(code: KeyCode) -> KeyInput {
    key(code, MOD_NONE)
}

#[test]
fn test_5j_scroll_down() {
    let mut acc = InputAccumulator::new();
    // Type '5'
    let a = map_key_event(simple_key(KeyCode::Char('5')), &mut acc);
    assert!(matches!(a, Some(Action::Digit)));
    // Type 'j'
    let a = map_key_event(simple_key(KeyCode::Char('j')), &mut acc);
    assert!(matches!(a, Some(Action::ScrollDown(5))));
}

#[test]
fn test_g_without_prefix_jumps_top() {
    let mut acc = InputAccumulator::new();
    let a = map_key_event(simple_key(KeyCode::Char('g')), &mut acc);
    assert!(matches!(a, Some(Action::JumpToTop)));
}

#[test]
fn test_56g_jumps_to_line() {
    let mut acc = InputAccumulator::new();
    map_key_event(simple_key(KeyCode::Char('5')), &mut acc);
    map_key_event(simple_key(KeyCode::Char('6')), &mut acc);
    let a = map_key_event(simple_key(KeyCode::Char('g')), &mut acc);
    assert!(matches!(a, Some(Action::JumpToLine(56))));
}

#[test]
fn test_q_quits() {
    let mut acc = InputAccumulator::new();
    let a = map_key_event(simple_key(KeyCode::Char('q')), &mut acc);
    assert!(matches!(a, Some(Action::Quit)));
}

#[test]
fn test_ctrl_c_quits() {
    let mut acc = InputAccumulator::new();
    let a = map_key_event(key(KeyCode::Char('c'), MOD_CONTROL), &mut acc);
    assert!(matches!(a, Some(Action::Quit)));
}

#[test]
fn test_esc_cancels_input() {
    let mut acc = InputAccumulator::new();
    map_key_event(simple_key(KeyCode::Char('5')), &mut acc);
    assert!(acc.is_active());
    let a = map_key_event(simple_key(KeyCode::Esc), &mut acc);
    assert!(matches!(a, Some(Action::CancelInput)));
    assert!(!acc.is_active());
}

#[test]
fn test_unknown_key_returns_none() {
    let mut acc = InputAccumulator::new();
    let a = map_key_event(simple_key(KeyCode::Char('x')), &mut acc);
    assert!(a.is_none());
}

#[test]
fn test_yank_with_prefix() {
    let mut acc = InputAccumulator::new();
    map_key_event(simple_key(KeyCode::Char('3')), &mut acc);
    let a = map_key_event(simple_key(KeyCode::Char('y')), &mut acc);
    assert!(matches!(a, Some(Action::YankExact(3))));
}

#[test]
fn test_yank_without_prefix() {
    let mut acc = InputAccumulator::new();
    let a = map_key_event(simple_key(KeyCode::Char('y')), &mut acc);
    assert!(matches!(a, Some(Action::YankExactPrompt)));
}

#[test]
fn test_big_g_bottom() {
    let mut acc = InputAccumulator::new();
    let a = map_key_event(key(KeyCode::Char('G'), MOD_SHIFT), &mut acc);
    assert!(matches!(a, Some(Action::JumpToBottom)));
}

// --- Open URL ---

#[test]
fn test_5o_open_url() {
    let mut acc = InputAccumulator::new();
    map_key_event(simple_key(KeyCode::Char('5')), &mut acc);
    let a = map_key_event(simple_key(KeyCode::Char('o')), &mut acc);
    assert!(matches!(a, Some(Action::OpenUrl(5))));
}

// --- Search: normal mode entry ---

#[test]
fn test_slash_enters_search() {
    let mut acc = InputAccumulator::new();
    let a = map_key_event(simple_key(KeyCode::Char('/')), &mut acc);
    assert!(matches!(a, Some(Action::EnterSearch)));
}

#[test]
fn test_slash_resets_accumulator() {
    let mut acc = InputAccumulator::new();
    map_key_event(simple_key(KeyCode::Char('5')), &mut acc);
    assert!(acc.is_active());
    map_key_event(simple_key(KeyCode::Char('/')), &mut acc);
    assert!(!acc.is_active());
}

#[test]
fn test_n_search_next() {
    let mut acc = InputAccumulator::new();
    let a = map_key_event(simple_key(KeyCode::Char('n')), &mut acc);
    assert!(matches!(a, Some(Action::SearchNextMatch)));
}

#[test]
fn test_big_n_search_prev() {
    let mut acc = InputAccumulator::new();
    let a = map_key_event(key(KeyCode::Char('N'), MOD_SHIFT), &mut acc);
    assert!(matches!(a, Some(Action::SearchPrevMatch)));
}

// --- Search mode: map_search_key ---

#[test]
fn test_search_type_char() {
    let a = map_search_key(simple_key(KeyCode::Char('a')));
    assert!(matches!(a, Some(SearchAction::Type('a'))));
}

#[test]
fn test_search_backspace() {
    let a = map_search_key(simple_key(KeyCode::Backspace));
    assert!(matches!(a, Some(SearchAction::Backspace)));
}

#[test]
fn test_search_select_next_j() {
    let a = map_search_key(simple_key(KeyCode::Char('j')));
    assert!(matches!(a, Some(SearchAction::SelectNext)));
}

#[test]
fn test_search_select_next_down() {
    let a = map_search_key(simple_key(KeyCode::Down));
    assert!(matches!(a, Some(SearchAction::SelectNext)));
}

#[test]
fn test_search_select_prev_k() {
    let a = map_search_key(simple_key(KeyCode::Char('k')));
    assert!(matches!(a, Some(SearchAction::SelectPrev)));
}

#[test]
fn test_search_select_prev_up() {
    let a = map_search_key(simple_key(KeyCode::Up));
    assert!(matches!(a, Some(SearchAction::SelectPrev)));
}

#[test]
fn test_search_confirm() {
    let a = map_search_key(simple_key(KeyCode::Enter));
    assert!(matches!(a, Some(SearchAction::Confirm)));
}

#[test]
fn test_search_cancel_esc() {
    let a = map_search_key(simple_key(KeyCode::Esc));
    assert!(matches!(a, Some(SearchAction::Cancel)));
}

#[test]
fn test_search_cancel_ctrl_c() {
    let a = map_search_key(key(KeyCode::Char('c'), MOD_CONTROL));
    assert!(matches!(a, Some(SearchAction::Cancel)));
}

#[test]
fn test_search_unknown_returns_none() {
    let a = map_search_key(simple_key(KeyCode::Tab));
    assert!(a.is_none());
}

// --- Command mode: map_command_key ---

#[test]
fn test_colon_enters_command() {
    let mut acc = InputAccumulator::new();
    let a = map_key_event(simple_key(KeyCode::Char(':')), &mut acc);
    assert!(matches!(a, Some(Action::EnterCommand)));
}

#[test]
fn test_command_type_char() {
    let a = map_command_key(simple_key(KeyCode::Char('r')));
    assert!(matches!(a, Some(CommandAction::Type('r'))));
}

#[test]
fn test_command_backspace() {
    let a = map_command_key(simple_key(KeyCode::Backspace));
    assert!(matches!(a, Some(CommandAction::Backspace)));
}

#[test]
fn test_command_execute() {
    let a = map_command_key(simple_key(KeyCode::Enter));
    assert!(matches!(a, Some(CommandAction::Execute)));
}

#[test]
fn test_command_cancel_esc() {
    let a = map_command_key(simple_key(KeyCode::Esc));
    assert!(matches!(a, Some(CommandAction::Cancel)));
}

#[test]
fn test_command_cancel_ctrl_c() {
    let a = map_command_key(key(KeyCode::Char('c'), MOD_CONTROL));
    assert!(matches!(a, Some(CommandAction::Cancel)));
}
