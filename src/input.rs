//! Input processing: keys as plain values, the numeric prefix accumulator,
//! and the maps from keys to each mode's actions.

use vstd::prelude::*;

verus! {

/// Largest accumulated count; further digits are ignored.
pub const MAX_LINE_NUM: u32 = 999_999;

/// A key, as the viewer reads it.
#[derive(Clone, Copy, Debug, PartialEq, Eq, Structural)]
pub enum KeyCode {
    Char(char),
    Esc,
    Enter,
    Backspace,
    Up,
    Down,
    Tab,
    Other,
}

/// Modifier bits, as the terminal reports them.
pub const MOD_NONE: u8 = 0;
pub const MOD_SHIFT: u8 = 1;
pub const MOD_CONTROL: u8 = 2;

/// A key press: the key and its modifier bits.
#[derive(Clone, Copy, Debug, PartialEq, Eq, Structural)]
pub struct KeyInput {
    pub code: KeyCode,
    pub modifiers: u8,
}

/// Accumulated numeric prefix for vim/less-style commands (`56g`, `10j`).
pub struct InputAccumulator {
    count: Option<u32>,
}

/// The count after typing digit `d`: unchanged once it would pass the maximum.
pub open spec fn push_digit_spec(count: Option<u32>, d: u32) -> Option<u32> {
    let cur = match count {
        Some(c) => c as int,
        None => 0,
    };
    let new = cur * 10 + d;
    if new > MAX_LINE_NUM {
        count
    } else {
        Some(new as u32)
    }
}

impl InputAccumulator {
    pub closed spec fn count(&self) -> Option<u32> {
        self.count
    }

    /// The count never passes the maximum.
    pub open spec fn wf(&self) -> bool {
        self.count() matches Some(c) ==> c <= MAX_LINE_NUM
    }

    pub fn new() -> (r: Self)
        ensures
            r.count() is None,
            r.wf(),
    {
        InputAccumulator { count: None }
    }

    /// Feed a digit (0 to 9). Returns false, and keeps the count, if it
    /// would pass the maximum.
    pub fn push_digit(&mut self, d: u32) -> (r: bool)
        requires
            old(self).wf(),
            d <= 9,
        ensures
            final(self).wf(),
            final(self).count() == push_digit_spec(old(self).count(), d),
            r == ((match old(self).count() {
                Some(c) => c as int,
                None => 0,
            }) * 10 + d <= MAX_LINE_NUM),
    {
        let current = match self.count {
            Some(c) => c,
            None => 0,
        };
        let new = current * 10 + d;
        if new > MAX_LINE_NUM {
            return false;
        }
        self.count = Some(new);
        true
    }

    /// Take the accumulated count, resetting it.
    pub fn take(&mut self) -> (r: Option<u32>)
        requires
            old(self).wf(),
        ensures
            r == old(self).count(),
            final(self).count() is None,
            final(self).wf(),
    {
        self.count.take()
    }

    /// The accumulated count, left in place.
    pub fn peek(&self) -> (r: Option<u32>)
        ensures
            r == self.count(),
    {
        self.count
    }

    pub fn reset(&mut self)
        ensures
            final(self).count() is None,
            final(self).wf(),
    {
        self.count = None;
    }

    pub fn is_active(&self) -> (r: bool)
        ensures
            r == self.count() is Some,
    {
        self.count.is_some()
    }
}

/// Actions of normal mode.
#[derive(Clone, Copy, Debug, PartialEq, Eq, Structural)]
pub enum Action {
    Quit,
    ScrollDown(u32),
    ScrollUp(u32),
    HalfPageDown(u32),
    HalfPageUp(u32),
    JumpToTop,
    JumpToBottom,
    JumpToLine(u32),
    YankExact(u32),
    YankExactPrompt,
    YankBlock(u32),
    YankBlockPrompt,
    OpenUrl(u32),
    EnterUrlPicker,
    EnterSearch,
    EnterCommand,
    SearchNextMatch,
    SearchPrevMatch,
    CancelInput,
    /// A digit was accumulated; the status bar shows it.
    Digit,
}

/// What a normal-mode key does, given the pending count.
pub open spec fn key_action(key: KeyInput, count: Option<u32>) -> Option<Action> {
    let n = match count {
        Some(c) => c,
        None => 1,
    };
    match key.code {
        KeyCode::Char(c) => if c == 'q' || (c == 'c' && key.modifiers == MOD_CONTROL) {
            Some(Action::Quit)
        } else if '0' <= c && c <= '9' && key.modifiers == MOD_NONE {
            Some(Action::Digit)
        } else if c == 'j' {
            Some(Action::ScrollDown(n))
        } else if c == 'k' {
            Some(Action::ScrollUp(n))
        } else if c == 'd' {
            Some(Action::HalfPageDown(n))
        } else if c == 'u' {
            Some(Action::HalfPageUp(n))
        } else if c == 'g' {
            Some(
                match count {
                    None => Action::JumpToTop,
                    Some(k) => Action::JumpToLine(k),
                },
            )
        } else if c == 'G' {
            Some(
                match count {
                    None => Action::JumpToBottom,
                    Some(k) => Action::JumpToLine(k),
                },
            )
        } else if c == 'y' {
            Some(
                match count {
                    None => Action::YankExactPrompt,
                    Some(k) => Action::YankExact(k),
                },
            )
        } else if c == 'Y' {
            Some(
                match count {
                    None => Action::YankBlockPrompt,
                    Some(k) => Action::YankBlock(k),
                },
            )
        } else if c == 'o' {
            Some(
                match count {
                    None => Action::EnterUrlPicker,
                    Some(k) => Action::OpenUrl(k),
                },
            )
        } else if c == '/' {
            Some(Action::EnterSearch)
        } else if c == ':' {
            Some(Action::EnterCommand)
        } else if c == 'n' && key.modifiers == MOD_NONE {
            Some(Action::SearchNextMatch)
        } else if c == 'N' && key.modifiers == MOD_SHIFT {
            Some(Action::SearchPrevMatch)
        } else {
            None
        },
        KeyCode::Esc => Some(Action::CancelInput),
        KeyCode::Down => Some(Action::ScrollDown(n)),
        KeyCode::Up => Some(Action::ScrollUp(n)),
        _ => None,
    }
}

/// Whether a normal-mode key consumes the pending count.
pub open spec fn consumes_count(key: KeyInput) -> bool {
    match key.code {
        KeyCode::Char(c) => c != 'q' && !(c == 'c' && key.modifiers == MOD_CONTROL) && !(
        '0' <= c && c <= '9' && key.modifiers == MOD_NONE) && (c == 'j' || c == 'k' || c == 'd'
            || c == 'u' || c == 'g' || c == 'G' || c == 'y' || c == 'Y' || c == 'o' || c == '/'
            || c == ':' || (c == 'n' && key.modifiers == MOD_NONE) || (c == 'N' && key.modifiers
            == MOD_SHIFT)),
        KeyCode::Esc | KeyCode::Down | KeyCode::Up => true,
        _ => false,
    }
}

/// Map a key to a normal-mode action, updating the accumulator: digits
/// accumulate; commands take the count; `q` and Ctrl-C leave it; unknown
/// keys give `None` and leave it for the caller to reset.
pub fn map_key_event(key: KeyInput, acc: &mut InputAccumulator) -> (r: Option<Action>)
    requires
        old(acc).wf(),
    ensures
        final(acc).wf(),
        r == key_action(key, old(acc).count()),
        r == Some(Action::Digit) ==> final(acc).count() == push_digit_spec(
            old(acc).count(),
            (match key.code {
                KeyCode::Char(c) => c as u32 - '0' as u32,
                _ => 0,
            }) as u32,
        ),
        r != Some(Action::Digit) ==> (if consumes_count(key) {
            final(acc).count() is None
        } else {
            final(acc).count() == old(acc).count()
        }),
{
    let none = key.modifiers == MOD_NONE;
    match key.code {
        KeyCode::Char(c) => {
            if c == 'q' || (c == 'c' && key.modifiers == MOD_CONTROL) {
                Some(Action::Quit)
            } else if '0' <= c && c <= '9' && none {
                let d = c as u32 - '0' as u32;
                acc.push_digit(d);
                Some(Action::Digit)
            } else if c == 'j' || c == 'k' || c == 'd' || c == 'u' {
                let n = match acc.take() {
                    Some(k) => k,
                    None => 1,
                };
                if c == 'j' {
                    Some(Action::ScrollDown(n))
                } else if c == 'k' {
                    Some(Action::ScrollUp(n))
                } else if c == 'd' {
                    Some(Action::HalfPageDown(n))
                } else {
                    Some(Action::HalfPageUp(n))
                }
            } else if c == 'g' || c == 'G' || c == 'y' || c == 'Y' || c == 'o' {
                let t = acc.take();
                match t {
                    None => Some(
                        if c == 'g' {
                            Action::JumpToTop
                        } else if c == 'G' {
                            Action::JumpToBottom
                        } else if c == 'y' {
                            Action::YankExactPrompt
                        } else if c == 'Y' {
                            Action::YankBlockPrompt
                        } else {
                            Action::EnterUrlPicker
                        },
                    ),
                    Some(k) => Some(
                        if c == 'g' || c == 'G' {
                            Action::JumpToLine(k)
                        } else if c == 'y' {
                            Action::YankExact(k)
                        } else if c == 'Y' {
                            Action::YankBlock(k)
                        } else {
                            Action::OpenUrl(k)
                        },
                    ),
                }
            } else if c == '/' {
                acc.reset();
                Some(Action::EnterSearch)
            } else if c == ':' {
                acc.reset();
                Some(Action::EnterCommand)
            } else if c == 'n' && none {
                acc.reset();
                Some(Action::SearchNextMatch)
            } else if c == 'N' && key.modifiers == MOD_SHIFT {
                acc.reset();
                Some(Action::SearchPrevMatch)
            } else {
                None
            }
        },
        KeyCode::Esc => {
            acc.reset();
            Some(Action::CancelInput)
        },
        KeyCode::Down => {
            let n = match acc.take() {
                Some(k) => k,
                None => 1,
            };
            Some(Action::ScrollDown(n))
        },
        KeyCode::Up => {
            let n = match acc.take() {
                Some(k) => k,
                None => 1,
            };
            Some(Action::ScrollUp(n))
        },
        _ => None,
    }
}

/// Actions of search mode.
#[derive(Clone, Copy, Debug, PartialEq, Eq, Structural)]
pub enum SearchAction {
    Type(char),
    Backspace,
    SelectNext,
    SelectPrev,
    Confirm,
    Cancel,
}

/// Map a key to a search-mode action.
pub fn map_search_key(key: KeyInput) -> (r: Option<SearchAction>)
    ensures
        r == (match key.code {
            KeyCode::Esc => Some(SearchAction::Cancel),
            KeyCode::Enter => Some(SearchAction::Confirm),
            KeyCode::Backspace => Some(SearchAction::Backspace),
            KeyCode::Down => Some(SearchAction::SelectNext),
            KeyCode::Up => Some(SearchAction::SelectPrev),
            KeyCode::Char(c) => if c == 'c' && key.modifiers == MOD_CONTROL {
                Some(SearchAction::Cancel)
            } else if c == 'j' && key.modifiers == MOD_NONE {
                Some(SearchAction::SelectNext)
            } else if c == 'k' && key.modifiers == MOD_NONE {
                Some(SearchAction::SelectPrev)
            } else {
                Some(SearchAction::Type(c))
            },
            KeyCode::Tab | KeyCode::Other => None,
        }),
{
    match key.code {
        KeyCode::Esc => Some(SearchAction::Cancel),
        KeyCode::Enter => Some(SearchAction::Confirm),
        KeyCode::Backspace => Some(SearchAction::Backspace),
        KeyCode::Down => Some(SearchAction::SelectNext),
        KeyCode::Up => Some(SearchAction::SelectPrev),
        KeyCode::Char(c) => {
            if c == 'c' && key.modifiers == MOD_CONTROL {
                Some(SearchAction::Cancel)
            } else if c == 'j' && key.modifiers == MOD_NONE {
                Some(SearchAction::SelectNext)
            } else if c == 'k' && key.modifiers == MOD_NONE {
                Some(SearchAction::SelectPrev)
            } else {
                Some(SearchAction::Type(c))
            }
        },
        KeyCode::Tab | KeyCode::Other => None,
    }
}

/// Actions of command mode (the `:` prompt).
#[derive(Clone, Copy, Debug, PartialEq, Eq, Structural)]
pub enum CommandAction {
    Type(char),
    Backspace,
    Execute,
    Cancel,
}

/// Map a key to a command-mode action.
pub fn map_command_key(key: KeyInput) -> (r: Option<CommandAction>)
    ensures
        r == (match key.code {
            KeyCode::Esc => Some(CommandAction::Cancel),
            KeyCode::Enter => Some(CommandAction::Execute),
            KeyCode::Backspace => Some(CommandAction::Backspace),
            KeyCode::Char(c) => if c == 'c' && key.modifiers == MOD_CONTROL {
                Some(CommandAction::Cancel)
            } else {
                Some(CommandAction::Type(c))
            },
            _ => None,
        }),
{
    match key.code {
        KeyCode::Esc => Some(CommandAction::Cancel),
        KeyCode::Enter => Some(CommandAction::Execute),
        KeyCode::Backspace => Some(CommandAction::Backspace),
        KeyCode::Char(c) => {
            if c == 'c' && key.modifiers == MOD_CONTROL {
                Some(CommandAction::Cancel)
            } else {
                Some(CommandAction::Type(c))
            }
        },
        _ => None,
    }
}

/// Actions of the URL picker.
#[derive(Clone, Copy, Debug, PartialEq, Eq, Structural)]
pub enum UrlAction {
    SelectNext,
    SelectPrev,
    Confirm,
    Cancel,
}

/// Map a key to a URL-picker action.
pub fn map_url_key(key: KeyInput) -> (r: Option<UrlAction>)
    ensures
        r == (match key.code {
            KeyCode::Esc => Some(UrlAction::Cancel),
            KeyCode::Enter => Some(UrlAction::Confirm),
            KeyCode::Down => Some(UrlAction::SelectNext),
            KeyCode::Up => Some(UrlAction::SelectPrev),
            KeyCode::Char(c) => if c == 'c' && key.modifiers == MOD_CONTROL {
                Some(UrlAction::Cancel)
            } else if c == 'q' {
                Some(UrlAction::Cancel)
            } else if c == 'j' {
                Some(UrlAction::SelectNext)
            } else if c == 'k' {
                Some(UrlAction::SelectPrev)
            } else {
                None
            },
            _ => None,
        }),
{
    match key.code {
        KeyCode::Esc => Some(UrlAction::Cancel),
        KeyCode::Enter => Some(UrlAction::Confirm),
        KeyCode::Down => Some(UrlAction::SelectNext),
        KeyCode::Up => Some(UrlAction::SelectPrev),
        KeyCode::Char(c) => {
            if c == 'c' && key.modifiers == MOD_CONTROL {
                Some(UrlAction::Cancel)
            } else if c == 'q' {
                Some(UrlAction::Cancel)
            } else if c == 'j' {
                Some(UrlAction::SelectNext)
            } else if c == 'k' {
                Some(UrlAction::SelectPrev)
            } else {
                None
            }
        },
        _ => None,
    }
}

} // verus!
