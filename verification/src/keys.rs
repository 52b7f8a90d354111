//! The keys of the reader and what each one does on each screen.
use vstd::prelude::*;
use crate::types::{AppState, Screen};

verus! {

/// A key the reader tells apart.
#[derive(Clone, Copy, Debug, PartialEq, Eq, Structural)]
pub enum Key {
    Esc,
    Enter,
    Tab,
    Backspace,
    Up,
    Down,
    Left,
    PageUp,
    PageDown,
    Char(char),
    Other,
}

/// What a key asks the reader to do.
#[derive(Clone, Copy, Debug, PartialEq, Eq, Structural)]
pub enum Action {
    Nothing,
    Quit,
    EnterSearch,
    ExitSearch,
    ExitSearchSelectBoard,
    ExitSearchSelectThread,
    SearchPush(char),
    SearchPop,
    PrevItem,
    NextItem,
    ScrollUp,
    ScrollDown,
    ScrollToTop,
    ScrollToBottom,
    PageDown,
    PageUp,
    SelectBoard,
    SelectThread,
    GoBack,
    ToggleFavorite,
    ReloadBoards,
    ReloadThreads,
    ReloadPosts,
    ShowThreadUrl,
    EnterCompose,
    ExitCompose,
    CycleFocus,
    DeleteChar,
    Newline,
    InsertChar(char),
    SendPost,
}

/// A control character (general category Cc: U+0000 to U+001F and U+007F
/// to U+009F), as `char::is_control` tells.
pub open spec fn control_char(c: char) -> bool {
    (c as u32) <= 0x1f || (0x7f <= (c as u32) && (c as u32) <= 0x9f)
}

fn is_control(c: char) -> (r: bool)
    ensures
        r == control_char(c),
{
    let u = c as u32;
    u <= 0x1f || (0x7f <= u && u <= 0x9f)
}

/// The key of a search being typed: Esc, `/` and ← / `h` end it, Enter
/// ends it and opens the selected entry, Backspace erases, ↑ / `k` and
/// ↓ / `j` move, any other printable character is typed.
pub open spec fn search_key_action(screen: Screen, key: Key) -> Action {
    match key {
        Key::Esc => Action::ExitSearch,
        Key::Enter => match screen {
            Screen::BoardList => Action::ExitSearchSelectBoard,
            Screen::ThreadList => Action::ExitSearchSelectThread,
            _ => Action::ExitSearch,
        },
        Key::Backspace => Action::SearchPop,
        Key::Up => Action::PrevItem,
        Key::Down => Action::NextItem,
        Key::Left => Action::ExitSearch,
        Key::Char(c) => if c == '/' || c == 'h' {
            Action::ExitSearch
        } else if c == 'k' {
            Action::PrevItem
        } else if c == 'j' {
            Action::NextItem
        } else if !control_char(c) {
            Action::SearchPush(c)
        } else {
            Action::Nothing
        },
        _ => Action::Nothing,
    }
}

/// The key of the compose screen: Esc leaves it, Tab moves the focus,
/// Backspace erases, Enter starts a new line, Ctrl-S sends, any other
/// printable character is typed.
pub open spec fn compose_key_action(key: Key, ctrl: bool) -> Action {
    match key {
        Key::Esc => Action::ExitCompose,
        Key::Tab => Action::CycleFocus,
        Key::Backspace => Action::DeleteChar,
        Key::Enter => Action::Newline,
        Key::Char(c) => if c == 's' && ctrl {
            Action::SendPost
        } else if !control_char(c) {
            Action::InsertChar(c)
        } else {
            Action::Nothing
        },
        _ => Action::Nothing,
    }
}

/// The action of a moving key on a screen: on a list the selection, in a
/// thread the scroll position.
pub open spec fn move_action(screen: Screen, down: bool) -> Action {
    match screen {
        Screen::BoardList | Screen::ThreadList => if down {
            Action::NextItem
        } else {
            Action::PrevItem
        },
        Screen::ThreadView => if down {
            Action::ScrollDown
        } else {
            Action::ScrollUp
        },
        Screen::Compose => Action::Nothing,
    }
}

/// An action that only the thread view has.
pub open spec fn in_thread_view(screen: Screen, a: Action) -> Action {
    if screen == Screen::ThreadView {
        a
    } else {
        Action::Nothing
    }
}

/// A key outside a search and outside the compose screen.
pub open spec fn browse_key_action(screen: Screen, key: Key) -> Action {
    match key {
        Key::Enter => match screen {
            Screen::BoardList => Action::SelectBoard,
            Screen::ThreadList => Action::SelectThread,
            _ => Action::Nothing,
        },
        Key::Up => move_action(screen, false),
        Key::Down => move_action(screen, true),
        Key::Left | Key::Backspace => Action::GoBack,
        Key::PageDown => if screen == Screen::Compose {
            Action::Nothing
        } else {
            Action::PageDown
        },
        Key::PageUp => if screen == Screen::Compose {
            Action::Nothing
        } else {
            Action::PageUp
        },
        Key::Char(c) => if c == 'q' {
            Action::Quit
        } else if c == '/' {
            Action::EnterSearch
        } else if c == 'w' {
            in_thread_view(screen, Action::EnterCompose)
        } else if c == 'k' {
            move_action(screen, false)
        } else if c == 'j' {
            move_action(screen, true)
        } else if c == 'h' {
            Action::GoBack
        } else if c == 'f' {
            if screen == Screen::BoardList {
                Action::ToggleFavorite
            } else {
                Action::Nothing
            }
        } else if c == 'g' {
            in_thread_view(screen, Action::ScrollToTop)
        } else if c == 'G' {
            in_thread_view(screen, Action::ScrollToBottom)
        } else if c == ' ' {
            if screen == Screen::Compose {
                Action::Nothing
            } else {
                Action::PageDown
            }
        } else if c == 'b' {
            if screen == Screen::Compose {
                Action::Nothing
            } else {
                Action::PageUp
            }
        } else if c == 'r' {
            match screen {
                Screen::BoardList => Action::ReloadBoards,
                Screen::ThreadList => Action::ReloadThreads,
                Screen::ThreadView => Action::ReloadPosts,
                Screen::Compose => Action::Nothing,
            }
        } else if c == 'u' {
            in_thread_view(screen, Action::ShowThreadUrl)
        } else {
            Action::Nothing
        },
        _ => Action::Nothing,
    }
}

/// What a key does: the search keys while a search is typed, else the
/// compose keys on the compose screen, else the browsing keys.  `ctrl`
/// tells whether Control was held.
pub open spec fn key_action_of(screen: Screen, search: bool, key: Key, ctrl: bool) -> Action {
    if search {
        search_key_action(screen, key)
    } else if screen == Screen::Compose {
        compose_key_action(key, ctrl)
    } else {
        browse_key_action(screen, key)
    }
}

/// Outside a search and the compose screen, `k` does what ↑ does and `j`
/// what ↓ does; on the board and thread lists ↑ moves the selection to the
/// previous entry and ↓ to the next one, in a thread they scroll up and
/// down.  Control changes none of these keys.
pub proof fn law_vi_keys_move(screen: Screen, ctrl: bool)
    requires
        screen != Screen::Compose,
    ensures
        key_action_of(screen, false, Key::Char('k'), ctrl) == key_action_of(
            screen,
            false,
            Key::Up,
            ctrl,
        ),
        key_action_of(screen, false, Key::Char('j'), ctrl) == key_action_of(
            screen,
            false,
            Key::Down,
            ctrl,
        ),
        screen == Screen::BoardList || screen == Screen::ThreadList ==> {
            &&& key_action_of(screen, false, Key::Up, ctrl) == Action::PrevItem
            &&& key_action_of(screen, false, Key::Down, ctrl) == Action::NextItem
        },
        screen == Screen::ThreadView ==> {
            &&& key_action_of(screen, false, Key::Up, ctrl) == Action::ScrollUp
            &&& key_action_of(screen, false, Key::Down, ctrl) == Action::ScrollDown
        },
        key_action_of(screen, false, Key::Char('k'), ctrl) != key_action_of(
            screen,
            false,
            Key::Char('j'),
            ctrl,
        ),
{
}

/// While a search is typed, `k` and ↑ select the previous match and `j`
/// and ↓ the next one, on every screen.
pub proof fn law_vi_keys_in_search(screen: Screen, ctrl: bool)
    ensures
        key_action_of(screen, true, Key::Char('k'), ctrl) == Action::PrevItem,
        key_action_of(screen, true, Key::Up, ctrl) == Action::PrevItem,
        key_action_of(screen, true, Key::Char('j'), ctrl) == Action::NextItem,
        key_action_of(screen, true, Key::Down, ctrl) == Action::NextItem,
{
}

/// The keys outside a search and the compose screen: `q` quits, `/`
/// starts a search, Enter opens the selected board or thread, ←, `h` and
/// Backspace go back, PageDown and Space turn a page down, PageUp and `b`
/// a page up, `r` reloads what the screen shows; `f` toggles a favorite
/// only on the board list; `w`, `g`, `G` and `u` (compose, top, bottom,
/// address) act only in a thread.  Control changes none of them.
pub proof fn law_browse_keys(screen: Screen, ctrl: bool)
    requires
        screen != Screen::Compose,
    ensures
        key_action_of(screen, false, Key::Char('q'), ctrl) == Action::Quit,
        key_action_of(screen, false, Key::Char('/'), ctrl) == Action::EnterSearch,
        key_action_of(screen, false, Key::Enter, ctrl) == match screen {
            Screen::BoardList => Action::SelectBoard,
            Screen::ThreadList => Action::SelectThread,
            _ => Action::Nothing,
        },
        key_action_of(screen, false, Key::Left, ctrl) == Action::GoBack,
        key_action_of(screen, false, Key::Char('h'), ctrl) == Action::GoBack,
        key_action_of(screen, false, Key::Backspace, ctrl) == Action::GoBack,
        key_action_of(screen, false, Key::PageDown, ctrl) == Action::PageDown,
        key_action_of(screen, false, Key::Char(' '), ctrl) == Action::PageDown,
        key_action_of(screen, false, Key::PageUp, ctrl) == Action::PageUp,
        key_action_of(screen, false, Key::Char('b'), ctrl) == Action::PageUp,
        key_action_of(screen, false, Key::Char('r'), ctrl) == match screen {
            Screen::BoardList => Action::ReloadBoards,
            Screen::ThreadList => Action::ReloadThreads,
            _ => Action::ReloadPosts,
        },
        key_action_of(screen, false, Key::Char('f'), ctrl) == if screen == Screen::BoardList {
            Action::ToggleFavorite
        } else {
            Action::Nothing
        },
        screen == Screen::ThreadView ==> {
            &&& key_action_of(screen, false, Key::Char('w'), ctrl) == Action::EnterCompose
            &&& key_action_of(screen, false, Key::Char('g'), ctrl) == Action::ScrollToTop
            &&& key_action_of(screen, false, Key::Char('G'), ctrl) == Action::ScrollToBottom
            &&& key_action_of(screen, false, Key::Char('u'), ctrl) == Action::ShowThreadUrl
        },
        screen != Screen::ThreadView ==> {
            &&& key_action_of(screen, false, Key::Char('w'), ctrl) == Action::Nothing
            &&& key_action_of(screen, false, Key::Char('g'), ctrl) == Action::Nothing
            &&& key_action_of(screen, false, Key::Char('G'), ctrl) == Action::Nothing
            &&& key_action_of(screen, false, Key::Char('u'), ctrl) == Action::Nothing
        },
{
}

/// While a search is typed: Esc, `/`, ← and `h` end it; Enter ends it and
/// opens the selected board or thread; Backspace erases; any other
/// printable character but `j` and `k` is added to the query, a control
/// character (U+0000 to U+001F, U+007F to U+009F) does nothing.
pub proof fn law_search_keys(screen: Screen, c: char, ctrl: bool)
    ensures
        key_action_of(screen, true, Key::Esc, ctrl) == Action::ExitSearch,
        key_action_of(screen, true, Key::Char('/'), ctrl) == Action::ExitSearch,
        key_action_of(screen, true, Key::Left, ctrl) == Action::ExitSearch,
        key_action_of(screen, true, Key::Char('h'), ctrl) == Action::ExitSearch,
        key_action_of(screen, true, Key::Backspace, ctrl) == Action::SearchPop,
        key_action_of(screen, true, Key::Enter, ctrl) == match screen {
            Screen::BoardList => Action::ExitSearchSelectBoard,
            Screen::ThreadList => Action::ExitSearchSelectThread,
            _ => Action::ExitSearch,
        },
        c != '/' && c != 'h' && c != 'j' && c != 'k' ==> key_action_of(
            screen,
            true,
            Key::Char(c),
            ctrl,
        ) == if (c as u32) < 0x20 || (0x7f <= (c as u32) && (c as u32) < 0xa0) {
            Action::Nothing
        } else {
            Action::SearchPush(c)
        },
{
}

/// On the compose screen (no search): Esc leaves, Tab moves the focus,
/// Backspace erases, Enter starts a new line, Control-S sends, and any
/// other printable character, `s` without Control included, is typed; a
/// control character (U+0000 to U+001F, U+007F to U+009F) does nothing.
pub proof fn law_compose_keys(c: char, ctrl: bool)
    ensures
        key_action_of(Screen::Compose, false, Key::Esc, ctrl) == Action::ExitCompose,
        key_action_of(Screen::Compose, false, Key::Tab, ctrl) == Action::CycleFocus,
        key_action_of(Screen::Compose, false, Key::Backspace, ctrl) == Action::DeleteChar,
        key_action_of(Screen::Compose, false, Key::Enter, ctrl) == Action::Newline,
        key_action_of(Screen::Compose, false, Key::Char('s'), true) == Action::SendPost,
        !(c == 's' && ctrl) ==> key_action_of(Screen::Compose, false, Key::Char(c), ctrl) == if (c
            as u32) < 0x20 || (0x7f <= (c as u32) && (c as u32) < 0xa0) {
            Action::Nothing
        } else {
            Action::InsertChar(c)
        },
{
}

fn move_action_exec(screen: Screen, down: bool) -> (r: Action)
    ensures
        r == move_action(screen, down),
{
    match screen {
        Screen::BoardList | Screen::ThreadList => if down {
            Action::NextItem
        } else {
            Action::PrevItem
        },
        Screen::ThreadView => if down {
            Action::ScrollDown
        } else {
            Action::ScrollUp
        },
        Screen::Compose => Action::Nothing,
    }
}

fn in_thread_view_exec(screen: Screen, a: Action) -> (r: Action)
    ensures
        r == in_thread_view(screen, a),
{
    if screen == Screen::ThreadView {
        a
    } else {
        Action::Nothing
    }
}

impl AppState {
    /// What `key` does in the present state (`ctrl`: Control was held).
    pub fn key_action(&self, key: Key, ctrl: bool) -> (r: Action)
        ensures
            r == key_action_of(self.screen, self.search_active, key, ctrl),
    {
        let screen = self.screen;
        if self.search_active {
            match key {
                Key::Esc => Action::ExitSearch,
                Key::Enter => match screen {
                    Screen::BoardList => Action::ExitSearchSelectBoard,
                    Screen::ThreadList => Action::ExitSearchSelectThread,
                    _ => Action::ExitSearch,
                },
                Key::Backspace => Action::SearchPop,
                Key::Up => Action::PrevItem,
                Key::Down => Action::NextItem,
                Key::Left => Action::ExitSearch,
                Key::Char(c) => if c == '/' || c == 'h' {
                    Action::ExitSearch
                } else if c == 'k' {
                    Action::PrevItem
                } else if c == 'j' {
                    Action::NextItem
                } else if !is_control(c) {
                    Action::SearchPush(c)
                } else {
                    Action::Nothing
                },
                _ => Action::Nothing,
            }
        } else if screen == Screen::Compose {
            match key {
                Key::Esc => Action::ExitCompose,
                Key::Tab => Action::CycleFocus,
                Key::Backspace => Action::DeleteChar,
                Key::Enter => Action::Newline,
                Key::Char(c) => if c == 's' && ctrl {
                    Action::SendPost
                } else if !is_control(c) {
                    Action::InsertChar(c)
                } else {
                    Action::Nothing
                },
                _ => Action::Nothing,
            }
        } else {
            match key {
                Key::Enter => match screen {
                    Screen::BoardList => Action::SelectBoard,
                    Screen::ThreadList => Action::SelectThread,
                    _ => Action::Nothing,
                },
                Key::Up => move_action_exec(screen, false),
                Key::Down => move_action_exec(screen, true),
                Key::Left | Key::Backspace => Action::GoBack,
                Key::PageDown => if screen == Screen::Compose {
                    Action::Nothing
                } else {
                    Action::PageDown
                },
                Key::PageUp => if screen == Screen::Compose {
                    Action::Nothing
                } else {
                    Action::PageUp
                },
                Key::Char(c) => if c == 'q' {
                    Action::Quit
                } else if c == '/' {
                    Action::EnterSearch
                } else if c == 'w' {
                    in_thread_view_exec(screen, Action::EnterCompose)
                } else if c == 'k' {
                    move_action_exec(screen, false)
                } else if c == 'j' {
                    move_action_exec(screen, true)
                } else if c == 'h' {
                    Action::GoBack
                } else if c == 'f' {
                    if screen == Screen::BoardList {
                        Action::ToggleFavorite
                    } else {
                        Action::Nothing
                    }
                } else if c == 'g' {
                    in_thread_view_exec(screen, Action::ScrollToTop)
                } else if c == 'G' {
                    in_thread_view_exec(screen, Action::ScrollToBottom)
                } else if c == ' ' {
                    if screen == Screen::Compose {
                        Action::Nothing
                    } else {
                        Action::PageDown
                    }
                } else if c == 'b' {
                    if screen == Screen::Compose {
                        Action::Nothing
                    } else {
                        Action::PageUp
                    }
                } else if c == 'r' {
                    match screen {
                        Screen::BoardList => Action::ReloadBoards,
                        Screen::ThreadList => Action::ReloadThreads,
                        Screen::ThreadView => Action::ReloadPosts,
                        Screen::Compose => Action::Nothing,
                    }
                } else if c == 'u' {
                    in_thread_view_exec(screen, Action::ShowThreadUrl)
                } else {
                    Action::Nothing
                },
                _ => Action::Nothing,
            }
        }
    }
}

} // verus!
