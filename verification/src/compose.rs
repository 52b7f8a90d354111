//! The compose form: name, mail and message of a reply, and the field
//! that has the focus (0 name, 1 mail, 2 message).
use vstd::prelude::*;
use vstd::string::StringExecFns;
use crate::types::{AppState, Screen};

verus! {

impl AppState {
    /// Open the compose form for the open thread: empty name and message,
    /// `sage` as mail, focus on the name.  Without an open board and
    /// thread, only a message saying so.
    pub fn enter_compose(&mut self)
        ensures
            old(self).current_board_url is None || old(self).current_thread_id is None ==> {
                &&& *final(self) == (AppState {
                    status_message: final(self).status_message,
                    ..*old(self)
                })
                &&& final(self).status_message@ == "スレが選択されていません"@
            },
            old(self).current_board_url is Some && old(self).current_thread_id is Some ==> {
                &&& *final(self) == (AppState {
                    compose_name: final(self).compose_name,
                    compose_email: final(self).compose_email,
                    compose_message: final(self).compose_message,
                    compose_focus: 0,
                    screen: Screen::Compose,
                    status_message: final(self).status_message,
                    ..*old(self)
                })
                &&& final(self).compose_name@.len() == 0
                &&& final(self).compose_email@ == "sage"@
                &&& final(self).compose_message@.len() == 0
                &&& final(self).status_message@ == "Ctrl+S:送信 Esc:キャンセル"@
            },
    {
        if self.current_board_url.is_none() || self.current_thread_id.is_none() {
            self.status_message = String::from_str("スレが選択されていません");
            return;
        }
        self.compose_name.clear();
        self.compose_email = String::from_str("sage");
        self.compose_message.clear();
        self.compose_focus = 0;
        self.screen = Screen::Compose;
        self.status_message = String::from_str("Ctrl+S:送信 Esc:キャンセル");
    }

    /// Leave the compose form for the thread view, clearing the status.
    pub fn exit_compose(&mut self)
        ensures
            *final(self) == (AppState {
                screen: Screen::ThreadView,
                status_message: final(self).status_message,
                ..*old(self)
            }),
            final(self).status_message@.len() == 0,
    {
        self.screen = Screen::ThreadView;
        self.status_message.clear();
    }

    /// Move the focus to the next field, after the message back to the
    /// name.
    pub fn compose_cycle_focus(&mut self)
        requires
            old(self).compose_focus < usize::MAX,
        ensures
            *final(self) == (AppState {
                compose_focus: ((old(self).compose_focus + 1) % 3) as usize,
                ..*old(self)
            }),
    {
        self.compose_focus = (self.compose_focus + 1) % 3;
    }

    /// Type a character into the field that has the focus.
    pub fn compose_insert_char(&mut self, c: char)
        ensures
            old(self).compose_focus == 0 ==> *final(self) == (AppState {
                compose_name: final(self).compose_name,
                ..*old(self)
            }) && final(self).compose_name@ == old(self).compose_name@.push(c),
            old(self).compose_focus == 1 ==> *final(self) == (AppState {
                compose_email: final(self).compose_email,
                ..*old(self)
            }) && final(self).compose_email@ == old(self).compose_email@.push(c),
            old(self).compose_focus == 2 ==> *final(self) == (AppState {
                compose_message: final(self).compose_message,
                ..*old(self)
            }) && final(self).compose_message@ == old(self).compose_message@.push(c),
            old(self).compose_focus > 2 ==> *final(self) == *old(self),
    {
        if self.compose_focus == 0 {
            self.compose_name.push(c);
        } else if self.compose_focus == 1 {
            self.compose_email.push(c);
        } else if self.compose_focus == 2 {
            self.compose_message.push(c);
        }
    }

    /// Erase the last character of the field that has the focus.
    pub fn compose_delete_char(&mut self)
        ensures
            old(self).compose_focus == 0 ==> *final(self) == (AppState {
                compose_name: final(self).compose_name,
                ..*old(self)
            }) && final(self).compose_name@ == (if old(self).compose_name@.len() > 0 {
                old(self).compose_name@.drop_last()
            } else {
                old(self).compose_name@
            }),
            old(self).compose_focus == 1 ==> *final(self) == (AppState {
                compose_email: final(self).compose_email,
                ..*old(self)
            }) && final(self).compose_email@ == (if old(self).compose_email@.len() > 0 {
                old(self).compose_email@.drop_last()
            } else {
                old(self).compose_email@
            }),
            old(self).compose_focus == 2 ==> *final(self) == (AppState {
                compose_message: final(self).compose_message,
                ..*old(self)
            }) && final(self).compose_message@ == (if old(self).compose_message@.len() > 0 {
                old(self).compose_message@.drop_last()
            } else {
                old(self).compose_message@
            }),
            old(self).compose_focus > 2 ==> *final(self) == *old(self),
    {
        if self.compose_focus == 0 {
            self.compose_name.pop();
        } else if self.compose_focus == 1 {
            self.compose_email.pop();
        } else if self.compose_focus == 2 {
            self.compose_message.pop();
        }
    }

    /// Enter: a new line in the message, otherwise the next field.
    pub fn compose_newline(&mut self)
        requires
            old(self).compose_focus < usize::MAX,
        ensures
            old(self).compose_focus == 2 ==> *final(self) == (AppState {
                compose_message: final(self).compose_message,
                ..*old(self)
            }) && final(self).compose_message@ == old(self).compose_message@.push('\n'),
            old(self).compose_focus != 2 ==> *final(self) == (AppState {
                compose_focus: ((old(self).compose_focus + 1) % 3) as usize,
                ..*old(self)
            }),
    {
        if self.compose_focus == 2 {
            self.compose_message.push('\n');
        } else {
            self.compose_cycle_focus();
        }
    }
}

} // verus!
