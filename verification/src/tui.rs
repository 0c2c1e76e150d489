//! The state machine of the terminal interface: tabs, password entry,
//! list selection and the status line, and the texts it shows.
//!
//! Keys come in as plain values; what the interface asks of the keystore
//! (quit, lock, refresh, unlock with a password) goes out as a command.
use vstd::prelude::*;
use vstd::string::*;
use vstd::utf8::encode_utf8;
use crate::db::{AccessLog, Policy, ProtectedFile};
use crate::text::{append_decimal, append_text, chars_of, push_char, signed_decimal_text, string_from_chars};

verus! {

/// Which tab is currently active.
#[derive(Debug, Clone, Copy, PartialEq, Eq)]
pub enum Tab {
    Directories,
    Logs,
    Policies,
    Status,
}

/// The tab at a position in the tab bar (positions past the last wrap around).
pub open spec fn tab_at(i: int) -> Tab {
    let k = i % 4;
    if k == 0 {
        Tab::Directories
    } else if k == 1 {
        Tab::Logs
    } else if k == 2 {
        Tab::Policies
    } else {
        Tab::Status
    }
}

/// A tab's position in the tab bar.
pub open spec fn tab_index(t: Tab) -> int {
    match t {
        Tab::Directories => 0,
        Tab::Logs => 1,
        Tab::Policies => 2,
        Tab::Status => 3,
    }
}

/// A tab's title.
pub open spec fn tab_title(t: Tab) -> Seq<char> {
    match t {
        Tab::Directories => seq!['D', 'i', 'r', 'e', 'c', 't', 'o', 'r', 'i', 'e', 's'],
        Tab::Logs => seq!['A', 'c', 'c', 'e', 's', 's', ' ', 'L', 'o', 'g', 's'],
        Tab::Policies => seq!['P', 'o', 'l', 'i', 'c', 'i', 'e', 's'],
        Tab::Status => seq!['S', 't', 'a', 't', 'u', 's'],
    }
}

impl Tab {
    /// The tab's title.
    pub fn title(self) -> (r: &'static str)
        ensures
            r@ == tab_title(self),
    {
        proof {
            reveal_strlit("Directories");
            reveal_strlit("Access Logs");
            reveal_strlit("Policies");
            reveal_strlit("Status");
        }
        match self {
            Tab::Directories => "Directories",
            Tab::Logs => "Access Logs",
            Tab::Policies => "Policies",
            Tab::Status => "Status",
        }
    }

    /// The tab's position in the tab bar.
    pub fn index(self) -> (r: usize)
        ensures
            r == tab_index(self),
    {
        match self {
            Tab::Directories => 0,
            Tab::Logs => 1,
            Tab::Policies => 2,
            Tab::Status => 3,
        }
    }

    /// The tab at a position in the tab bar (positions past the last wrap around).
    pub fn from_index(i: usize) -> (r: Tab)
        ensures
            r == tab_at(i as int),
    {
        let k = i % 4;
        if k == 0 {
            Tab::Directories
        } else if k == 1 {
            Tab::Logs
        } else if k == 2 {
            Tab::Policies
        } else {
            Tab::Status
        }
    }
}

/// A key press, as the interface tells keys apart.
#[derive(Debug, Clone, Copy, PartialEq, Eq)]
pub enum Key {
    Char(char),
    Esc,
    Tab,
    BackTab,
    Enter,
    Backspace,
    Up,
    Down,
    Other,
}

/// What the interface asks of the keystore after a key.
#[derive(Debug, Clone, PartialEq, Eq)]
pub enum Command {
    /// Nothing.
    Stay,
    /// Leave the interface.
    Quit,
    /// Lock the keystore.
    Lock,
    /// Reload the lists from the database.
    Refresh,
    /// Unlock the keystore with this password.
    Unlock(String),
}

/// The terminal interface's state.
pub struct App {
    tab: Tab,
    password_mode: bool,
    password_input: Vec<char>,
    status_message: String,
    dir_selected: Option<usize>,
    log_selected: Option<usize>,
    policy_selected: Option<usize>,
    protected_files: Vec<String>,
    access_logs: Vec<AccessLog>,
    policies: Vec<Policy>,
    unlocked: bool,
}

/// The interface state as plain values.
pub struct AppView {
    pub tab: Tab,
    pub password_mode: bool,
    pub password_input: Seq<char>,
    pub status_message: Seq<char>,
    pub dir_selected: Option<usize>,
    pub log_selected: Option<usize>,
    pub policy_selected: Option<usize>,
    pub files_len: int,
    pub logs_len: int,
    pub policies_len: int,
    pub unlocked: bool,
}

impl View for App {
    type V = AppView;

    closed spec fn view(&self) -> AppView {
        AppView {
            tab: self.tab,
            password_mode: self.password_mode,
            password_input: self.password_input@,
            status_message: self.status_message@,
            dir_selected: self.dir_selected,
            log_selected: self.log_selected,
            policy_selected: self.policy_selected,
            files_len: self.protected_files@.len() as int,
            logs_len: self.access_logs@.len() as int,
            policies_len: self.policies@.len() as int,
            unlocked: self.unlocked,
        }
    }
}

/// The selection one row further down a list of `len` rows.
pub open spec fn next_selection(sel: Option<usize>, len: int) -> Option<usize> {
    if len > 0 {
        let cur = match sel {
            Some(s) => s as int,
            None => 0,
        };
        Some((if cur + 1 < len - 1 {
            cur + 1
        } else {
            len - 1
        }) as usize)
    } else {
        sel
    }
}

/// The selection one row further up a list of `len` rows.
pub open spec fn previous_selection(sel: Option<usize>, len: int) -> Option<usize> {
    if len > 0 {
        let cur = match sel {
            Some(s) => s as int,
            None => 0,
        };
        Some((if cur > 0 {
            cur - 1
        } else {
            0
        }) as usize)
    } else {
        sel
    }
}

/// A selection that a step down can be taken from.
pub open spec fn selection_ok(sel: Option<usize>) -> bool {
    sel matches Some(s) ==> s < usize::MAX
}

impl AppView {
    /// What every state of the interface keeps.
    pub open spec fn wf(self) -> bool {
        &&& selection_ok(self.dir_selected)
        &&& selection_ok(self.log_selected)
        &&& selection_ok(self.policy_selected)
    }
}

pub open spec fn msg_enter_password() -> Seq<char> {
    seq![
        'E', 'n', 't', 'e', 'r', ' ', 'm', 'a', 's', 't', 'e', 'r', ' ', 'p', 'a', 's', 's', 'w', 'o',
        'r', 'd', ':',
    ]
}

pub open spec fn msg_locked() -> Seq<char> {
    seq!['K', 'e', 'y', 's', 't', 'o', 'r', 'e', ' ', 'l', 'o', 'c', 'k', 'e', 'd']
}

pub open spec fn msg_refreshed() -> Seq<char> {
    seq!['D', 'a', 't', 'a', ' ', 'r', 'e', 'f', 'r', 'e', 's', 'h', 'e', 'd']
}

pub open spec fn msg_cancelled() -> Seq<char> {
    seq![
        'P', 'a', 's', 's', 'w', 'o', 'r', 'd', ' ', 'e', 'n', 't', 'r', 'y', ' ', 'c', 'a', 'n',
        'c', 'e', 'l', 'l', 'e', 'd',
    ]
}

pub open spec fn msg_unlocked() -> Seq<char> {
    seq![
        'K', 'e', 'y', 's', 't', 'o', 'r', 'e', ' ', 'u', 'n', 'l', 'o', 'c', 'k', 'e', 'd', ' ',
        's', 'u', 'c', 'c', 'e', 's', 's', 'f', 'u', 'l', 'l', 'y',
    ]
}

pub open spec fn msg_unlock_failed() -> Seq<char> {
    seq!['U', 'n', 'l', 'o', 'c', 'k', ' ', 'f', 'a', 'i', 'l', 'e', 'd', ':', ' ']
}

/// What a key does to the interface state, and what it asks of the keystore.
pub open spec fn key_step(s: AppView, key: Key) -> (AppView, Command) {
    if s.password_mode {
        match key {
            Key::Enter => (
                AppView { password_mode: false, password_input: Seq::empty(), ..s },
                Command::Stay,
            ),
            Key::Esc => (
                AppView {
                    password_mode: false,
                    password_input: Seq::empty(),
                    status_message: msg_cancelled(),
                    ..s
                },
                Command::Stay,
            ),
            Key::Backspace => (
                AppView {
                    password_input: if s.password_input.len() > 0 {
                        s.password_input.drop_last()
                    } else {
                        s.password_input
                    },
                    ..s
                },
                Command::Stay,
            ),
            Key::Char(c) => (AppView { password_input: s.password_input.push(c), ..s }, Command::Stay),
            _ => (s, Command::Stay),
        }
    } else {
        match key {
            Key::Char('q') | Key::Esc => (s, Command::Quit),
            Key::Tab => (AppView { tab: tab_at(tab_index(s.tab) + 1), ..s }, Command::Stay),
            Key::BackTab => (AppView { tab: tab_at(tab_index(s.tab) + 3), ..s }, Command::Stay),
            Key::Char('u') => (
                AppView {
                    password_mode: true,
                    password_input: Seq::empty(),
                    status_message: msg_enter_password(),
                    ..s
                },
                Command::Stay,
            ),
            Key::Char('l') => (
                AppView { unlocked: false, status_message: msg_locked(), ..s },
                Command::Lock,
            ),
            Key::Char('r') => (AppView { status_message: msg_refreshed(), ..s }, Command::Refresh),
            Key::Down => (select_step(s, true), Command::Stay),
            Key::Up => (select_step(s, false), Command::Stay),
            _ => (s, Command::Stay),
        }
    }
}

/// Moves the selection of the current tab's list down (or up).
pub open spec fn select_step(s: AppView, down: bool) -> AppView {
    match s.tab {
        Tab::Directories => AppView {
            dir_selected: if down {
                next_selection(s.dir_selected, s.files_len)
            } else {
                previous_selection(s.dir_selected, s.files_len)
            },
            ..s
        },
        Tab::Logs => AppView {
            log_selected: if down {
                next_selection(s.log_selected, s.logs_len)
            } else {
                previous_selection(s.log_selected, s.logs_len)
            },
            ..s
        },
        Tab::Policies => AppView {
            policy_selected: if down {
                next_selection(s.policy_selected, s.policies_len)
            } else {
                previous_selection(s.policy_selected, s.policies_len)
            },
            ..s
        },
        Tab::Status => s,
    }
}

fn step_down(sel: Option<usize>, len: usize) -> (r: Option<usize>)
    requires
        selection_ok(sel),
    ensures
        r == next_selection(sel, len as int),
        selection_ok(r),
{
    if len > 0 {
        let cur = match sel {
            Some(s) => s,
            None => 0,
        };
        let next = cur + 1;
        Some(if next < len - 1 {
            next
        } else {
            len - 1
        })
    } else {
        sel
    }
}

fn step_up(sel: Option<usize>, len: usize) -> (r: Option<usize>)
    requires
        selection_ok(sel),
    ensures
        r == previous_selection(sel, len as int),
        selection_ok(r),
{
    if len > 0 {
        let cur = match sel {
            Some(s) => s,
            None => 0,
        };
        Some(if cur > 0 {
            cur - 1
        } else {
            0
        })
    } else {
        sel
    }
}

impl App {
    /// A fresh interface: the directories tab, locked, no lists loaded.
    pub fn new() -> (r: App)
        ensures
            r@.wf(),
            r@.tab == Tab::Directories,
            !r@.password_mode,
            r@.password_input.len() == 0,
            r@.status_message.len() == 0,
            r@.dir_selected is None,
            r@.log_selected is None,
            r@.policy_selected is None,
            r@.files_len == 0,
            r@.logs_len == 0,
            r@.policies_len == 0,
            !r@.unlocked,
    {
        App {
            tab: Tab::Directories,
            password_mode: false,
            password_input: Vec::new(),
            status_message: String::new(),
            dir_selected: None,
            log_selected: None,
            policy_selected: None,
            protected_files: Vec::new(),
            access_logs: Vec::new(),
            policies: Vec::new(),
            unlocked: false,
        }
    }

    /// Handle a key event; the command says what the keystore is to do
    /// (`Quit` ends the interface). Enter in password mode hands out the
    /// typed password to unlock with.
    pub fn handle_key(&mut self, key: Key) -> (r: Command)
        requires
            old(self)@.wf(),
        ensures
            final(self).file_lines_view() == old(self).file_lines_view(),
            final(self).logs_view() == old(self).logs_view(),
            final(self).policies_view() == old(self).policies_view(),
            final(self)@.wf(),
            final(self)@ == key_step(old(self)@, key).0,
            old(self)@.password_mode && key == Key::Enter ==> (r matches Command::Unlock(p) && p@
                == old(self)@.password_input),
            !(old(self)@.password_mode && key == Key::Enter) ==> r == key_step(old(self)@, key).1,
    {
        if self.password_mode {
            return self.handle_password_key(key);
        }
        match key {
            Key::Char('q') | Key::Esc => Command::Quit,
            Key::Tab => {
                self.tab = Tab::from_index(self.tab.index() + 1);
                Command::Stay
            },
            Key::BackTab => {
                self.tab = Tab::from_index(self.tab.index() + 3);
                Command::Stay
            },
            Key::Char('u') => {
                proof {
                    reveal_strlit("Enter master password:");
                    assert("Enter master password:"@ == msg_enter_password());
                }
                self.password_mode = true;
                self.password_input = Vec::new();
                self.status_message = "Enter master password:".to_owned();
                Command::Stay
            },
            Key::Char('l') => {
                proof {
                    reveal_strlit("Keystore locked");
                    assert("Keystore locked"@ == msg_locked());
                }
                self.unlocked = false;
                self.status_message = "Keystore locked".to_owned();
                Command::Lock
            },
            Key::Char('r') => {
                proof {
                    reveal_strlit("Data refreshed");
                    assert("Data refreshed"@ == msg_refreshed());
                }
                self.status_message = "Data refreshed".to_owned();
                Command::Refresh
            },
            Key::Down => {
                self.select_next();
                Command::Stay
            },
            Key::Up => {
                self.select_previous();
                Command::Stay
            },
            _ => Command::Stay,
        }
    }

    /// Handle key events in password input mode.
    fn handle_password_key(&mut self, key: Key) -> (r: Command)
        requires
            old(self)@.wf(),
            old(self)@.password_mode,
        ensures
            final(self).file_lines_view() == old(self).file_lines_view(),
            final(self).logs_view() == old(self).logs_view(),
            final(self).policies_view() == old(self).policies_view(),
            final(self)@.wf(),
            final(self)@ == key_step(old(self)@, key).0,
            key == Key::Enter ==> (r matches Command::Unlock(p) && p@ == old(self)@.password_input),
            key != Key::Enter ==> r == Command::Stay,
    {
        match key {
            Key::Enter => {
                let password = string_from_chars(self.password_input.as_slice());
                self.password_input = Vec::new();
                self.password_mode = false;
                Command::Unlock(password)
            },
            Key::Esc => {
                proof {
                    reveal_strlit("Password entry cancelled");
                    assert("Password entry cancelled"@ == msg_cancelled());
                }
                self.password_mode = false;
                self.password_input = Vec::new();
                self.status_message = "Password entry cancelled".to_owned();
                Command::Stay
            },
            Key::Backspace => {
                let _ = self.password_input.pop();
                Command::Stay
            },
            Key::Char(c) => {
                self.password_input.push(c);
                Command::Stay
            },
            _ => Command::Stay,
        }
    }

    fn select_next(&mut self)
        requires
            old(self)@.wf(),
        ensures
            final(self).file_lines_view() == old(self).file_lines_view(),
            final(self).logs_view() == old(self).logs_view(),
            final(self).policies_view() == old(self).policies_view(),
            final(self)@ == select_step(old(self)@, true),
            final(self)@.wf(),
    {
        match self.tab {
            Tab::Directories => {
                self.dir_selected = step_down(self.dir_selected, self.protected_files.len());
            },
            Tab::Logs => {
                self.log_selected = step_down(self.log_selected, self.access_logs.len());
            },
            Tab::Policies => {
                self.policy_selected = step_down(self.policy_selected, self.policies.len());
            },
            Tab::Status => {},
        }
    }

    fn select_previous(&mut self)
        requires
            old(self)@.wf(),
        ensures
            final(self).file_lines_view() == old(self).file_lines_view(),
            final(self).logs_view() == old(self).logs_view(),
            final(self).policies_view() == old(self).policies_view(),
            final(self)@ == select_step(old(self)@, false),
            final(self)@.wf(),
    {
        match self.tab {
            Tab::Directories => {
                self.dir_selected = step_up(self.dir_selected, self.protected_files.len());
            },
            Tab::Logs => {
                self.log_selected = step_up(self.log_selected, self.access_logs.len());
            },
            Tab::Policies => {
                self.policy_selected = step_up(self.policy_selected, self.policies.len());
            },
            Tab::Status => {},
        }
    }

    /// Records a successful unlock.
    pub fn unlock_succeeded(&mut self)
        requires
            old(self)@.wf(),
        ensures
            final(self).file_lines_view() == old(self).file_lines_view(),
            final(self).logs_view() == old(self).logs_view(),
            final(self).policies_view() == old(self).policies_view(),
            final(self)@ == (AppView { unlocked: true, status_message: msg_unlocked(), ..old(self)@ }),
    {
        proof {
            reveal_strlit("Keystore unlocked successfully");
            assert("Keystore unlocked successfully"@ == msg_unlocked());
        }
        self.unlocked = true;
        self.status_message = "Keystore unlocked successfully".to_owned();
    }

    /// Records a failed unlock, with the reason.
    pub fn unlock_failed(&mut self, reason: &str)
        requires
            old(self)@.wf(),
        ensures
            final(self).file_lines_view() == old(self).file_lines_view(),
            final(self).logs_view() == old(self).logs_view(),
            final(self).policies_view() == old(self).policies_view(),
            final(self)@ == (AppView { status_message: msg_unlock_failed() + reason@, ..old(self)@ }),
    {
        proof {
            reveal_strlit("Unlock failed: ");
            assert("Unlock failed: "@ == msg_unlock_failed());
        }
        let mut m = "Unlock failed: ".to_owned();
        m.append(reason);
        self.status_message = m;
    }

    /// The active tab.
    pub fn tab(&self) -> (r: Tab)
        ensures
            r == self@.tab,
    {
        self.tab
    }

    /// Whether the keystore is shown as unlocked.
    pub fn unlocked(&self) -> (r: bool)
        ensures
            r == self@.unlocked,
    {
        self.unlocked
    }
}

/// The lock shown for an encrypted (closed) or unlocked (open) state.
pub open spec fn lock_icon(closed: bool) -> char {
    if closed {
        '\u{1F512}'
    } else {
        '\u{1F513}'
    }
}

/// The mark shown for an allowed or refused access.
pub open spec fn allowed_icon(allowed: bool) -> char {
    if allowed {
        '\u{2713}'
    } else {
        '\u{2717}'
    }
}

/// The interface after typing the characters `cs` one key at a time.
pub open spec fn type_chars(s: AppView, cs: Seq<char>) -> AppView
    decreases cs.len(),
{
    if cs.len() == 0 {
        s
    } else {
        key_step(type_chars(s, cs.drop_last()), Key::Char(cs.last())).0
    }
}

/// Tab and BackTab undo each other, and four Tabs come back to the tab
/// they started from; nothing else changes.
pub proof fn law_tabs_cycle(s: AppView)
    requires
        !s.password_mode,
    ensures
        key_step(key_step(s, Key::Tab).0, Key::BackTab).0 == s,
        key_step(key_step(s, Key::BackTab).0, Key::Tab).0 == s,
        key_step(key_step(key_step(key_step(s, Key::Tab).0, Key::Tab).0, Key::Tab).0, Key::Tab).0 == s,
{
}

/// While a password is typed, each character goes to the end of the input
/// (keys that act elsewhere, such as `q`, included), and Backspace takes
/// back the character just typed.
pub proof fn law_password_typing(s: AppView, cs: Seq<char>, c: char)
    requires
        s.password_mode,
    ensures
        type_chars(s, cs) == (AppView { password_input: s.password_input + cs, ..s }),
        key_step(key_step(s, Key::Char(c)).0, Key::Backspace).0 == s,
    decreases cs.len(),
{
    assert(s.password_input.push(c).drop_last() == s.password_input);
    if cs.len() > 0 {
        law_password_typing(s, cs.drop_last(), c);
        assert(s.password_input + cs.drop_last() + seq![cs.last()] == s.password_input + cs) by {
            assert(cs.drop_last() + seq![cs.last()] == cs);
        }
        assert((s.password_input + cs.drop_last()).push(cs.last()) == s.password_input + cs);
    } else {
        assert(s.password_input + cs == s.password_input);
    }
}

/// The line shown for a tracked file: "<lock> <path> (<size> bytes)".
pub open spec fn file_line_text(f: crate::db::FileRow) -> Seq<char> {
    seq![lock_icon(f.is_encrypted), ' '] + f.path + seq![' ', '('] + signed_decimal_text(
        f.original_size,
    ) + seq![' ', 'b', 'y', 't', 'e', 's', ')']
}

/// The line shown for an access log entry:
/// "<mark> [<time>] <action> by <process> (<pid>) - <path>".
pub open spec fn log_line_text(l: crate::db::LogRow) -> Seq<char> {
    seq![allowed_icon(l.allowed), ' ', '['] + l.timestamp + seq![']', ' '] + l.action + seq![
        ' ',
        'b',
        'y',
        ' ',
    ] + l.process_name + seq![' ', '('] + signed_decimal_text(l.process_pid) + seq![
        ')',
        ' ',
        '-',
        ' ',
    ] + l.file_path
}

/// The line shown for a policy:
/// "[<action>] <action> on <path pattern> from <process pattern> (p=<priority>)".
pub open spec fn policy_line_text(p: crate::db::PolicyRow) -> Seq<char> {
    seq!['['] + p.action + seq![']', ' '] + p.action + seq![' ', 'o', 'n', ' '] + p.path_pattern
        + seq![' ', 'f', 'r', 'o', 'm', ' '] + p.process_pattern + seq![' ', '(', 'p', '=']
        + signed_decimal_text(p.priority) + seq![')']
}

/// The status bar: while a password is typed, the prompt and one `*` per
/// byte of the password's UTF-8 text; otherwise the lock, the key help and
/// the message.
pub open spec fn status_bar_text(s: AppView) -> Seq<char> {
    if s.password_mode {
        s.status_message + seq![' '] + Seq::new(encode_utf8(s.password_input).len(), |i: int| '*')
    } else {
        seq![lock_icon(!s.unlocked)] + seq![
            ' ', 's', 'e', 'c', 'a', 'p', 'p', ' ', '|', ' ', '[', 'u', ']', 'n', 'l', 'o', 'c',
            'k', ' ', '[', 'l', ']', 'o', 'c', 'k', ' ', '[', 'r', ']', 'e', 'f', 'r', 'e', 's',
            'h', ' ', '[', 'q', ']', 'u', 'i', 't', ' ', '|', ' ',
        ] + s.status_message
    }
}

/// The line shown for a tracked file.
pub fn file_line(f: &ProtectedFile) -> (r: String)
    ensures
        r@ == file_line_text(f@),
{
    proof {
        reveal_strlit(" (");
        reveal_strlit(" bytes)");
    }
    let mut s = String::new();
    push_char(&mut s, if f.is_encrypted { '\u{1F512}' } else { '\u{1F513}' });
    push_char(&mut s, ' ');
    append_text(&mut s, f.path.as_str());
    append_text(&mut s, " (");
    append_decimal(&mut s, f.original_size);
    append_text(&mut s, " bytes)");
    assert(s@ =~= file_line_text(f@));
    s
}

/// The line shown for an access log entry.
pub fn log_line(l: &AccessLog) -> (r: String)
    ensures
        r@ == log_line_text(l@),
{
    proof {
        reveal_strlit(" [");
        reveal_strlit("] ");
        reveal_strlit(" by ");
        reveal_strlit(" (");
        reveal_strlit(") - ");
    }
    let mut s = String::new();
    push_char(&mut s, if l.allowed { '\u{2713}' } else { '\u{2717}' });
    append_text(&mut s, " [");
    append_text(&mut s, l.timestamp.as_str());
    append_text(&mut s, "] ");
    append_text(&mut s, l.action.as_str());
    append_text(&mut s, " by ");
    append_text(&mut s, l.process_name.as_str());
    append_text(&mut s, " (");
    append_decimal(&mut s, l.process_pid);
    append_text(&mut s, ") - ");
    append_text(&mut s, l.file_path.as_str());
    assert(s@ =~= log_line_text(l@));
    s
}

/// The line shown for a policy.
pub fn policy_line(p: &Policy) -> (r: String)
    ensures
        r@ == policy_line_text(p@),
{
    proof {
        reveal_strlit("[");
        reveal_strlit("] ");
        reveal_strlit(" on ");
        reveal_strlit(" from ");
        reveal_strlit(" (p=");
        reveal_strlit(")");
    }
    let mut s = String::new();
    append_text(&mut s, "[");
    append_text(&mut s, p.action.as_str());
    append_text(&mut s, "] ");
    append_text(&mut s, p.action.as_str());
    append_text(&mut s, " on ");
    append_text(&mut s, p.path_pattern.as_str());
    append_text(&mut s, " from ");
    append_text(&mut s, p.process_pattern.as_str());
    append_text(&mut s, " (p=");
    append_decimal(&mut s, p.priority);
    append_text(&mut s, ")");
    assert(s@ =~= policy_line_text(p@));
    s
}

impl App {
    /// The status bar.
    pub fn status_bar(&self) -> (r: String)
        ensures
            r@ == status_bar_text(self@),
    {
        proof {
            reveal_strlit(" secapp | [u]nlock [l]ock [r]efresh [q]uit | ");
        }
        let mut s = String::new();
        if self.password_mode {
            append_text(&mut s, self.status_message.as_str());
            push_char(&mut s, ' ');
            let ghost base = s@;
            let typed = string_from_chars(self.password_input.as_slice());
            let n = typed.as_str().as_bytes().len();
            assert(typed@ == self.password_input@);
            assert(n == encode_utf8(self@.password_input).len());
            let mut i: usize = 0;
            while i < n
                invariant
                    i <= n,
                    s@ == base + Seq::new(i as nat, |k: int| '*'),
                decreases n - i,
            {
                push_char(&mut s, '*');
                assert(Seq::new((i + 1) as nat, |k: int| '*') == Seq::new(i as nat, |k: int| '*').push('*'));
                i += 1;
            }
            assert(s@ =~= status_bar_text(self@));
        } else {
            push_char(&mut s, if self.unlocked { '\u{1F513}' } else { '\u{1F512}' });
            append_text(&mut s, " secapp | [u]nlock [l]ock [r]efresh [q]uit | ");
            append_text(&mut s, self.status_message.as_str());
            assert(s@ =~= status_bar_text(self@));
        }
        s
    }

    /// Loads the lists shown from fresh query results (a list whose query
    /// failed keeps its old rows) and the keystore's lock state.
    pub fn refresh(
        &mut self,
        files: Option<&Vec<ProtectedFile>>,
        logs: Option<Vec<AccessLog>>,
        policies: Option<Vec<Policy>>,
        unlocked: bool,
    )
        requires
            old(self)@.wf(),
        ensures
            final(self)@.wf(),
            final(self)@.unlocked == unlocked,
            final(self)@.tab == old(self)@.tab,
            final(self)@.password_mode == old(self)@.password_mode,
            final(self)@.password_input == old(self)@.password_input,
            final(self)@.status_message == old(self)@.status_message,
            final(self)@.dir_selected == old(self)@.dir_selected,
            final(self)@.log_selected == old(self)@.log_selected,
            final(self)@.policy_selected == old(self)@.policy_selected,
            files matches Some(f) ==> final(self).file_lines_view() == f@.map_values(
                |x: ProtectedFile| file_line_text(x@),
            ),
            files is None ==> final(self).file_lines_view() == old(self).file_lines_view(),
            logs matches Some(l) ==> final(self).logs_view() == l@,
            logs is None ==> final(self).logs_view() == old(self).logs_view(),
            policies matches Some(p) ==> final(self).policies_view() == p@,
            policies is None ==> final(self).policies_view() == old(self).policies_view(),
    {
        match files {
            Some(fs) => {
                let mut lines: Vec<String> = Vec::new();
                let mut i: usize = 0;
                while i < fs.len()
                    invariant
                        i <= fs.len(),
                        lines@.map_values(|x: String| x@) == fs@.take(i as int).map_values(
                            |x: ProtectedFile| file_line_text(x@),
                        ),
                    decreases fs.len() - i,
                {
                    let line = file_line(&fs[i]);
                    let ghost prev = lines@;
                    lines.push(line);
                    assert(fs@.take(i + 1) == fs@.take(i as int).push(fs@[i as int]));
                    assert(lines@.map_values(|x: String| x@) =~= prev.map_values(|x: String| x@).push(line@));
                    assert(lines@.map_values(|x: String| x@) =~= fs@.take(i + 1).map_values(
                        |x: ProtectedFile| file_line_text(x@),
                    ));
                    i += 1;
                }
                assert(fs@.take(fs.len() as int) == fs@);
                self.protected_files = lines;
            },
            None => {},
        }
        match logs {
            Some(l) => {
                self.access_logs = l;
            },
            None => {},
        }
        match policies {
            Some(p) => {
                self.policies = p;
            },
            None => {},
        }
        self.unlocked = unlocked;
    }

    /// The lines of the directories tab.
    pub closed spec fn file_lines_view(&self) -> Seq<Seq<char>> {
        self.protected_files@.map_values(|x: String| x@)
    }

    /// The entries of the logs tab.
    pub closed spec fn logs_view(&self) -> Seq<AccessLog> {
        self.access_logs@
    }

    /// The policies of the policies tab.
    pub closed spec fn policies_view(&self) -> Seq<Policy> {
        self.policies@
    }

    /// The lines of the directories tab.
    pub fn file_lines(&self) -> (r: &Vec<String>)
        ensures
            r@.map_values(|x: String| x@) == self.file_lines_view(),
    {
        &self.protected_files
    }

    /// The entries of the logs tab.
    pub fn access_logs(&self) -> (r: &Vec<AccessLog>)
        ensures
            r@ == self.logs_view(),
    {
        &self.access_logs
    }

    /// The policies of the policies tab.
    pub fn policies(&self) -> (r: &Vec<Policy>)
        ensures
            r@ == self.policies_view(),
    {
        &self.policies
    }

    /// The selected row of a tab's list (the status tab has none).
    pub fn selected(&self, tab: Tab) -> (r: Option<usize>)
        ensures
            r == (match tab {
                Tab::Directories => self@.dir_selected,
                Tab::Logs => self@.log_selected,
                Tab::Policies => self@.policy_selected,
                Tab::Status => None,
            }),
    {
        match tab {
            Tab::Directories => self.dir_selected,
            Tab::Logs => self.log_selected,
            Tab::Policies => self.policy_selected,
            Tab::Status => None,
        }
    }
}

} // verus!
