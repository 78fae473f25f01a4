//! Terminal key events to Lem key syms.
//!
//! The vocabulary is Lem's, not the terminal library's: the names below
//! are Lem's key syms, and the payload is the `value` of an `input`
//! notification of kind `key`.

use vstd::prelude::*;

use crate::decimal::{decimal_chars, push_char, push_decimal_str};

verus! {

/// A key, as the terminal reports it.
#[derive(Debug, Clone, Copy, PartialEq, Eq, Structural)]
pub enum KeyCode {
    Backspace,
    Enter,
    Left,
    Right,
    Up,
    Down,
    Home,
    End,
    PageUp,
    PageDown,
    Tab,
    BackTab,
    Delete,
    Insert,
    F(u8),
    Char(char),
    Null,
    Esc,
    CapsLock,
    ScrollLock,
    NumLock,
    PrintScreen,
    Pause,
    Menu,
    KeypadBegin,
    /// A media key.
    Media,
    /// A modifier key pressed on its own.
    Modifier,
}

/// The modifier keys held during a key event, as bit flags.
#[derive(Debug, Clone, Copy, PartialEq, Eq, Structural)]
pub struct KeyModifiers {
    pub bits: u8,
}

impl KeyModifiers {
    pub const NONE: u8 = 0b0000_0000;
    pub const SHIFT: u8 = 0b0000_0001;
    pub const CONTROL: u8 = 0b0000_0010;
    pub const ALT: u8 = 0b0000_0100;
    pub const SUPER: u8 = 0b0000_1000;
    pub const HYPER: u8 = 0b0001_0000;
    pub const META: u8 = 0b0010_0000;

    pub open spec fn has(&self, flag: u8) -> bool {
        self.bits & flag == flag
    }

    /// Whether every flag in `flag` is held.
    pub fn contains(&self, flag: u8) -> (r: bool)
        ensures
            r == self.has(flag),
    {
        self.bits & flag == flag
    }
}

/// A key press.
#[derive(Debug, Clone, Copy, PartialEq, Eq, Structural)]
pub struct KeyEvent {
    pub code: KeyCode,
    pub modifiers: KeyModifiers,
}

impl KeyEvent {
    pub fn new(code: KeyCode, modifiers: u8) -> (r: Self)
        ensures
            r.code == code,
            r.modifiers.bits == modifiers,
    {
        KeyEvent { code, modifiers: KeyModifiers { bits: modifiers } }
    }
}

/// The `value` of an `input` notification of kind `key`. On the wire
/// `super_` is named `super`, a reserved word in Rust.
#[derive(Debug, Clone, PartialEq, Eq)]
pub struct KeyPayload {
    pub key: String,
    pub ctrl: bool,
    pub meta: bool,
    pub super_: bool,
    pub shift: bool,
}

/// Lem's sym for a key, or `None` where Lem has none.
///
/// Space is a named sym. Control with `4` to `7` is what the terminal
/// reports for the bytes 0x1C to 0x1F, which ASCII and Lem call `C-\`,
/// `C-]`, `C-^` and `C-_`; the ASCII reading is the one Lem binds.
pub open spec fn key_sym(code: KeyCode, modifiers: KeyModifiers) -> Option<Seq<char>> {
    match code {
        KeyCode::Char(c) => if c == ' ' {
            Some(seq!['S', 'p', 'a', 'c', 'e'])
        } else if '4' <= c && c <= '7' && modifiers.has(KeyModifiers::CONTROL) {
            Some(
                if c == '4' {
                    seq!['\\']
                } else if c == '5' {
                    seq![']']
                } else if c == '6' {
                    seq!['^']
                } else {
                    seq!['_']
                },
            )
        } else {
            Some(seq![c])
        },
        KeyCode::Enter => Some(seq!['R', 'e', 't', 'u', 'r', 'n']),
        KeyCode::Tab => Some(seq!['T', 'a', 'b']),
        KeyCode::BackTab => Some(seq!['T', 'a', 'b']),
        KeyCode::Esc => Some(seq!['E', 's', 'c', 'a', 'p', 'e']),
        KeyCode::Backspace => Some(seq!['B', 'a', 'c', 'k', 's', 'p', 'a', 'c', 'e']),
        KeyCode::Delete => Some(seq!['D', 'e', 'l', 'e', 't', 'e']),
        KeyCode::Up => Some(seq!['U', 'p']),
        KeyCode::Down => Some(seq!['D', 'o', 'w', 'n']),
        KeyCode::Left => Some(seq!['L', 'e', 'f', 't']),
        KeyCode::Right => Some(seq!['R', 'i', 'g', 'h', 't']),
        KeyCode::Home => Some(seq!['H', 'o', 'm', 'e']),
        KeyCode::End => Some(seq!['E', 'n', 'd']),
        KeyCode::PageUp => Some(seq!['P', 'a', 'g', 'e', 'U', 'p']),
        KeyCode::PageDown => Some(seq!['P', 'a', 'g', 'e', 'D', 'o', 'w', 'n']),
        KeyCode::F(n) => Some(seq!['F'] + decimal_chars(n as nat)),
        _ => None,
    }
}

/// The payload Lem is sent for a key event. Control, Alt and Super are
/// carried as `ctrl`, `meta` and `super`. Shift is carried only for named
/// syms: a one-character sym already has it folded in, as Lem's
/// `insertion-key-sym-p` expects. Back-tab is shift-tab whatever the
/// modifiers say.
pub open spec fn payload_for(event: KeyEvent) -> Option<
    (Seq<char>, bool, bool, bool, bool),
> {
    match key_sym(event.code, event.modifiers) {
        Some(sym) => Some(
            (
                sym,
                event.modifiers.has(KeyModifiers::CONTROL),
                event.modifiers.has(KeyModifiers::ALT),
                event.modifiers.has(KeyModifiers::SUPER),
                sym.len() != 1 && (event.modifiers.has(KeyModifiers::SHIFT) || event.code
                    == KeyCode::BackTab),
            ),
        ),
        None => None,
    }
}

pub open spec fn payload_view(p: KeyPayload) -> (Seq<char>, bool, bool, bool, bool) {
    (p.key@, p.ctrl, p.meta, p.super_, p.shift)
}

/// A string of one character.
fn char_string(c: char) -> (s: String)
    ensures
        s@ == seq![c],
{
    let mut s = String::new();
    push_char(&mut s, c);
    assert(s@ =~= seq![c]);
    s
}

/// Translate a key event, or `None` if Lem has no sym for it: an
/// unrecognised key forwarded as a bogus sym would be read by Lem as some
/// other binding, which is worse than being ignored.
pub fn convert(event: KeyEvent) -> (r: Option<KeyPayload>)
    ensures
        match r {
            Some(p) => payload_for(event) == Some(payload_view(p)),
            None => payload_for(event) is None,
        },
{
    let control = event.modifiers.contains(KeyModifiers::CONTROL);
    let (sym, is_insertion) = match event.code {
        KeyCode::Char(c) => {
            if c == ' ' {
                let s = String::from_str("Space");
                proof {
                    reveal_strlit("Space");
                    assert(s@ =~= seq!['S', 'p', 'a', 'c', 'e']);
                }
                (s, false)
            } else if '4' <= c && c <= '7' && control {
                let name = if c == '4' {
                    '\\'
                } else if c == '5' {
                    ']'
                } else if c == '6' {
                    '^'
                } else {
                    '_'
                };
                (char_string(name), true)
            } else {
                (char_string(c), true)
            }
        },
        KeyCode::Enter => {
            let s = String::from_str("Return");
            proof {
                reveal_strlit("Return");
                assert(s@ =~= seq!['R', 'e', 't', 'u', 'r', 'n']);
            }
            (s, false)
        },
        KeyCode::Tab | KeyCode::BackTab => {
            let s = String::from_str("Tab");
            proof {
                reveal_strlit("Tab");
                assert(s@ =~= seq!['T', 'a', 'b']);
            }
            (s, false)
        },
        KeyCode::Esc => {
            let s = String::from_str("Escape");
            proof {
                reveal_strlit("Escape");
                assert(s@ =~= seq!['E', 's', 'c', 'a', 'p', 'e']);
            }
            (s, false)
        },
        KeyCode::Backspace => {
            let s = String::from_str("Backspace");
            proof {
                reveal_strlit("Backspace");
                assert(s@ =~= seq!['B', 'a', 'c', 'k', 's', 'p', 'a', 'c', 'e']);
            }
            (s, false)
        },
        KeyCode::Delete => {
            let s = String::from_str("Delete");
            proof {
                reveal_strlit("Delete");
                assert(s@ =~= seq!['D', 'e', 'l', 'e', 't', 'e']);
            }
            (s, false)
        },
        KeyCode::Up => {
            let s = String::from_str("Up");
            proof {
                reveal_strlit("Up");
                assert(s@ =~= seq!['U', 'p']);
            }
            (s, false)
        },
        KeyCode::Down => {
            let s = String::from_str("Down");
            proof {
                reveal_strlit("Down");
                assert(s@ =~= seq!['D', 'o', 'w', 'n']);
            }
            (s, false)
        },
        KeyCode::Left => {
            let s = String::from_str("Left");
            proof {
                reveal_strlit("Left");
                assert(s@ =~= seq!['L', 'e', 'f', 't']);
            }
            (s, false)
        },
        KeyCode::Right => {
            let s = String::from_str("Right");
            proof {
                reveal_strlit("Right");
                assert(s@ =~= seq!['R', 'i', 'g', 'h', 't']);
            }
            (s, false)
        },
        KeyCode::Home => {
            let s = String::from_str("Home");
            proof {
                reveal_strlit("Home");
                assert(s@ =~= seq!['H', 'o', 'm', 'e']);
            }
            (s, false)
        },
        KeyCode::End => {
            let s = String::from_str("End");
            proof {
                reveal_strlit("End");
                assert(s@ =~= seq!['E', 'n', 'd']);
            }
            (s, false)
        },
        KeyCode::PageUp => {
            let s = String::from_str("PageUp");
            proof {
                reveal_strlit("PageUp");
                assert(s@ =~= seq!['P', 'a', 'g', 'e', 'U', 'p']);
            }
            (s, false)
        },
        KeyCode::PageDown => {
            let s = String::from_str("PageDown");
            proof {
                reveal_strlit("PageDown");
                assert(s@ =~= seq!['P', 'a', 'g', 'e', 'D', 'o', 'w', 'n']);
            }
            (s, false)
        },
        KeyCode::F(n) => {
            let mut s = char_string('F');
            push_decimal_str(&mut s, n as u128);
            proof {
                crate::decimal::lemma_decimal(n as nat);
                assert(s@.len() >= 2);
            }
            (s, false)
        },
        _ => {
            return None;
        },
    };
    let shift = !is_insertion && (event.modifiers.contains(KeyModifiers::SHIFT) || match event.code {
        KeyCode::BackTab => true,
        _ => false,
    });
    Some(
        KeyPayload {
            ctrl: control,
            meta: event.modifiers.contains(KeyModifiers::ALT),
            super_: event.modifiers.contains(KeyModifiers::SUPER),
            shift,
            key: sym,
        },
    )
}

/// What is carried of a key's modifiers: `ctrl` is Control, `meta` is
/// Alt and `super` is Super, for every key Lem has a sym for. Shift is
/// carried only for a sym longer than one character, and then whenever
/// Shift is held or the key is back-tab. A character key always has a
/// sym, and it is the character itself unless it is a space (`Space`) or
/// Control with a digit from 4 to 7.
pub proof fn lemma_key_payload_flags(event: KeyEvent)
    ensures
        match payload_for(event) {
            Some((sym, ctrl, meta, sup, shift)) => {
                &&& sym.len() > 0
                &&& ctrl == event.modifiers.has(KeyModifiers::CONTROL)
                &&& meta == event.modifiers.has(KeyModifiers::ALT)
                &&& sup == event.modifiers.has(KeyModifiers::SUPER)
                &&& sym.len() == 1 ==> !shift
                &&& sym.len() != 1 ==> (shift <==> (event.modifiers.has(KeyModifiers::SHIFT)
                    || event.code == KeyCode::BackTab))
            },
            None => !(event.code is Char),
        },
        forall|c: char|
            event.code == KeyCode::Char(c) && c != ' ' && !('4' <= c <= '7'
                && event.modifiers.has(KeyModifiers::CONTROL)) ==> match payload_for(event) {
                Some(p) => p.0 == seq![c],
                None => false,
            },
        event.code == KeyCode::Char(' ') ==> match payload_for(event) {
            Some(p) => p.0 == seq!['S', 'p', 'a', 'c', 'e'],
            None => false,
        },
{
    match event.code {
        KeyCode::F(n) => {
            crate::decimal::lemma_decimal(n as nat);
        },
        _ => {},
    }
}

} // verus!
