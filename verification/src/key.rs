//! Key events.

use vstd::prelude::*;

verus! {

/// A key, as the keyboard names it.
#[allow(non_camel_case_types)]
#[derive(Clone, Copy, PartialEq, Eq, Structural, Debug)]
pub enum Keysym {
    RETURN,
    ESCAPE,
    SPACE,
    TAB,
    ISO_LEFT_TAB,
    UP,
    DOWN,
    LEFT,
    RIGHT,
    HOME,
    END,
    PAGE_UP,
    PAGE_DOWN,
    DELETE,
    BACKSPACE,
    F6,
    F7,
    F8,
    F9,
    F10,
    MUHENKAN,
    /// A key that types a character.
    Character(char),
    /// Any other key, by its code.
    Other(u32),
}

impl Keysym {
    /// The number on a digit key from 1 to 9.
    pub open spec fn digit(self) -> Option<int> {
        match self {
            Keysym::Character(c) => if '1' <= c <= '9' {
                Some(c as int - '0' as int)
            } else {
                None
            },
            _ => None,
        }
    }

    /// The number on a digit key from 1 to 9, if this is one.
    pub fn digit_value(&self) -> (digit: Option<usize>)
        ensures
            match digit {
                Some(d) => self.digit() == Some(d as int) && 1 <= d <= 9,
                None => self.digit() is None,
            },
    {
        match *self {
            Keysym::Character(c) => if '1' <= c && c <= '9' {
                let code: u32 = c as u32;
                Some((code - 48) as usize)
            } else {
                None
            },
            _ => None,
        }
    }
}

/// The modifier keys held during a key event.
#[derive(Clone, Copy, PartialEq, Eq, Structural, Debug)]
pub struct Modifiers {
    pub shift_key: bool,
    pub control_key: bool,
    pub alt_key: bool,
}

/// A key press.
#[derive(Clone, Copy, PartialEq, Eq, Structural, Debug)]
pub struct KeyEvent {
    pub keysym: Keysym,
    pub modifiers: Modifiers,
}

/// Whether `c` can stand in a text: it is no control character.
pub open spec fn is_printable(c: char) -> bool {
    c as u32 >= 0x20 && c as u32 != 0x7f
}

impl KeyEvent {
    /// The printable character that the key types.
    pub open spec fn typed(self) -> Option<char> {
        match self.keysym {
            Keysym::Character(c) => if is_printable(c) {
                Some(c)
            } else {
                None
            },
            Keysym::SPACE => Some(' '),
            _ => None,
        }
    }

    /// The printable character that the key types, if it types one.
    pub fn to_char(&self) -> (c: Option<char>)
        ensures
            c == self.typed(),
    {
        match self.keysym {
            Keysym::Character(c) => {
                let code: u32 = c as u32;
                if code >= 0x20 && code != 0x7f {
                    Some(c)
                } else {
                    None
                }
            },
            Keysym::SPACE => Some(' '),
            _ => None,
        }
    }
}

} // verus!
