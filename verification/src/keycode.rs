//! Key presses as a frontend reports them: a key of a standard keyboard and
//! the modifiers that were held.

use vstd::prelude::*;

verus! {

/// A modifier key.
#[derive(Debug, Clone, Copy, PartialEq, Eq, Structural)]
pub enum Modifier {
    Ctrl,
    Alt,
    Shift,
    Win,
}

/// Any relevant letter, symbol or navigation key on a standard keyboard.
#[derive(Debug, Clone, Copy, PartialEq, Eq, Structural)]
pub enum Key {
    Char(char),
    F1,
    F2,
    F3,
    F4,
    F5,
    F6,
    F7,
    F8,
    F9,
    F10,
    F11,
    F12,
    Backspace,
    Return,
    Tab,
    Home,
    End,
    Insert,
    Delete,
    PageUp,
    PageDown,
    Escape,
    Left,
    Right,
    Up,
    Down,
}

impl Key {
    /// The character of a character key.
    pub fn try_as_char(&self) -> (c: Option<char>)
        ensures
            c == match *self {
                Key::Char(c) => Some(c),
                _ => None,
            },
    {
        match self {
            Self::Char(c) => Some(*c),
            _ => None,
        }
    }
}

/// A combination of held modifiers and a key.
#[derive(Debug, PartialEq, Eq)]
pub struct KeyInput {
    pub modifiers: Vec<Modifier>,
    pub key: Key,
}

impl KeyInput {
    /// Whether `modifier` is among the held modifiers.
    pub fn held(&self, modifier: Modifier) -> (b: bool)
        ensures
            b == self.modifiers@.contains(modifier),
    {
        let mut i: usize = 0;
        while i < self.modifiers.len()
            invariant
                i <= self.modifiers.len(),
                forall|k: int| 0 <= k < i ==> self.modifiers@[k] != modifier,
            decreases self.modifiers.len() - i,
        {
            if self.modifiers[i] == modifier {
                return true;
            }
            i += 1;
        }
        false
    }

    pub fn shift_held(&self) -> (b: bool)
        ensures
            b == self.modifiers@.contains(Modifier::Shift),
    {
        self.held(Modifier::Shift)
    }

    pub fn ctrl_held(&self) -> (b: bool)
        ensures
            b == self.modifiers@.contains(Modifier::Ctrl),
    {
        self.held(Modifier::Ctrl)
    }

    pub fn alt_held(&self) -> (b: bool)
        ensures
            b == self.modifiers@.contains(Modifier::Alt),
    {
        self.held(Modifier::Alt)
    }

    pub fn win_held(&self) -> (b: bool)
        ensures
            b == self.modifiers@.contains(Modifier::Win),
    {
        self.held(Modifier::Win)
    }
}

} // verus!
