//! Map key inputs to operations on a buffer or a document.

use crate::keycode::Key;
use crate::keycode::KeyInput;
use crate::keycode::Modifier;
use crate::user_buffer_op::BufferOp;
use crate::user_buffer_op::DocumentOp;
use crate::user_buffer_op::Motion;
use crate::user_buffer_op::Operation;
use crate::user_buffer_op::Trajectory;
use crate::word_boundary::WordBoundaryType;
use vstd::prelude::*;

verus! {

/// `String::from` of std for a character: the string of that one character.
#[verifier::external_body]
fn string_of_char(c: char) -> (s: String)
    ensures
        s@ == seq![c],
{
    String::from(c)
}

/// The lowercase form of an ASCII capital letter, and any other character
/// as it is.
pub open spec fn ascii_lowercase(c: char) -> char {
    if 'A' <= c && c <= 'Z' {
        ((c as u8) + 32) as char
    } else {
        c
    }
}

/// The motion of a movement key.
pub open spec fn motion_of_key(ctrl_held: bool, key: Key) -> Option<Motion> {
    match key {
        Key::Right => Some(
            if ctrl_held {
                Motion::NextWordBoundary(WordBoundaryType::Start)
            } else {
                Motion::Right
            },
        ),
        Key::Left => Some(
            if ctrl_held {
                Motion::PrevWordBoundary(WordBoundaryType::Start)
            } else {
                Motion::Left
            },
        ),
        Key::Up => Some(Motion::Up),
        Key::Down => Some(Motion::Down),
        Key::Home => Some(Motion::StartOfLine),
        Key::End => Some(Motion::EndOfLine),
        _ => None,
    }
}

/// What a key press asks for.
#[derive(Debug, Clone, Copy, PartialEq, Eq, Structural)]
pub enum Meaning {
    Undo,
    Redo,
    Save,
    /// Type a character.
    Type(char),
    Delete(Trajectory),
    Move(Motion),
    Select(Motion),
    NewCaret(Motion),
}

/// What a key press means: with control, `z`, `y` and `s` undo, redo and
/// save, and other characters mean nothing; a character types itself, in
/// lowercase where shift is held; backspace and delete remove a character;
/// return and tab type a line feed and a tab; a movement key selects with
/// shift, adds a caret with alt, and moves otherwise.
pub open spec fn meaning(input: KeyInput) -> Option<Meaning> {
    let ctrl = input.modifiers@.contains(Modifier::Ctrl);
    let shift = input.modifiers@.contains(Modifier::Shift);
    let alt = input.modifiers@.contains(Modifier::Alt);
    match input.key {
        Key::Char(c) => if ctrl {
            if c == 'z' {
                Some(Meaning::Undo)
            } else if c == 'y' {
                Some(Meaning::Redo)
            } else if c == 's' {
                Some(Meaning::Save)
            } else {
                None
            }
        } else if shift {
            Some(Meaning::Type(ascii_lowercase(c)))
        } else {
            Some(Meaning::Type(c))
        },
        Key::Backspace => Some(Meaning::Delete(Trajectory::Backwards)),
        Key::Delete => Some(Meaning::Delete(Trajectory::Forwards)),
        Key::Return => Some(Meaning::Type('\n')),
        Key::Tab => Some(Meaning::Type('\t')),
        key => match motion_of_key(ctrl, key) {
            Some(motion) => Some(
                if shift {
                    Meaning::Select(motion)
                } else if alt {
                    Meaning::NewCaret(motion)
                } else {
                    Meaning::Move(motion)
                },
            ),
            None => None,
        },
    }
}

/// Whether an operation does what a key press means.
pub open spec fn carries_out(operation: Operation, meaning: Meaning) -> bool {
    match (operation, meaning) {
        (Operation::Buffer(BufferOp::Undo), Meaning::Undo) => true,
        (Operation::Buffer(BufferOp::Redo), Meaning::Redo) => true,
        (Operation::Document(DocumentOp::Save), Meaning::Save) => true,
        (Operation::Buffer(BufferOp::Insert(text)), Meaning::Type(c)) => text@ == seq![c],
        (Operation::Buffer(BufferOp::Delete(a)), Meaning::Delete(b)) => a == b,
        (Operation::Buffer(BufferOp::Move(a)), Meaning::Move(b)) => a == b,
        (Operation::Buffer(BufferOp::Selection(a)), Meaning::Select(b)) => a == b,
        (Operation::Buffer(BufferOp::NewCaret(a)), Meaning::NewCaret(b)) => a == b,
        _ => false,
    }
}

/// The operation that a key press asks for, if it asks for one.
pub fn interpret_key_input(input: &KeyInput) -> (operation: Option<Operation>)
    ensures
        match operation {
            Some(operation) => meaning(*input).is_some() && carries_out(
                operation,
                meaning(*input)->0,
            ),
            None => meaning(*input).is_none(),
        },
{
    Some(
        match input.key {
            Key::Char(c) => {
                if input.ctrl_held() {
                    if c == 'z' {
                        Operation::Buffer(BufferOp::Undo)
                    } else if c == 'y' {
                        Operation::Buffer(BufferOp::Redo)
                    } else if c == 's' {
                        Operation::Document(DocumentOp::Save)
                    } else {
                        return None;
                    }
                } else if input.shift_held() {
                    Operation::Buffer(BufferOp::Insert(string_of_char(to_ascii_lowercase(c))))
                } else {
                    Operation::Buffer(BufferOp::Insert(string_of_char(c)))
                }
            },
            Key::Backspace => Operation::Buffer(BufferOp::Delete(Trajectory::Backwards)),
            Key::Delete => Operation::Buffer(BufferOp::Delete(Trajectory::Forwards)),
            Key::Return => Operation::Buffer(BufferOp::Insert(string_of_char('\n'))),
            Key::Tab => Operation::Buffer(BufferOp::Insert(string_of_char('\t'))),
            key => match key_to_motion(input.ctrl_held(), &key) {
                Some(motion) => {
                    if input.shift_held() {
                        Operation::Buffer(BufferOp::Selection(motion))
                    } else if input.alt_held() {
                        Operation::Buffer(BufferOp::NewCaret(motion))
                    } else {
                        Operation::Buffer(BufferOp::Move(motion))
                    }
                },
                None => {
                    return None;
                },
            },
        },
    )
}

/// The lowercase form of an ASCII capital letter, and any other character
/// as it is.
pub fn to_ascii_lowercase(c: char) -> (lower: char)
    ensures
        lower == ascii_lowercase(c),
{
    if 'A' <= c && c <= 'Z' {
        ((c as u8) + 32) as char
    } else {
        c
    }
}

/// Map a movement key into the corresponding motion.
pub fn key_to_motion(ctrl_held: bool, key: &Key) -> (motion: Option<Motion>)
    ensures
        motion == motion_of_key(ctrl_held, *key),
{
    match key {
        Key::Right => Some(
            if ctrl_held {
                Motion::NextWordBoundary(WordBoundaryType::Start)
            } else {
                Motion::Right
            },
        ),
        Key::Left => Some(
            if ctrl_held {
                Motion::PrevWordBoundary(WordBoundaryType::Start)
            } else {
                Motion::Left
            },
        ),
        Key::Up => Some(Motion::Up),
        Key::Down => Some(Motion::Down),
        Key::Home => Some(Motion::StartOfLine),
        Key::End => Some(Motion::EndOfLine),
        _ => None,
    }
}

} // verus!
