//! User-level operations that can be performed on a buffer: edits and
//! movements. They occur at the caret positions.

use crate::word_boundary::WordBoundaryType;
use vstd::prelude::*;

verus! {

/// Category of an edit, used for grouping operations into undo groups.
#[derive(Debug, Clone, Copy, PartialEq, Eq, Structural)]
pub enum EditType {
    Insert,
    Delete,
    Replace,
    /// Catch-all type for any operation that shouldn't be grouped at all.
    Other,
}

/// The direction in which an edit reaches out from a caret.
#[derive(Debug, Clone, Copy, PartialEq, Eq, Structural)]
pub enum Trajectory {
    Forwards,
    Backwards,
}

/// A motion, either character-wise or defined by some higher-level semantic
/// target.
#[derive(Debug, Clone, Copy, PartialEq, Eq, Structural)]
pub enum Motion {
    Left,
    Right,
    Up,
    Down,
    StartOfLine,
    EndOfLine,
    TopOfViewport,
    BottomOfViewport,
    NextWordBoundary(WordBoundaryType),
    PrevWordBoundary(WordBoundaryType),
}

/// An operation on a buffer.
#[derive(Debug, Clone)]
pub enum BufferOp {
    /// Replace what every caret spans by the text.
    Insert(String),
    /// Delete one character before or behind every caret.
    Delete(Trajectory),
    Undo,
    Redo,
    /// Delete what every caret spans.
    DeleteSelected,
    /// Move every caret, collapsing selections.
    Move(Motion),
    /// Expand or change the selections: move the head of every caret.
    Selection(Motion),
    /// Create a new caret at the location that the motion takes the primary
    /// caret to.
    NewCaret(Motion),
}

/// An operation on a document as a whole.
#[derive(Debug, Clone, Copy, PartialEq, Eq, Structural)]
pub enum DocumentOp {
    /// Write the document to its file.
    Save,
}

/// Anything a key press can ask for.
#[derive(Debug, Clone)]
pub enum Operation {
    Buffer(BufferOp),
    Document(DocumentOp),
}

} // verus!
