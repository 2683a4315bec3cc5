//! What a frontend is told of a view.

use vstd::prelude::*;

verus! {

/// Absolute position within a document.
#[derive(Debug, Clone, Copy, PartialEq, Eq, Structural)]
pub struct Coordinate {
    pub line: usize,
    pub col: usize,
}

/// A region (a selection, a caret) defined by two absolute coordinates.
#[derive(Debug, Clone, Copy, PartialEq, Eq, Structural)]
pub struct CoordinateRegion {
    pub head: Coordinate,
    pub tail: Coordinate,
}

/// The visible state of a view.
#[derive(Debug, Clone, PartialEq, Eq)]
pub struct ViewData {
    pub first_line: usize,
    pub text: Vec<String>,
    /// Caret positions are absolute.
    pub carets: Vec<CoordinateRegion>,
    pub vim_mode: String,
}

} // verus!
