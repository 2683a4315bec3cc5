//! Positions in a text by line and column, and their offsets.

use crate::text::is_boundary;
use crate::text::last_line;
use crate::text::lemma_line_start_before;
use crate::text::line_of;
use crate::text::line_start;
use crate::text::prev_grapheme_boundary;
use crate::text::snapped;
use crate::text::Text;
use vstd::prelude::*;

verus! {

/// Position in a text by its line and column, both counted from 0. The
/// column counts the bytes from the start of the line.
#[derive(Debug, Clone, Copy, PartialEq, Eq, Structural)]
pub struct Position {
    pub line: usize,
    pub col: usize,
}

/// The start of the grapheme that the byte behind `offset` belongs to; the
/// end of the text for an offset at the end or behind it.
pub open spec fn grapheme_start(bytes: Seq<u8>, offset: int) -> int {
    if offset >= bytes.len() {
        bytes.len() as int
    } else {
        match prev_grapheme_boundary(bytes, (offset + 1) as usize) {
            Some(start) => start as int,
            None => 0,
        }
    }
}

impl Position {
    /// The position of `offset` in a text.
    pub open spec fn of_offset(bytes: Seq<u8>, offset: int) -> Position {
        Position {
            line: line_of(bytes, offset) as usize,
            col: (offset - line_start(bytes, line_of(bytes, offset))) as usize,
        }
    }

    /// The offset that lies `col` bytes behind the start of line `line`.
    pub open spec fn naive_offset(self, bytes: Seq<u8>) -> int {
        line_start(bytes, self.line as nat) + self.col
    }

    /// The position names a point of the text: its line exists, and its
    /// column lies in that line or at its end.
    pub open spec fn addresses(self, bytes: Seq<u8>) -> bool {
        &&& self.line <= last_line(bytes)
        &&& self.naive_offset(bytes) <= bytes.len()
        &&& (self.line == last_line(bytes) || self.naive_offset(bytes) < line_start(
            bytes,
            (self.line + 1) as nat,
        ))
    }

    /// The offset of the position: the start of the grapheme that it points
    /// into. None where the position names no point of the text.
    pub open spec fn offset_in(self, bytes: Seq<u8>) -> Option<usize> {
        if self.addresses(bytes) {
            Some(grapheme_start(bytes, self.naive_offset(bytes)) as usize)
        } else {
            None
        }
    }

    /// The position moved up to the last line where it lies below the text.
    pub open spec fn clamped_line(self, bytes: Seq<u8>) -> nat {
        if self.line <= last_line(bytes) {
            self.line as nat
        } else {
            last_line(bytes)
        }
    }

    /// The offset nearest to the position: in the last line where the
    /// position lies below the text, at the end of the line where the column
    /// lies behind it, and at the start of a grapheme.
    pub open spec fn snapped_offset(self, bytes: Seq<u8>) -> int {
        let line = self.clamped_line(bytes);
        let naive = grapheme_start(bytes, line_start(bytes, line) + self.col);
        if line == last_line(bytes) {
            naive
        } else {
            let next = line_start(bytes, line + 1);
            if naive < next {
                naive
            } else {
                match prev_grapheme_boundary(bytes, next as usize) {
                    Some(end) => end as int,
                    None => naive,
                }
            }
        }
    }

    /// The offset that a position names lies at that position: turning a
    /// position that names a point of the text into an offset and back
    /// gives the position.
    pub proof fn lemma_round_trip(self, bytes: Seq<u8>)
        requires
            self.addresses(bytes),
            bytes.len() <= usize::MAX,
        ensures
            0 <= self.naive_offset(bytes) <= bytes.len(),
            Self::of_offset(bytes, self.naive_offset(bytes)) == self,
    {
        crate::text::lemma_line_start(bytes, self.line as nat);
        crate::text::lemma_line_of_between(bytes, self.naive_offset(bytes), self.line as nat);
    }

    pub fn new(line: usize, col: usize) -> (p: Self)
        ensures
            p == (Position { line, col }),
    {
        Self { line, col }
    }

    /// Get the position of a given offset in a text. None if the offset is
    /// outside the bounds of the text, or inside a code point; the length
    /// of the text is an offset of it.
    pub fn from_offset(text: &Text, offset: usize) -> (p: Option<Self>)
        ensures
            p == if is_boundary(text@, offset as int) {
                Some(Self::of_offset(text@, offset as int))
            } else {
                None
            },
    {
        if offset > text.len() || !text.is_codepoint_boundary(offset) {
            None
        } else {
            let line: usize = text.line_of_offset(offset);
            proof {
                lemma_line_start_before(text@, offset as int);
            }
            let col: usize = offset - text.offset_of_line(line);
            Some(Position { line, col })
        }
    }

    /// Get the position of a given offset in a text: that of the end of the
    /// text for an offset behind it, and that of the start of the code
    /// point for an offset inside one.
    pub fn from_offset_snapping(text: &Text, offset: usize) -> (p: Self)
        ensures
            p == Self::of_offset(text@, snapped(text@, offset) as int),
    {
        let offset: usize = text.snap_offset(offset);
        let line: usize = text.line_of_offset(offset);
        proof {
            lemma_line_start_before(text@, offset as int);
        }
        let col: usize = offset - text.offset_of_line(line);
        Position { line, col }
    }

    /// The offset that line and column name, before it is moved to the start
    /// of a grapheme. None where the line lies below the text or the column
    /// behind the end of the line.
    pub fn naive_offset_in(self, text: &Text) -> (naive: Option<usize>)
        ensures
            naive == if self.addresses(text@) {
                Some(self.naive_offset(text@) as usize)
            } else {
                None
            },
            naive matches Some(n) ==> n == self.naive_offset(text@) && n <= text@.len(),
    {
        let last_line: usize = text.last_line();
        if self.line > last_line {
            return None;
        }
        let len: usize = text.len();
        let line_offset: usize = text.offset_of_line(self.line);
        if self.col > len - line_offset {
            return None;
        }
        let naive_offset: usize = line_offset + self.col;
        if self.line == last_line || naive_offset < text.offset_of_line(self.line + 1) {
            Some(naive_offset)
        } else {
            None
        }
    }

    /// Turn a position into an offset at that point. None if there is no
    /// character at that point. A position at the exact end of the text
    /// yields the length of the text, which is an offset though no index.
    pub fn to_offset(self, text: &Text) -> (offset: Option<usize>)
        ensures
            offset == self.offset_in(text@),
            offset matches Some(o) ==> is_boundary(text@, o as int),
    {
        match self.naive_offset_in(text) {
            None => None,
            Some(naive_offset) => {
                if naive_offset == text.len() {
                    Some(naive_offset)
                } else {
                    // Snap the naive offset to the start of the grapheme it's in
                    match text.prev_grapheme_offset(naive_offset + 1) {
                        Some(start) => Some(start),
                        None => Some(0),
                    }
                }
            },
        }
    }

    /// Turn a position into an offset at that point, snapping to the end of
    /// the line if the column is further than the line is long, and to the
    /// last line if the position is in a line that doesn't exist.
    pub fn to_offset_snapping(self, text: &Text) -> (offset: usize)
        ensures
            offset == self.snapped_offset(text@),
            is_boundary(text@, offset as int),
    {
        let last_line: usize = text.last_line();
        let line: usize = if self.line <= last_line { self.line } else { last_line };
        let line_offset: usize = text.offset_of_line(line);
        let len: usize = text.len();
        let naive_offset: usize = if self.col >= len - line_offset {
            // at the end of the text, or behind it
            len
        } else {
            match text.prev_grapheme_offset(line_offset + self.col + 1) {
                Some(start) => start,
                None => 0,
            }
        };
        // restrict the offset to at most the end of the given line
        if line == last_line {
            naive_offset
        } else {
            let next_line_offset: usize = text.offset_of_line(line + 1);
            if naive_offset < next_line_offset {
                naive_offset
            } else {
                match text.prev_grapheme_offset(next_line_offset) {
                    Some(end) => end,
                    None => naive_offset,
                }
            }
        }
    }

    pub fn with_line(self, line: usize) -> (p: Self)
        ensures
            p == (Position { line, ..self }),
    {
        Self { line, ..self }
    }

    pub fn with_col(self, col: usize) -> (p: Self)
        ensures
            p == (Position { col, ..self }),
    {
        Self { col, ..self }
    }
}

} // verus!
