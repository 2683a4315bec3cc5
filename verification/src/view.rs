//! The part of a buffer that a client shows.

use vstd::prelude::*;

verus! {

/// Information about which part of a buffer is visible to the client. Only
/// the vertical position and the height are considered.
#[derive(Debug, Copy, Clone, PartialEq, Eq, Structural)]
pub struct Viewport {
    /// Index of the first line shown in the viewport.
    pub first_line: usize,
    /// Number of lines shown in the viewport.
    pub height: usize,
}

impl Viewport {
    /// The last line shown in the viewport.
    pub open spec fn spec_last_line(self) -> int {
        if self.first_line + self.height == 0 {
            0
        } else {
            self.first_line + self.height - 1
        }
    }

    /// The first line of the viewport once `line_nr` was scrolled into view
    /// with `scroll_off` lines to spare towards the edges.
    pub open spec fn scrolled_first_line(self, line_nr: usize, scroll_off: usize) -> int {
        if line_nr < self.first_line + scroll_off {
            if line_nr >= scroll_off {
                line_nr - scroll_off
            } else {
                0
            }
        } else if self.scrolls_down(line_nr, scroll_off) {
            if line_nr + scroll_off >= self.height - 1 {
                line_nr + scroll_off - (self.height - 1)
            } else {
                0
            }
        } else {
            self.first_line as int
        }
    }

    /// `line_nr` lies too close to the lower edge, or below it.
    pub open spec fn scrolls_down(self, line_nr: usize, scroll_off: usize) -> bool {
        line_nr >= self.first_line + scroll_off && line_nr > if self.spec_last_line()
            >= scroll_off {
            self.spec_last_line() - scroll_off
        } else {
            0
        }
    }

    pub fn new(first_line: usize, height: usize) -> (vp: Self)
        ensures
            vp == (Viewport { first_line, height }),
    {
        Self { first_line, height }
    }

    /// A viewport starting at line 0 and going down 100 million lines.
    pub fn new_ginormeous() -> (vp: Self)
        ensures
            vp == (Viewport { first_line: 0, height: 100_000_000 }),
    {
        Self { first_line: 0, height: 100_000_000 }
    }

    /// The last line shown in the viewport.
    pub fn last_line(&self) -> (line: usize)
        requires
            self.first_line + self.height <= usize::MAX,
        ensures
            line == self.spec_last_line(),
    {
        (self.first_line + self.height).saturating_sub(1)
    }

    /// Move the viewport such that `line_nr` is in view, and attempt to keep
    /// it a minimum of `scroll_off` lines from the viewport edges as long as
    /// that does not move past the start of the file.
    pub fn with_line_in_view(&self, line_nr: usize, scroll_off: usize) -> (vp: Self)
        requires
            self.first_line + self.height <= usize::MAX,
            self.first_line + scroll_off <= usize::MAX,
            self.scrolls_down(line_nr, scroll_off) ==> self.height > 0 && line_nr + scroll_off
                <= usize::MAX,
        ensures
            vp.height == self.height,
            vp.first_line == self.scrolled_first_line(line_nr, scroll_off),
    {
        let mut vp = *self;
        vp.first_line = if line_nr < vp.first_line + scroll_off {
            line_nr.saturating_sub(scroll_off)
        } else if line_nr > vp.last_line().saturating_sub(scroll_off) {
            let new_last_line: usize = line_nr + scroll_off;
            new_last_line.saturating_sub(vp.height - 1)
        } else {
            vp.first_line
        };
        vp
    }
}

} // verus!
