//! Resolving motions: where a region ends up when it is moved.

use crate::position::grapheme_start;
use crate::position::Position;
use crate::region::Region;
use crate::text::is_boundary;
use crate::text::last_line;
use crate::text::line_of;
use crate::text::line_start;
use crate::text::next_grapheme_boundary;
use crate::text::prev_grapheme_boundary;
use crate::text::Text;
use crate::user_buffer_op::Motion;
use crate::view::Viewport;
use crate::word_boundary::first_match;
use crate::word_boundary::next_word_boundary;
use crate::word_boundary::prev_word_boundary;
use crate::word_boundary::word_boundaries;
use crate::word_boundary::word_boundaries_backwards;
use vstd::prelude::*;

verus! {

/// The column that a vertical motion of the region aims for: the one it
/// remembers, or else the one its head is in.
pub open spec fn desired_column(bytes: Seq<u8>, region: Region) -> usize {
    match region.preferred_column {
        Some(column) => column,
        None => Position::of_offset(bytes, region.head as int).col,
    }
}

/// The line that a vertical motion aims for, before it is held to the lines
/// of the text.
pub open spec fn aimed_line(bytes: Seq<u8>, vp: Viewport, region: Region, motion: Motion) -> int {
    let line = line_of(bytes, region.head as int) as int;
    match motion {
        Motion::Up => if line > 0 {
            line - 1
        } else {
            0
        },
        Motion::Down => line + 1,
        Motion::TopOfViewport => vp.first_line as int,
        _ => vp.spec_last_line(),
    }
}

/// The region after a vertical motion to line `target_line`, held to the
/// lines of the text. The head lands in the desired column, or at the end of
/// the line where that is shorter; in the line it is in already it does not
/// move. The region remembers the desired column.
pub open spec fn moved_vertically(
    bytes: Seq<u8>,
    region: Region,
    target_line: int,
    only_move_head: bool,
) -> Region {
    let column = desired_column(bytes, region);
    let line = if target_line <= last_line(bytes) {
        target_line
    } else {
        last_line(bytes) as int
    };
    let offset = if line != line_of(bytes, region.head as int) {
        (Position { line: line as usize, col: column }).snapped_offset(bytes) as usize
    } else {
        region.head
    };
    Region {
        head: offset,
        tail: if only_move_head {
            region.tail
        } else {
            offset
        },
        stickyness: region.stickyness,
        preferred_column: Some(column),
    }
}

/// Where a motion that is not vertical takes the head of a region.
pub open spec fn horizontal_target(bytes: Seq<u8>, region: Region, motion: Motion) -> int {
    let line = line_of(bytes, region.head as int);
    match motion {
        Motion::Left => match prev_grapheme_boundary(bytes, region.head) {
            Some(offset) => offset as int,
            None => region.head as int,
        },
        Motion::Right => match next_grapheme_boundary(bytes, region.head) {
            Some(offset) => offset as int,
            None => region.head as int,
        },
        Motion::StartOfLine => line_start(bytes, line),
        Motion::EndOfLine => line_start(bytes, line + 1),
        Motion::NextWordBoundary(kind) => match first_match(
            word_boundaries(bytes, region.head as int),
            kind,
        ) {
            Some(offset) => offset as int,
            None => bytes.len() as int,
        },
        Motion::PrevWordBoundary(kind) => match first_match(
            word_boundaries_backwards(bytes, region.head as int),
            kind,
        ) {
            Some(offset) => offset as int,
            None => 0,
        },
        _ => region.head as int,
    }
}

/// Whether a motion moves by lines.
pub open spec fn is_vertical(motion: Motion) -> bool {
    motion == Motion::Up || motion == Motion::Down || motion == Motion::TopOfViewport || motion
        == Motion::BottomOfViewport
}

/// The region after a motion. Its head is where the motion leads; its tail
/// stays where `only_move_head` is set, and follows the head otherwise. A
/// vertical motion remembers the column it aimed for, any other motion
/// forgets it.
pub open spec fn moved(
    bytes: Seq<u8>,
    vp: Viewport,
    region: Region,
    only_move_head: bool,
    motion: Motion,
) -> Region {
    if is_vertical(motion) {
        moved_vertically(bytes, region, aimed_line(bytes, vp, region, motion), only_move_head)
    } else {
        let offset = horizontal_target(bytes, region, motion) as usize;
        Region {
            head: offset,
            tail: if only_move_head {
                region.tail
            } else {
                offset
            },
            stickyness: region.stickyness,
            preferred_column: None,
        }
    }
}

/// What a motion asks of the text and the region it moves: the head lies on
/// a code point boundary of the text, and the lines of the viewport can be
/// counted.
pub open spec fn can_move(bytes: Seq<u8>, vp: Viewport, region: Region) -> bool {
    &&& is_boundary(bytes, region.head as int)
    &&& vp.first_line + vp.height <= usize::MAX
}

/// Apply a given motion to a region. If `only_move_head` is false, the tail
/// of the region gets set to the new head, collapsing it into a cursor.
///
/// May result in a region at the end of the text.
pub fn apply_motion_to_region(
    text: &Text,
    vp: &Viewport,
    region: Region,
    only_move_head: bool,
    motion: Motion,
) -> (out: Region)
    requires
        can_move(text@, *vp, region),
    ensures
        out == moved(text@, *vp, region, only_move_head, motion),
        is_boundary(text@, out.head as int),
        out.tail == if only_move_head {
            region.tail
        } else {
            out.head
        },
{
    let offset: usize = match motion {
        Motion::Left => match text.prev_grapheme_offset(region.head) {
            Some(offset) => offset,
            None => region.head,
        },
        Motion::Right => match text.next_grapheme_offset(region.head) {
            Some(offset) => offset,
            None => region.head,
        },
        Motion::StartOfLine => text.offset_of_line(text.line_of_offset(region.head)),
        Motion::EndOfLine => {
            let line: usize = text.line_of_offset(region.head);
            let last_line: usize = text.last_line();
            if line < last_line {
                text.offset_of_line(line + 1)
            } else {
                text.len()
            }
        },
        Motion::NextWordBoundary(kind) => next_word_boundary(text, region.head, kind),
        Motion::PrevWordBoundary(kind) => prev_word_boundary(text, region.head, kind),
        Motion::Up => {
            let line: usize = text.line_of_offset(region.head);
            return move_vertically(text, region, line.saturating_sub(1), only_move_head);
        },
        Motion::Down => {
            let line: usize = text.line_of_offset(region.head);
            let last_line: usize = text.last_line();
            let target: usize = if line < last_line { line + 1 } else { last_line };
            return move_vertically(text, region, target, only_move_head);
        },
        Motion::TopOfViewport => {
            return move_vertically(text, region, vp.first_line, only_move_head);
        },
        Motion::BottomOfViewport => {
            return move_vertically(text, region, vp.last_line(), only_move_head);
        },
    };
    Region {
        head: offset,
        tail: if only_move_head { region.tail } else { offset },
        stickyness: region.stickyness,
        preferred_column: None,
    }
}

/// Move a region vertically to a given line, or to the last line where the
/// text ends before it. Preserves all other attributes of the region.
pub fn move_vertically(text: &Text, region: Region, target_line: usize, only_move_head: bool) -> (out:
    Region)
    requires
        is_boundary(text@, region.head as int),
    ensures
        out == moved_vertically(
            text@,
            region,
            if target_line <= last_line(text@) {
                target_line as int
            } else {
                last_line(text@) as int
            },
            only_move_head,
        ),
        is_boundary(text@, out.head as int),
        out.tail == if only_move_head {
            region.tail
        } else {
            out.head
        },
{
    let current_line: usize = text.line_of_offset(region.head);
    let column: usize = match region.preferred_column {
        Some(column) => column,
        None => {
            proof {
                crate::text::lemma_line_start_before(text@, region.head as int);
            }
            region.head - text.offset_of_line(current_line)
        },
    };
    let last_line: usize = text.last_line();
    let line: usize = if target_line <= last_line { target_line } else { last_line };
    // avoid changing the column when the line does not change
    let offset: usize = if line != current_line {
        Position::new(line, column).to_offset_snapping(text)
    } else {
        region.head
    };
    Region {
        head: offset,
        tail: if only_move_head { region.tail } else { offset },
        stickyness: region.stickyness,
        preferred_column: Some(column),
    }
}

/// Vertical motion remembers its column: a region that moves down into the
/// next line, and from there down again, lands in the second line below
/// where the column it began in leads, wherever the shorter line in between
/// held it. Where that line is long enough and a grapheme begins at that
/// column, the region is back in the column it began in.
pub proof fn lemma_column_memory(bytes: Seq<u8>, vp: Viewport, region: Region, only_move_head: bool)
    requires
        region.preferred_column.is_none(),
        region.head <= bytes.len() <= usize::MAX,
        line_of(bytes, region.head as int) + 2 <= last_line(bytes),
        line_of(
            bytes,
            moved(bytes, vp, region, only_move_head, Motion::Down).head as int,
        ) == line_of(bytes, region.head as int) + 1,
    ensures
        ({
            let column = Position::of_offset(bytes, region.head as int).col;
            let line = line_of(bytes, region.head as int);
            let once = moved(bytes, vp, region, only_move_head, Motion::Down);
            let twice = moved(bytes, vp, once, only_move_head, Motion::Down);
            let target = Position { line: (line + 2) as usize, col: column };
            &&& once.preferred_column == Some(column)
            &&& twice.preferred_column == Some(column)
            &&& twice.head == target.snapped_offset(bytes) as usize
            &&& target.addresses(bytes) && grapheme_start(bytes, target.naive_offset(bytes))
                == target.naive_offset(bytes) ==> Position::of_offset(bytes, twice.head as int)
                == target
        }),
{
    let column = Position::of_offset(bytes, region.head as int).col;
    let target = Position { line: (line_of(bytes, region.head as int) + 2) as usize, col: column };
    if target.addresses(bytes) {
        target.lemma_round_trip(bytes);
    }
    crate::text::lemma_line_of_end(bytes);
    crate::text::lemma_line_of_monotone(bytes, 0, bytes.len() as int);
    crate::text::lemma_last_line_bound(bytes);
}

} // verus!
