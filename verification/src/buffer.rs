//! Buffer manages all editing operations on the text of a document,
//! including adjusting carets and selections when edits happen and keeping
//! an undo history.
//!
//! An *offset* is a point in between two bytes of the text, or the point
//! directly before the first or directly behind the last one: the length of
//! a text is a valid offset in it. Carets stand on code point boundaries.

use crate::buffer_regions::BufferRegions;
use crate::buffer_regions::Caret;
use crate::buffer_regions::RegionsState;
use crate::delta::lemma_fit_bounds;
use crate::delta::ops_aligned;
use crate::delta::ops_fit;
use crate::delta::ops_len;
use crate::delta::DeltaOp;
use crate::buffer_regions::has_offset;
use crate::buffer_regions::caret_from;
use crate::delta::lemma_transform_aligned;
use crate::delta::lemma_transform_bounds;
use crate::delta::ops_apply;
use crate::buffer_regions::lemma_single_consistent;
use crate::movement::apply_motion_to_region;
use crate::movement::can_move;
use crate::movement::moved;
use crate::position::Position;
use crate::engine::RevisionEngine;
use crate::edit::lemma_replace_ops;
use crate::edit::build_delta;
use crate::edit::ranges_fit;
use crate::edit::replace_ops;
use crate::region::Region;
use crate::region::RegionId;
use crate::text::last_line;
use crate::text::text_lines;
use crate::user_buffer_op::BufferOp;
use crate::user_buffer_op::Motion;
use crate::view::Viewport;
use nonempty::NonEmpty;
use crate::buffer_regions::lemma_ordered_pairwise;
use crate::text::is_boundary;
use crate::text::lemma_next_boundary;
use crate::text::lemma_prev_boundary;
use crate::text::next_boundary;
use crate::text::prev_boundary;
use crate::text::snapped;
use crate::user_buffer_op::Trajectory;
use crate::text::Text;
use crate::undo_history::lemma_undone_at_new_group;
use crate::undo_history::lemma_undone_at_stable;
use crate::undo_history::UndoHistory;
use crate::undo_history::UndoState;
use crate::user_buffer_op::EditType;
use vstd::prelude::*;
use vstd::utf8::encode_utf8;

verus! {

/// What each caret spans, in the order of the carets.
pub open spec fn selection_ranges(carets: Seq<Caret>) -> Seq<(usize, usize)> {
    Seq::new(carets.len(), |i: int| (carets[i].region.start(), carets[i].region.end()))
}

/// The code point before the head of each caret, or the one behind it, in
/// the order of the carets. At the start of the text nothing lies before a
/// head, and at its end nothing behind it.
pub open spec fn delete_ranges(carets: Seq<Caret>, bytes: Seq<u8>, trajectory: Trajectory) -> Seq<
    (usize, usize),
> {
    Seq::new(
        carets.len(),
        |i: int|
            match trajectory {
                Trajectory::Forwards => (
                    carets[i].region.head,
                    next_boundary(bytes, carets[i].region.head as int) as usize,
                ),
                Trajectory::Backwards => (
                    prev_boundary(bytes, carets[i].region.head as int) as usize,
                    carets[i].region.head,
                ),
            },
    )
}

/// What well-formed carets on code point boundaries span are ranges that
/// fit the text.
pub proof fn lemma_selection_ranges_fit(state: RegionsState, bytes: Seq<u8>)
    requires
        state.wf(),
        carets_valid(state.carets, bytes),
    ensures
        ranges_fit(selection_ranges(state.carets), bytes),
{
    let ranges = selection_ranges(state.carets);
    assert forall|i: int, j: int| 0 <= i < j < ranges.len() implies ranges[i].1
        <= ranges[j].0 by {
        lemma_ordered_pairwise(state.carets, i, j);
    }
}

/// The code points before or behind the heads of well-formed carets on code
/// point boundaries are ranges that fit the text.
pub proof fn lemma_delete_ranges_fit(state: RegionsState, bytes: Seq<u8>, trajectory: Trajectory)
    requires
        state.wf(),
        carets_valid(state.carets, bytes),
        is_boundary(bytes, 0),
        bytes.len() <= usize::MAX,
    ensures
        ranges_fit(delete_ranges(state.carets, bytes, trajectory), bytes),
{
    let ranges = delete_ranges(state.carets, bytes, trajectory);
    assert forall|i: int| 0 <= i < ranges.len() implies (#[trigger] ranges[i]).0 <= ranges[i].1
        && is_boundary(bytes, ranges[i].0 as int) && is_boundary(bytes, ranges[i].1 as int) by {
        let head = state.carets[i].region.head as int;
        if head > 0 {
            lemma_prev_boundary(bytes, head);
        }
        if head < bytes.len() {
            lemma_next_boundary(bytes, head);
        }
    }
    assert forall|i: int, j: int| 0 <= i < j < ranges.len() implies ranges[i].1
        <= ranges[j].0 by {
        lemma_ordered_pairwise(state.carets, i, j);
        let a = state.carets[i].region.head as int;
        let b = state.carets[j].region.head as int;
        lemma_prev_boundary(bytes, b);
        lemma_next_boundary(bytes, a);
    }
}

/// Every caret begins and ends on a code point boundary of the text.
pub open spec fn carets_valid(carets: Seq<Caret>, bytes: Seq<u8>) -> bool {
    forall|i: int|
        0 <= i < carets.len() ==> is_boundary(bytes, (#[trigger] carets[i]).region.head as int)
            && is_boundary(bytes, carets[i].region.tail as int)
}

/// Carets that stood on code point boundaries of a text stand on code point
/// boundaries of the text that an aligned delta makes of it, once they are
/// carried through the delta and merged.
pub proof fn lemma_carets_stay_valid(
    before: RegionsState,
    after: RegionsState,
    ops: Seq<DeltaOp>,
    base: Seq<u8>,
)
    requires
        carets_valid(before.carets, base),
        before.transformed(ops).settles_to(after),
        ops_fit(ops, 0, base.len() as int),
        ops_aligned(ops, base),
        ops_len(ops) <= usize::MAX,
        is_boundary(ops_apply(ops, base), 0),
    ensures
        carets_valid(after.carets, ops_apply(ops, base)),
{
    let mid = before.transformed(ops).carets;
    let made = ops_apply(ops, base);
    assert forall|offset: usize| has_offset(mid, offset) implies is_boundary(
        made,
        offset as int,
    ) by {
        let j = choose|j: int|
            0 <= j < mid.len() && ((#[trigger] mid[j]).region.head == offset || mid[j].region.tail
                == offset);
        let region = before.carets[j].region;
        let sticky = region.stickyness == crate::region::Stickyness::Sticky;
        assert(mid[j].region == region.transformed(ops));
        lemma_fit_bounds(ops, 0, base.len() as int);
        lemma_transform_bounds(ops, region.head, sticky);
        lemma_transform_bounds(ops, region.tail, sticky);
        crate::delta::lemma_apply_len(ops, 0, base);
        lemma_transform_aligned(ops, 0, base, region.head, sticky);
        lemma_transform_aligned(ops, 0, base, region.tail, sticky);
    }
    assert forall|i: int| 0 <= i < after.carets.len() implies is_boundary(
        made,
        (#[trigger] after.carets[i]).region.head as int,
    ) && is_boundary(made, after.carets[i].region.tail as int) by {
        assert(caret_from(mid, after.carets[i]));
    }
}

/// The region with its head and tail moved to the nearest valid offsets of
/// a text.
pub open spec fn snapped_region(bytes: Seq<u8>, region: Region) -> Region {
    Region { head: snapped(bytes, region.head), tail: snapped(bytes, region.tail), ..region }
}

/// The carets with every region moved to the nearest valid offsets of a
/// text.
pub open spec fn snapped_carets(state: RegionsState, bytes: Seq<u8>) -> RegionsState {
    state.with_regions(
        Seq::new(state.carets.len(), |i: int| snapped_region(bytes, state.carets[i].region)),
    )
}

/// Snap all regions to the closest valid points in the text: to its end
/// where they lie behind it, and to the start of a code point where they
/// lie inside one. Regions that stand on valid points stay.
fn snap_regions_to_valid_position(regions: &mut BufferRegions, text: &Text)
    requires
        old(regions).wf(),
    ensures
        final(regions).wf(),
        snapped_carets(old(regions)@, text@).settles_to(final(regions)@),
        carets_valid(final(regions)@.carets, text@),
{
    let snap = |id: RegionId, region: Region| -> (out: Region)
        ensures
            out == snapped_region(text@, region),
            is_boundary(text@, out.head as int),
            is_boundary(text@, out.tail as int),
        {
            Region {
                head: text.snap_offset(region.head),
                tail: text.snap_offset(region.tail),
                ..region
            }
        };
    regions.update_regions(snap);
    proof {
        let before = old(regions)@;
        let moved = choose|moved: Seq<Region>|
            {
                &&& moved.len() == before.carets.len()
                &&& forall|i: int|
                    0 <= i < moved.len() ==> snap.ensures(
                        (before.carets[i].id, before.carets[i].region),
                        #[trigger] moved[i],
                    )
                &&& before.with_regions(moved).settles_to(final(regions)@)
            };
        assert(before.with_regions(moved).carets =~= snapped_carets(before, text@).carets);
        let mid = before.with_regions(moved).carets;
        assert forall|i: int| 0 <= i < final(regions)@.carets.len() implies is_boundary(
            text@,
            (#[trigger] final(regions)@.carets[i]).region.head as int,
        ) && is_boundary(text@, final(regions)@.carets[i].region.tail as int) by {
            let caret = final(regions)@.carets[i];
            assert(caret_from(mid, caret));
            let a = choose|j: int|
                0 <= j < mid.len() && ((#[trigger] mid[j]).region.head == caret.region.head
                    || mid[j].region.tail == caret.region.head);
            let b = choose|j: int|
                0 <= j < mid.len() && ((#[trigger] mid[j]).region.head == caret.region.tail
                    || mid[j].region.tail == caret.region.tail);
            assert(mid[a].region == moved[a]);
            assert(mid[b].region == moved[b]);
        }
    }
}

/// The positions of a non-empty list, in order.
pub uninterp spec fn nonempty_positions(list: NonEmpty<Position>) -> Seq<Position>;

/// `NonEmpty::from_vec` of the nonempty crate: the list of the items of the
/// vector in their order, and nothing for an empty vector.
#[verifier::external_body]
fn positions_from_vec(positions: Vec<Position>) -> (list: Option<NonEmpty<Position>>)
    ensures
        match list {
            Some(list) => positions@.len() > 0 && nonempty_positions(list) == positions@,
            None => positions@.len() == 0,
        },
{
    NonEmpty::from_vec(positions)
}

/// The carets with every region moved by a motion.
pub open spec fn moved_carets(
    state: RegionsState,
    bytes: Seq<u8>,
    vp: Viewport,
    only_move_head: bool,
    motion: Motion,
) -> RegionsState {
    state.with_regions(
        Seq::new(
            state.carets.len(),
            |i: int| moved(bytes, vp, state.carets[i].region, only_move_head, motion),
        ),
    )
}

/// The carets `carried` are the carets `before` as they were, or carried
/// through some delta and merged where they meet.
pub open spec fn carried_from(before: RegionsState, carried: RegionsState) -> bool {
    carried == before || exists|ops: Seq<DeltaOp>|
        #![trigger before.transformed(ops)]
        before.transformed(ops).settles_to(carried)
}

/// The text of an open document with its carets and its undo history.
pub struct Buffer {
    text: Text,
    engine: RevisionEngine,
    regions: BufferRegions,
    undo_history: UndoHistory,
    /// Edit type of the most recently performed action, kept for grouping
    /// edits into undo groups.
    last_edit_type: EditType,
}

impl Buffer {
    /// The bytes of the text.
    pub closed spec fn text(&self) -> Seq<u8> {
        self.text@
    }

    /// The carets.
    pub closed spec fn carets(&self) -> RegionsState {
        self.regions@
    }

    /// The undo history.
    pub closed spec fn history(&self) -> UndoState {
        self.undo_history@
    }

    /// The type of the latest edit; `Other` after an undo or redo.
    pub closed spec fn last_edit(&self) -> EditType {
        self.last_edit_type
    }

    /// The text that the buffer shows when the cursor of its undo history
    /// stands at position `k`: its edits without those of the undo groups
    /// that are rolled back at that position.
    pub closed spec fn text_at(&self, k: int) -> Seq<u8> {
        self.engine.replay(self.undo_history@.undone_at(k))
    }

    /// What holds of a buffer between any two operations: its parts are
    /// well-formed, the engine shows the text and has rolled back what the
    /// history says, and the carets stand on code point boundaries of the
    /// text.
    pub closed spec fn wf(&self) -> bool {
        &&& self.regions.wf()
        &&& self.undo_history@.wf()
        &&& self.engine.wf()
        &&& self.text@ == self.engine.head_bytes()
        &&& self.engine.undone() == self.undo_history@.undone
        &&& self.engine.max_undo_group() <= self.undo_history@.gid
        &&& is_boundary(self.text@, 0)
        &&& carets_valid(self.regions@.carets, self.text@)
    }

    /// A buffer that shows the given text, with a cursor at its start.
    pub fn new_from_string(s: String) -> (buffer: Self)
        ensures
            buffer.wf(),
            buffer.text() == encode_utf8(s@),
            buffer.history() == UndoState::initial(),
            buffer.last_edit() == EditType::Other,
            buffer.carets().carets.len() == 1,
            buffer.carets().carets[0].region == Region::sticky_cursor(0),
    {
        let text = Text::new(s.as_str());
        let engine = RevisionEngine::new(&text);
        let regions = BufferRegions::default();
        let undo_history = UndoHistory::default();
        Self { engine, text, regions, undo_history, last_edit_type: EditType::Other }
    }

    /// A buffer without text.
    pub fn new_empty() -> (buffer: Self)
        ensures
            buffer.wf(),
            buffer.text() == Seq::<u8>::empty(),
            buffer.history() == UndoState::initial(),
            buffer.last_edit() == EditType::Other,
            buffer.carets().carets.len() == 1,
            buffer.carets().carets[0].region == Region::sticky_cursor(0),
    {
        let s = String::new();
        assert(encode_utf8(s@) =~= Seq::<u8>::empty());
        Self::new_from_string(s)
    }

    /// The text as a string.
    pub fn content_to_string(&self) -> (s: String)
        ensures
            encode_utf8(s@) == self.text(),
    {
        self.text.to_string()
    }

    /// Return a snapshot of the latest committed state of the text.
    pub fn head_rope(&self) -> (text: &Text)
        ensures
            text@ == self.text(),
    {
        &self.text
    }

    /// A well-formed buffer has well-formed carets on code point boundaries
    /// of its text and a well-formed history, and it shows the text of the
    /// position at which its history stands.
    pub proof fn lemma_wf(&self)
        requires
            self.wf(),
        ensures
            self.carets().wf(),
            self.history().wf(),
            carets_valid(self.carets().carets, self.text()),
            is_boundary(self.text(), 0),
            self.text() == self.text_at(self.history().idx as int),
    {
        let h = self.undo_history@;
        self.regions.lemma_wf();
        assert(h.undone_at(h.idx as int) =~= h.undone);
    }

    /// The carets of a well-formed buffer are strictly ordered by their
    /// offsets, and no two of them overlap or touch: each ends before the
    /// next begins.
    pub proof fn lemma_carets_apart(&self, i: int, j: int)
        requires
            self.wf(),
            0 <= i < j < self.carets().carets.len(),
        ensures
            self.carets().carets[i].region.end() < self.carets().carets[j].region.start(),
            self.carets().carets[i].region.head < self.carets().carets[j].region.head,
    {
        self.regions.lemma_wf();
        lemma_ordered_pairwise(self.regions@.carets, i, j);
    }

    /// Undo shows the text of the position before: after an undo the buffer
    /// shows what it showed when its history stood one position earlier,
    /// and after a redo what it showed one position later. Every edit, undo
    /// and redo leaves `text_at` as it is for the positions that stay in
    /// the history, so stepping back through the history and forward again
    /// shows, at every step, the text that was there when the edits were
    /// made.
    pub proof fn lemma_history_texts(&self, after: &Buffer)
        requires
            self.wf(),
            after.wf(),
            forall|k: int|
                0 <= k < self.history().history.len() ==> #[trigger] after.text_at(k)
                    == self.text_at(k),
        ensures
            after.history() == self.history().undo() && self.history().can_undo()
                ==> after.text() == self.text_at(self.history().idx - 1),
            after.history() == self.history().redo() && self.history().can_redo()
                ==> after.text() == self.text_at(self.history().idx + 1),
    {
        self.lemma_wf();
        after.lemma_wf();
    }

    /// The buffer shows what `other` shows: the same text with the same
    /// carets, and the same history.
    pub open spec fn shows_what(&self, other: &Buffer) -> bool {
        &&& self.text() == other.text()
        &&& self.carets() == other.carets()
        &&& self.history() == other.history()
        &&& self.last_edit() == other.last_edit()
        &&& forall|k: int| #[trigger] self.text_at(k) == other.text_at(k)
    }

    /// An edit can be made: the undo groups are not used up, and the old
    /// text, the new text and every offset in them fit the machine's
    /// integers.
    pub open spec fn edit_fits(&self, ranges: nat, insert_len: nat) -> bool {
        &&& self.history().gid < usize::MAX
        &&& 2 * self.text().len() + ranges * insert_len <= usize::MAX
    }

    /// `after` is this buffer after an edit of type `edit_type` that makes
    /// the text that the pieces `ops` make of the old one. The carets are
    /// carried through the edit and merged where they meet. The edit joins
    /// the undo group of the edit before it where that was of the same type
    /// and nothing was undone since; else it opens a new group. What the
    /// buffer showed at earlier positions of its history, it shows there
    /// still.
    pub open spec fn edited(&self, after: &Buffer, ops: Seq<DeltaOp>, edit_type: EditType) -> bool {
        &&& after.text() == ops_apply(ops, self.text())
        &&& self.carets().transformed(ops).settles_to(after.carets())
        &&& after.history() == self.history().perform_edit(self.last_edit() != edit_type)
        &&& after.last_edit() == edit_type
        &&& forall|k: int|
            0 <= k < after.history().idx ==> #[trigger] after.text_at(k) == self.text_at(k)
    }

    /// Replace each of the ranges by `insert`, as one edit of type
    /// `edit_type`. Nothing happens where the edit does not fit.
    fn edit(&mut self, ranges: Vec<(usize, usize)>, insert: &Text, edit_type: EditType) -> (done:
        bool)
        requires
            old(self).wf(),
            ranges_fit(ranges@, old(self).text()),
            is_boundary(insert@, 0),
        ensures
            final(self).wf(),
            done == old(self).edit_fits(ranges@.len(), insert@.len()),
            done ==> old(self).edited(
                final(self),
                replace_ops(ranges@, insert@, old(self).text().len() as usize),
                edit_type,
            ),
            !done ==> *final(self) == *old(self),
    {
        let len: usize = self.text.len();
        let fits: bool = match ranges.len().checked_mul(insert.len()) {
            Some(inserted) => match len.checked_add(inserted) {
                Some(total) => total.checked_add(len).is_some(),
                None => false,
            },
            None => false,
        };
        if !fits || self.undo_history.current_undo_group_id() == usize::MAX {
            return false;
        }
        let delta = build_delta(&ranges, insert, len);
        let ghost ops = delta@;
        let ghost before = *self;
        proof {
            lemma_replace_ops(ranges@, insert@, self.text@);
            lemma_fit_bounds(ops, 0, len as int);
            self.regions.lemma_wf();
            assert forall|i: int| 0 <= i < self.regions@.carets.len() implies is_boundary(
                self.text@,
                (#[trigger] self.regions@.carets[i]).region.head as int,
            ) && is_boundary(self.text@, self.regions@.carets[i].region.tail as int) by {}
        }
        self.regions.apply_delta(&delta);
        let new_group: bool = self.last_edit_type != edit_type;
        let undo_group: usize = self.undo_history.perform_edit(new_group);
        self.last_edit_type = edit_type;
        proof {
            let h = self.undo_history@;
            assert(h.history[h.idx as int] == undo_group);
        }
        self.text = self.engine.commit(delta, undo_group);
        proof {
            lemma_carets_stay_valid(before.regions@, self.regions@, ops, before.text@);
            let h = before.undo_history@;
            assert forall|k: int| 0 <= k < self.undo_history@.idx implies #[trigger] self.text_at(
                k,
            ) == before.text_at(k) by {
                if h.needs_new_group(new_group) {
                    lemma_undone_at_new_group(h, new_group, k);
                    assert(h.undone_at(k).insert(undo_group).contains(undo_group));
                    before.engine.lemma_unused_group(h.undone_at(k), undo_group);
                } else {
                    assert(h.undone_at(k).contains(undo_group)) by {
                        assert(k < h.idx < h.history.len() && h.history[h.idx as int]
                            == undo_group);
                    }
                }
            }
        }
        true
    }

    /// Replace what every caret spans by `chars`. Nothing happens where the
    /// edit does not fit.
    pub fn insert_at_carets(&mut self, chars: &str)
        requires
            old(self).wf(),
        ensures
            final(self).wf(),
            old(self).edit_fits(old(self).carets().carets.len(), encode_utf8(chars@).len())
                ==> old(self).edited(
                final(self),
                replace_ops(
                    selection_ranges(old(self).carets().carets),
                    encode_utf8(chars@),
                    old(self).text().len() as usize,
                ),
                EditType::Insert,
            ),
            !old(self).edit_fits(old(self).carets().carets.len(), encode_utf8(chars@).len())
                ==> *final(self) == *old(self),
    {
        let insert = Text::new(chars);
        let ranges = self.selected_ranges();
        self.edit(ranges, &insert, EditType::Insert);
    }

    /// Delete what every caret spans. Nothing happens where the edit does
    /// not fit.
    pub fn delete_selected(&mut self)
        requires
            old(self).wf(),
        ensures
            final(self).wf(),
            old(self).edit_fits(old(self).carets().carets.len(), 0) ==> old(self).edited(
                final(self),
                replace_ops(
                    selection_ranges(old(self).carets().carets),
                    Seq::empty(),
                    old(self).text().len() as usize,
                ),
                EditType::Delete,
            ),
            !old(self).edit_fits(old(self).carets().carets.len(), 0) ==> *final(self) == *old(
                self,
            ),
    {
        let nothing = Text::new("");
        proof {
            reveal_strlit("");
            assert(encode_utf8(""@) =~= Seq::<u8>::empty());
        }
        let ranges = self.selected_ranges();
        self.edit(ranges, &nothing, EditType::Delete);
    }

    /// Delete the code point before the head of every caret, or the one
    /// behind it. Nothing happens where the edit does not fit.
    pub fn delete_at_carets(&mut self, trajectory: Trajectory)
        requires
            old(self).wf(),
        ensures
            final(self).wf(),
            old(self).edit_fits(old(self).carets().carets.len(), 0) ==> old(self).edited(
                final(self),
                replace_ops(
                    delete_ranges(old(self).carets().carets, old(self).text(), trajectory),
                    Seq::empty(),
                    old(self).text().len() as usize,
                ),
                EditType::Delete,
            ),
            !old(self).edit_fits(old(self).carets().carets.len(), 0) ==> *final(self) == *old(
                self,
            ),
    {
        let nothing = Text::new("");
        proof {
            reveal_strlit("");
            assert(encode_utf8(""@) =~= Seq::<u8>::empty());
            self.regions.lemma_wf();
        }
        let regions = self.regions.caret_regions();
        let _len: usize = self.text.len();
        let mut ranges: Vec<(usize, usize)> = Vec::new();
        let mut i: usize = 0;
        while i < regions.len()
            invariant
                i <= regions@.len(),
                regions@ == self.regions@.regions(),
                self.wf(),
                ranges@.len() == i,
                forall|k: int|
                    0 <= k < i ==> ranges@[k] == delete_ranges(
                        self.regions@.carets,
                        self.text@,
                        trajectory,
                    )[k],
            decreases regions.len() - i,
        {
            let head: usize = regions[i].head;
            assert(regions@[i as int] == self.regions@.carets[i as int].region);
            assert(is_boundary(self.text@, self.regions@.carets[i as int].region.head as int));
            let range: (usize, usize) = match trajectory {
                Trajectory::Forwards => match self.text.next_codepoint_offset(head) {
                    Some(next) => (head, next),
                    None => (head, head),
                },
                Trajectory::Backwards => match self.text.prev_codepoint_offset(head) {
                    Some(prev) => (prev, head),
                    None => (head, head),
                },
            };
            proof {
                if head > 0 {
                    lemma_prev_boundary(self.text@, head as int);
                }
                if head < self.text@.len() {
                    lemma_next_boundary(self.text@, head as int);
                }
            }
            ranges.push(range);
            i += 1;
        }
        proof {
            assert(ranges@ =~= delete_ranges(self.regions@.carets, self.text@, trajectory));
            lemma_delete_ranges_fit(self.regions@, self.text@, trajectory);
        }
        self.edit(ranges, &nothing, EditType::Delete);
    }

    /// What every caret spans, in the order of the carets.
    fn selected_ranges(&self) -> (ranges: Vec<(usize, usize)>)
        requires
            self.wf(),
        ensures
            ranges@ == selection_ranges(self.carets().carets),
            ranges_fit(ranges@, self.text()),
    {
        proof {
            self.regions.lemma_wf();
        }
        let regions = self.regions.caret_regions();
        let mut ranges: Vec<(usize, usize)> = Vec::new();
        let mut i: usize = 0;
        while i < regions.len()
            invariant
                i <= regions@.len(),
                regions@ == self.regions@.regions(),
                ranges@.len() == i,
                forall|k: int|
                    0 <= k < i ==> ranges@[k] == selection_ranges(self.regions@.carets)[k],
            decreases regions.len() - i,
        {
            let range = regions[i].range();
            ranges.push((range.start, range.end));
            i += 1;
        }
        proof {
            assert(ranges@ =~= selection_ranges(self.regions@.carets));
            lemma_selection_ranges_fit(self.regions@, self.text@);
        }
        ranges
    }

    /// The history holds what `wf` asks of it, and the engine shows the text
    /// and the carets stand on it; the engine need not have rolled back
    /// what the history says.
    spec fn wf_before_rollback(&self) -> bool {
        &&& self.regions.wf()
        &&& self.undo_history@.wf()
        &&& self.engine.wf()
        &&& self.text@ == self.engine.head_bytes()
        &&& self.engine.max_undo_group() <= self.undo_history@.gid
        &&& is_boundary(self.text@, 0)
        &&& carets_valid(self.regions@.carets, self.text@)
    }

    /// Make the engine roll back what the history says, show the text that
    /// this gives, and carry the carets over to it. Where the engine cannot
    /// say how the old text became the new one, the carets stay, and in any
    /// case they are snapped to valid offsets of the new text.
    fn roll_back_to_history(&mut self)
        requires
            old(self).wf_before_rollback(),
        ensures
            final(self).wf(),
            final(self).undo_history == old(self).undo_history,
            final(self).last_edit_type == EditType::Other,
            forall|groups: Set<usize>| #[trigger]
                final(self).engine.replay(groups) == old(self).engine.replay(groups),
            old(self).carets_carried_to(final(self)),
    {
        self.last_edit_type = EditType::Other;
        let old_head_rev: u64 = self.engine.head_revision_token();
        let old_len: usize = self.text.len();
        let groups = self.undo_history.currently_undone().clone();
        let ghost old_text = self.text@;
        self.text = self.engine.undo(groups);
        match self.engine.delta_from_head(old_head_rev) {
            Ok(delta) => {
                let new_len: usize = self.text.len();
                if old_len.checked_add(new_len).is_some() {
                    proof {
                        assert forall|i: int|
                            0 <= i < self.regions@.carets.len() implies (
                        #[trigger] self.regions@.carets[i]).region.head <= old_len
                            && self.regions@.carets[i].region.tail <= old_len by {
                            assert(is_boundary(
                                old_text,
                                self.regions@.carets[i].region.head as int,
                            ));
                        }
                    }
                    self.regions.apply_delta(&delta);
                    assert(old(self).regions@.transformed(delta@).settles_to(self.regions@));
                }
            },
            Err(_) => {},
        }
        let ghost carried = self.regions@;
        assert(carried_from(old(self).carets(), carried));
        snap_regions_to_valid_position(&mut self.regions, &self.text);
        assert(snapped_carets(carried, self.text()).settles_to(self.carets()));
    }

    /// Step back in the undo history and show the text of that time.
    /// Returns false, and changes nothing, where there is nothing to undo.
    /// What the buffer shows at any position of its history stays as it is.
    pub fn undo(&mut self) -> (done: bool)
        requires
            old(self).wf(),
        ensures
            final(self).wf(),
            done == old(self).history().can_undo(),
            final(self).history() == old(self).history().undo(),
            forall|k: int|
                0 <= k < old(self).history().history.len() ==> #[trigger] final(self).text_at(k)
                    == old(self).text_at(k),
            done ==> final(self).last_edit() == EditType::Other && old(self).carets_carried_to(
                final(self),
            ),
            !done ==> final(self).shows_what(old(self)),
    {
        let ghost before = self.undo_history@;
        if !self.undo_history.undo() {
            return false;
        }
        let ghost stepped = *self;
        self.roll_back_to_history();
        proof {
            let carried = choose|carried: RegionsState|
                #![trigger carried_from(stepped.carets(), carried)]
                carried_from(stepped.carets(), carried) && snapped_carets(
                    carried,
                    self.text(),
                ).settles_to(self.carets());
            assert(carried_from(old(self).carets(), carried));
            assert forall|k: int| 0 <= k < before.history.len() implies #[trigger] self.text_at(k)
                == old(self).text_at(k) by {
                lemma_undone_at_stable(before, k);
            }
        }
        true
    }

    /// Step forward in the undo history and show the text of that time.
    /// Returns false, and changes nothing, where there is nothing to redo.
    /// What the buffer shows at any position of its history stays as it is.
    pub fn redo(&mut self) -> (done: bool)
        requires
            old(self).wf(),
        ensures
            final(self).wf(),
            done == old(self).history().can_redo(),
            final(self).history() == old(self).history().redo(),
            forall|k: int|
                0 <= k < old(self).history().history.len() ==> #[trigger] final(self).text_at(k)
                    == old(self).text_at(k),
            done ==> final(self).last_edit() == EditType::Other && old(self).carets_carried_to(
                final(self),
            ),
            !done ==> final(self).shows_what(old(self)),
    {
        let ghost before = self.undo_history@;
        if !self.undo_history.redo() {
            return false;
        }
        let ghost stepped = *self;
        self.roll_back_to_history();
        proof {
            let carried = choose|carried: RegionsState|
                #![trigger carried_from(stepped.carets(), carried)]
                carried_from(stepped.carets(), carried) && snapped_carets(
                    carried,
                    self.text(),
                ).settles_to(self.carets());
            assert(carried_from(old(self).carets(), carried));
            assert forall|k: int| 0 <= k < before.history.len() implies #[trigger] self.text_at(k)
                == old(self).text_at(k) by {
                lemma_undone_at_stable(before, k);
            }
        }
        true
    }

    /// The carets of `after` are what an undo or redo makes of the carets
    /// of this buffer: they are carried through the delta by which the
    /// engine turns the old text into the new one, or stay where it knows
    /// none, and are then snapped to valid offsets of the new text.
    pub open spec fn carets_carried_to(&self, after: &Buffer) -> bool {
        exists|carried: RegionsState|
            #![trigger carried_from(self.carets(), carried)]
            carried_from(self.carets(), carried) && snapped_carets(
                carried,
                after.text(),
            ).settles_to(after.carets())
    }

    /// The buffer shows the text and the history that `other` shows; the
    /// carets may differ.
    pub open spec fn same_text_as(&self, other: &Buffer) -> bool {
        &&& self.text() == other.text()
        &&& self.history() == other.history()
        &&& self.last_edit() == other.last_edit()
        &&& forall|k: int| #[trigger] self.text_at(k) == other.text_at(k)
    }

    /// Apply a motion to every caret, then merge carets that meet.
    fn move_all(&mut self, vp: &Viewport, motion: Motion, only_move_head: bool)
        requires
            old(self).wf(),
            vp.first_line + vp.height <= usize::MAX,
        ensures
            final(self).wf(),
            final(self).same_text_as(old(self)),
            moved_carets(
                old(self).carets(),
                old(self).text(),
                *vp,
                only_move_head,
                motion,
            ).settles_to(final(self).carets()),
    {
        let text = &self.text;
        let step = |id: RegionId, region: Region| -> (out: Region)
            requires
                can_move(text@, *vp, region),
            ensures
                out == moved(text@, *vp, region, only_move_head, motion),
                is_boundary(text@, out.head as int),
                out.tail == if only_move_head {
                    region.tail
                } else {
                    out.head
                },
            { apply_motion_to_region(text, vp, region, only_move_head, motion) };
        proof {
            self.regions.lemma_wf();
        }
        self.regions.update_carets(step);
        proof {
            let before = old(self).regions@;
            let new = choose|new: Seq<Region>|
                {
                    &&& new.len() == before.carets.len()
                    &&& forall|i: int|
                        0 <= i < new.len() ==> step.ensures(
                            (before.carets[i].id, before.carets[i].region),
                            #[trigger] new[i],
                        )
                    &&& before.with_regions(new).settles_to(self.regions@)
                };
            let mid = before.with_regions(new).carets;
            assert(mid =~= moved_carets(before, self.text@, *vp, only_move_head, motion).carets);
            assert forall|i: int| 0 <= i < self.regions@.carets.len() implies is_boundary(
                self.text@,
                (#[trigger] self.regions@.carets[i]).region.head as int,
            ) && is_boundary(self.text@, self.regions@.carets[i].region.tail as int) by {
                let caret = self.regions@.carets[i];
                assert(caret_from(mid, caret));
                let a = choose|j: int|
                    0 <= j < mid.len() && ((#[trigger] mid[j]).region.head == caret.region.head
                        || mid[j].region.tail == caret.region.head);
                let b = choose|j: int|
                    0 <= j < mid.len() && ((#[trigger] mid[j]).region.head == caret.region.tail
                        || mid[j].region.tail == caret.region.tail);
                assert(mid[a].region == new[a]);
                assert(mid[b].region == new[b]);
                assert(is_boundary(self.text@, before.carets[a].region.tail as int));
                assert(is_boundary(self.text@, before.carets[b].region.tail as int));
            }
        }
    }

    /// Move carets by a given motion, collapsing any selections down into
    /// cursors.
    pub fn move_carets(&mut self, viewport: &Viewport, motion: Motion)
        requires
            old(self).wf(),
            viewport.first_line + viewport.height <= usize::MAX,
        ensures
            final(self).wf(),
            final(self).same_text_as(old(self)),
            moved_carets(old(self).carets(), old(self).text(), *viewport, false, motion).settles_to(
                final(self).carets(),
            ),
    {
        self.move_all(viewport, motion, false)
    }

    /// Move the head of every caret by a given motion and leave its tail,
    /// which expands or shrinks the selections.
    pub fn move_selections(&mut self, viewport: &Viewport, motion: Motion)
        requires
            old(self).wf(),
            viewport.first_line + viewport.height <= usize::MAX,
        ensures
            final(self).wf(),
            final(self).same_text_as(old(self)),
            moved_carets(old(self).carets(), old(self).text(), *viewport, true, motion).settles_to(
                final(self).carets(),
            ),
    {
        self.move_all(viewport, motion, true)
    }

    /// Where the motion takes the first caret elsewhere, add a caret there
    /// and make it the primary one.
    pub fn new_caret(&mut self, viewport: &Viewport, motion: Motion)
        requires
            old(self).wf(),
            viewport.first_line + viewport.height <= usize::MAX,
        ensures
            final(self).wf(),
            final(self).same_text_as(old(self)),
            ({
                let first = old(self).carets().carets[0].region;
                let target = moved(old(self).text(), *viewport, first, false, motion);
                if target == first {
                    final(self).carets() == old(self).carets()
                } else {
                    exists|id: RegionId|
                        old(self).carets().with_caret(id, target, true).settles_to(
                            final(self).carets(),
                        )
                }
            }),
    {
        proof {
            self.regions.lemma_wf();
        }
        let regions = self.regions.caret_regions();
        let first: Region = regions[0];
        assert(first == self.regions@.carets[0].region);
        let target = apply_motion_to_region(&self.text, viewport, first, false, motion);
        if target != first {
            self.regions.add_caret(true, target);
            proof {
                let before = old(self).regions@;
                let id = choose|id: RegionId|
                    before.with_caret(id, target, true).settles_to(self.regions@);
                let mid = before.with_caret(id, target, true).carets;
                assert forall|i: int| 0 <= i < self.regions@.carets.len() implies is_boundary(
                    self.text@,
                    (#[trigger] self.regions@.carets[i]).region.head as int,
                ) && is_boundary(self.text@, self.regions@.carets[i].region.tail as int) by {
                    let caret = self.regions@.carets[i];
                    assert(caret_from(mid, caret));
                    let a = choose|j: int|
                        0 <= j < mid.len() && ((#[trigger] mid[j]).region.head
                            == caret.region.head || mid[j].region.tail == caret.region.head);
                    let b = choose|j: int|
                        0 <= j < mid.len() && ((#[trigger] mid[j]).region.head
                            == caret.region.tail || mid[j].region.tail == caret.region.tail);
                    if mid[a].region != target {
                        assert(mid[a] == before.carets[a]);
                    }
                    if mid[b].region != target {
                        assert(mid[b] == before.carets[b]);
                    }
                }
            }
        }
    }

    /// Jump the user caret to a given position.
    ///
    /// If `snap` is true, the caret goes to the nearest valid offset: into
    /// the last line where the position lies below the text, and to the end
    /// of the line where it lies behind it. If `snap` is false and there is
    /// no text at the given position, nothing happens.
    ///
    /// If there is more than one caret, collapses all carets down into the
    /// primary one. Returns true if the caret was placed, false otherwise.
    pub fn jump_caret_to_position(&mut self, coords: Position, snap: bool) -> (placed: bool)
        requires
            old(self).wf(),
        ensures
            final(self).wf(),
            final(self).same_text_as(old(self)),
            placed == (snap || coords.addresses(old(self).text())),
            placed ==> final(self).carets() == (RegionsState {
                carets: seq![
                    Caret {
                        id: old(self).carets().primary,
                        region: Region::sticky_cursor(
                            if snap {
                                coords.snapped_offset(old(self).text()) as usize
                            } else {
                                coords.offset_in(old(self).text())->0
                            },
                        ),
                    },
                ],
                primary: old(self).carets().primary,
            }),
            !placed ==> final(self).carets() == old(self).carets(),
    {
        let offset = if snap {
            Some(coords.to_offset_snapping(&self.text))
        } else {
            coords.to_offset(&self.text)
        };
        if let Some(offset) = offset {
            self.regions.collapse_carets_into_primary();
            let region = Region::sticky_cursor(offset);
            self.regions.set_primary_caret(region);
            proof {
                let single = old(self).regions@.only_primary();
                assert(single.carets[0].id == single.primary);
                assert(single.index_of(single.primary) == 0);
                let placed = single.with_primary_region(region);
                lemma_single_consistent(placed);
                assert(self.regions@.carets =~= seq![
                    Caret { id: old(self).regions@.primary, region },
                ]);
            }
            true
        } else {
            false
        }
    }

    /// Directly overwrite the primary caret or selection with a region on
    /// code point boundaries of the text.
    pub fn set_primary_caret(&mut self, region: Region)
        requires
            old(self).wf(),
            is_boundary(old(self).text(), region.head as int),
            is_boundary(old(self).text(), region.tail as int),
        ensures
            final(self).wf(),
            final(self).same_text_as(old(self)),
            old(self).carets().with_primary_region(region).settles_to(final(self).carets()),
    {
        proof {
            self.regions.lemma_wf();
        }
        self.regions.set_primary_caret(region);
        proof {
            let before = old(self).regions@;
            let mid = before.with_primary_region(region).carets;
            assert forall|i: int| 0 <= i < self.regions@.carets.len() implies is_boundary(
                self.text@,
                (#[trigger] self.regions@.carets[i]).region.head as int,
            ) && is_boundary(self.text@, self.regions@.carets[i].region.tail as int) by {
                let caret = self.regions@.carets[i];
                assert(caret_from(mid, caret));
                let a = choose|j: int|
                    0 <= j < mid.len() && ((#[trigger] mid[j]).region.head == caret.region.head
                        || mid[j].region.tail == caret.region.head);
                let b = choose|j: int|
                    0 <= j < mid.len() && ((#[trigger] mid[j]).region.head == caret.region.tail
                        || mid[j].region.tail == caret.region.tail);
                if mid[a].region != region {
                    assert(mid[a] == before.carets[a]);
                }
                if mid[b].region != region {
                    assert(mid[b] == before.carets[b]);
                }
            }
        }
    }

    /// Turn every selection into a cursor at its head.
    pub fn collapse_selections(&mut self)
        requires
            old(self).wf(),
        ensures
            final(self).wf(),
            final(self).same_text_as(old(self)),
            old(self).carets().collapsed().settles_to(final(self).carets()),
    {
        proof {
            self.regions.lemma_wf();
        }
        self.regions.collapse_selections();
        proof {
            let before = old(self).regions@;
            let mid = before.collapsed().carets;
            assert forall|i: int| 0 <= i < self.regions@.carets.len() implies is_boundary(
                self.text@,
                (#[trigger] self.regions@.carets[i]).region.head as int,
            ) && is_boundary(self.text@, self.regions@.carets[i].region.tail as int) by {
                let caret = self.regions@.carets[i];
                assert(caret_from(mid, caret));
                let a = choose|j: int|
                    0 <= j < mid.len() && ((#[trigger] mid[j]).region.head == caret.region.head
                        || mid[j].region.tail == caret.region.head);
                let b = choose|j: int|
                    0 <= j < mid.len() && ((#[trigger] mid[j]).region.head == caret.region.tail
                        || mid[j].region.tail == caret.region.tail);
                assert(mid[a].region.head == before.carets[a].region.head);
                assert(mid[b].region.head == before.carets[b].region.head);
            }
        }
    }

    /// Return all carets of this buffer, ordered and non-overlapping.
    pub fn carets_list(&self) -> (carets: NonEmpty<Region>)
        requires
            self.wf(),
        ensures
            crate::buffer_regions::nonempty_regions(carets) == self.carets().regions(),
    {
        self.regions.carets()
    }

    /// The positions of the heads of all carets, in the order of the carets.
    pub fn all_caret_positions(&self) -> (positions: NonEmpty<Position>)
        requires
            self.wf(),
        ensures
            nonempty_positions(positions) == Seq::new(
                self.carets().carets.len(),
                |i: int| Position::of_offset(self.text(), self.carets().carets[i].region.head as int),
            ),
    {
        proof {
            self.regions.lemma_wf();
        }
        let regions = self.regions.caret_regions();
        let mut positions: Vec<Position> = Vec::new();
        let mut i: usize = 0;
        while i < regions.len()
            invariant
                i <= regions@.len(),
                regions@ == self.regions@.regions(),
                self.wf(),
                positions@.len() == i,
                forall|k: int|
                    0 <= k < i ==> positions@[k] == Position::of_offset(
                        self.text@,
                        self.regions@.carets[k].region.head as int,
                    ),
            decreases regions.len() - i,
        {
            assert(regions@[i as int] == self.regions@.carets[i as int].region);
            assert(is_boundary(self.text@, self.regions@.carets[i as int].region.head as int));
            positions.push(Position::from_offset_snapping(&self.text, regions[i].head));
            i += 1;
        }
        assert(positions@ =~= Seq::new(
            self.carets().carets.len(),
            |i: int| Position::of_offset(self.text(), self.carets().carets[i].region.head as int),
        ));
        match positions_from_vec(positions) {
            Some(list) => list,
            None => vstd::pervasive::unreached(),
        }
    }

    /// The position of the head of the primary caret.
    pub fn primary_caret_position(&self) -> (position: Position)
        requires
            self.wf(),
        ensures
            position == Position::of_offset(
                self.text(),
                self.carets().primary_region().head as int,
            ),
    {
        proof {
            self.regions.lemma_wf();
            let j = self.regions@.index_of(self.regions@.primary);
            assert(is_boundary(self.text@, self.regions@.carets[j].region.head as int));
        }
        let region = self.regions.primary_caret();
        Position::from_offset_snapping(&self.text, region.head)
    }

    /// The number of lines of the text: one more than it has line feeds.
    pub fn line_count(&self) -> (count: usize)
        ensures
            count == if last_line(self.text()) < usize::MAX {
                last_line(self.text()) + 1
            } else {
                usize::MAX as nat
            },
    {
        self.text.last_line().saturating_add(1)
    }

    /// The lines from line `low` up to line `high`, without their line
    /// endings. Lines behind the end of the text are left out.
    pub fn lines_between(&self, low: usize, high: usize) -> (lines: Vec<String>)
        requires
            low <= high,
        ensures
            ({
                let all = text_lines(self.text());
                let from = if low <= all.len() {
                    low as int
                } else {
                    all.len() as int
                };
                let to = if high <= all.len() {
                    high as int
                } else {
                    all.len() as int
                };
                &&& lines@.len() == to - from
                &&& forall|i: int| 0 <= i < lines@.len() ==> (#[trigger] lines@[i])@ == all[from + i]
            }),
    {
        let all = self.text.lines();
        let mut lines: Vec<String> = Vec::new();
        let to: usize = if high <= all.len() { high } else { all.len() };
        let from: usize = if low <= all.len() { low } else { all.len() };
        let mut i: usize = from;
        while i < to
            invariant
                from <= i <= to <= all@.len(),
                lines@.len() == i - from,
                forall|k: int| 0 <= k < lines@.len() ==> (#[trigger] lines@[k])@ == all@[from + k]@,
            decreases to - i,
        {
            lines.push(all[i].clone());
            i += 1;
        }
        lines
    }

    /// `after` is this buffer after one of the edits that `op` may be, or
    /// this buffer still where the edit does not fit.
    pub open spec fn edit_applied(
        &self,
        after: &Buffer,
        ranges: Seq<(usize, usize)>,
        insert: Seq<u8>,
        edit_type: EditType,
    ) -> bool {
        if self.edit_fits(ranges.len(), insert.len()) {
            self.edited(after, replace_ops(ranges, insert, self.text().len() as usize), edit_type)
        } else {
            after.shows_what(self)
        }
    }

    /// `after` is this buffer after the operation `op` with viewport `vp`.
    pub open spec fn applied(&self, after: &Buffer, vp: Viewport, op: BufferOp) -> bool {
        match op {
            BufferOp::Insert(text) => self.edit_applied(
                after,
                selection_ranges(self.carets().carets),
                encode_utf8(text@),
                EditType::Insert,
            ),
            BufferOp::Delete(trajectory) => self.edit_applied(
                after,
                delete_ranges(self.carets().carets, self.text(), trajectory),
                Seq::empty(),
                EditType::Delete,
            ),
            BufferOp::DeleteSelected => self.edit_applied(
                after,
                selection_ranges(self.carets().carets),
                Seq::empty(),
                EditType::Delete,
            ),
            BufferOp::Undo => {
                &&& self.history().can_undo() ==> self.carets_carried_to(after)
                &&& after.history() == self.history().undo()
                &&& forall|k: int|
                    0 <= k < self.history().history.len() ==> #[trigger] after.text_at(k)
                        == self.text_at(k)
                &&& !self.history().can_undo() ==> after.shows_what(self)
            },
            BufferOp::Redo => {
                &&& self.history().can_redo() ==> self.carets_carried_to(after)
                &&& after.history() == self.history().redo()
                &&& forall|k: int|
                    0 <= k < self.history().history.len() ==> #[trigger] after.text_at(k)
                        == self.text_at(k)
                &&& !self.history().can_redo() ==> after.shows_what(self)
            },
            BufferOp::Move(motion) => after.same_text_as(self) && moved_carets(
                self.carets(),
                self.text(),
                vp,
                false,
                motion,
            ).settles_to(after.carets()),
            BufferOp::Selection(motion) => after.same_text_as(self) && moved_carets(
                self.carets(),
                self.text(),
                vp,
                true,
                motion,
            ).settles_to(after.carets()),
            BufferOp::NewCaret(motion) => {
                let first = self.carets().carets[0].region;
                let target = moved(self.text(), vp, first, false, motion);
                after.same_text_as(self) && if target == first {
                    after.carets() == self.carets()
                } else {
                    exists|id: RegionId|
                        self.carets().with_caret(id, target, true).settles_to(after.carets())
                }
            },
        }
    }

    /// Apply an operation of the user to the buffer. Edits and motions take
    /// place at every caret.
    pub fn apply_buffer_op(&mut self, vp: &Viewport, op: BufferOp)
        requires
            old(self).wf(),
            vp.first_line + vp.height <= usize::MAX,
        ensures
            final(self).wf(),
            old(self).applied(final(self), *vp, op),
    {
        match op {
            BufferOp::Insert(text) => self.insert_at_carets(text.as_str()),
            BufferOp::Delete(trajectory) => self.delete_at_carets(trajectory),
            BufferOp::DeleteSelected => self.delete_selected(),
            BufferOp::Undo => {
                self.undo();
            },
            BufferOp::Redo => {
                self.redo();
            },
            BufferOp::Move(motion) => self.move_carets(vp, motion),
            BufferOp::Selection(motion) => self.move_selections(vp, motion),
            BufferOp::NewCaret(motion) => self.new_caret(vp, motion),
        }
    }
}

} // verus!
