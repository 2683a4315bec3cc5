//! A linear undo history: undo groups, a cursor into time, and the set of
//! groups that are currently rolled back.

use std::collections::BTreeSet;
use vstd::prelude::*;

verus! {

broadcast use {vstd::std_specs::btree::group_btree_axioms, vstd::laws_cmp::group_laws_cmp};

/// The mathematical state of an [`UndoHistory`].
///
/// A sample editing history:
/// ```text
/// initial           => gid = 0, history = [0         ], idx = 0, undone = {}
/// edit[new_group=t] => gid = 1, history = [0, 1      ], idx = 1, undone = {}
/// edit[new_group=f] => gid = 1, history = [0, 1      ], idx = 1, undone = {}
/// edit[new_group=t] => gid = 2, history = [0, 1, 2   ], idx = 2, undone = {}
/// undo              => gid = 2, history = [0, 1, 2   ], idx = 1, undone = { 2 }
/// edit[new_group=f] => gid = 3, history = [0, 1,    3], idx = 2, undone = { 2 }
/// ```
pub struct UndoState {
    /// The undo group id that edits are currently grouped under.
    pub gid: usize,
    /// The position in `history` of the most recent edit that is applied.
    pub idx: usize,
    /// The undo groups that can be undone or redone to.
    pub history: Seq<usize>,
    /// The undo groups that are rolled back. Groups that were undone and then
    /// cut off by a later edit stay in this set.
    pub undone: Set<usize>,
}

impl UndoState {
    /// The state of a history in which nothing was edited yet.
    pub open spec fn initial() -> Self {
        UndoState { gid: 0, idx: 0, history: seq![0usize], undone: Set::empty() }
    }

    /// What every reachable state satisfies.
    pub open spec fn wf(self) -> bool {
        &&& self.idx < self.history.len() <= usize::MAX
        &&& self.history.last() == self.gid
        &&& forall|i: int, j: int|
            0 <= i < j < self.history.len() ==> self.history[i] < self.history[j]
        &&& forall|i: int| 0 <= i <= self.idx ==> !self.undone.contains(#[trigger] self.history[i])
        &&& forall|i: int|
            self.idx < i < self.history.len() ==> self.undone.contains(#[trigger] self.history[i])
        &&& forall|g: usize| self.undone.contains(g) ==> g <= self.gid
    }

    /// The cursor stands on the newest entry of the history.
    pub open spec fn at_tip(self) -> bool {
        self.idx == self.history.len() - 1
    }

    /// An edit opens a new undo group when it is told to, and whenever the
    /// history was undone into: the undone future is then cut off.
    pub open spec fn needs_new_group(self, new_group: bool) -> bool {
        new_group || !self.at_tip()
    }

    /// The state after an edit.
    pub open spec fn perform_edit(self, new_group: bool) -> Self {
        if self.needs_new_group(new_group) {
            UndoState {
                gid: (self.gid + 1) as usize,
                idx: (self.idx + 1) as usize,
                history: self.history.take(self.idx + 1).push((self.gid + 1) as usize),
                undone: self.undone,
            }
        } else {
            self
        }
    }

    pub open spec fn can_undo(self) -> bool {
        self.idx > 0
    }

    pub open spec fn can_redo(self) -> bool {
        self.idx < self.history.len() - 1
    }

    /// The undo group of the most recent edit that is applied.
    pub open spec fn active_id(self) -> usize {
        self.history[self.idx as int]
    }

    /// The state after an undo; unchanged where nothing can be undone.
    pub open spec fn undo(self) -> Self {
        if self.can_undo() {
            UndoState {
                idx: (self.idx - 1) as usize,
                undone: self.undone.insert(self.active_id()),
                ..self
            }
        } else {
            self
        }
    }

    /// The state after a redo; unchanged where nothing can be redone.
    pub open spec fn redo(self) -> Self {
        if self.can_redo() {
            UndoState {
                idx: (self.idx + 1) as usize,
                undone: self.undone.remove(self.history[self.idx + 1]),
                ..self
            }
        } else {
            self
        }
    }

    /// The groups that are rolled back once the cursor stands at position `k`
    /// of the history: those rolled back now, without the entries up to `k`,
    /// with the entries after `k`.
    pub open spec fn undone_at(self, k: int) -> Set<usize> {
        Set::new(
            |g: usize|
                (self.undone.contains(g) && !(exists|i: int| 0 <= i <= k && self.history[i] == g))
                    || (exists|i: int| k < i < self.history.len() && self.history[i] == g),
        )
    }
}

/// An edit that opens a new undo group leaves the groups that are rolled
/// back at an earlier position as they were, but for the new group.
pub proof fn lemma_undone_at_new_group(h: UndoState, new_group: bool, k: int)
    requires
        h.wf(),
        h.needs_new_group(new_group),
        h.gid < usize::MAX,
        0 <= k <= h.idx,
    ensures
        h.perform_edit(new_group).undone_at(k) == h.undone_at(k).insert((h.gid + 1) as usize),
{
    let after = h.perform_edit(new_group);
    let gid = (h.gid + 1) as usize;
    assert forall|g: usize| after.undone_at(k).contains(g) == h.undone_at(k).insert(gid).contains(
        g,
    ) by {
        assert(after.history[h.idx + 1] == gid);
        assert(forall|i: int| 0 <= i <= h.idx ==> after.history[i] == h.history[i]);
        if g == gid {
            assert(h.idx + 1 < after.history.len() && after.history[h.idx + 1] == g);
        } else {
            let a_before = exists|i: int| 0 <= i <= k && h.history[i] == g;
            let a_after = exists|i: int| 0 <= i <= k && after.history[i] == g;
            if a_before {
                let i = choose|i: int| 0 <= i <= k && h.history[i] == g;
                assert(after.history[i] == g);
            }
            if a_after {
                let i = choose|i: int| 0 <= i <= k && after.history[i] == g;
                assert(h.history[i] == g);
            }
            let b_before = exists|i: int| k < i < h.history.len() && h.history[i] == g;
            let b_after = exists|i: int| k < i < after.history.len() && after.history[i] == g;
            if b_after {
                let i = choose|i: int| k < i < after.history.len() && after.history[i] == g;
                assert(h.history[i] == g);
            }
            if b_before {
                let i = choose|i: int| k < i < h.history.len() && h.history[i] == g;
                if i <= h.idx {
                    assert(after.history[i] == g);
                } else {
                    assert(h.undone.contains(h.history[i]));
                    if a_after {
                        let j = choose|j: int| 0 <= j <= k && after.history[j] == g;
                        assert(h.history[j] < h.history[i]);
                    }
                }
            }
        }
    }
    assert(after.undone_at(k) =~= h.undone_at(k).insert(gid));
}

/// An undo or a redo leaves the groups that are rolled back at any position
/// of the history as they were.
pub proof fn lemma_undone_at_stable(h: UndoState, k: int)
    requires
        h.wf(),
        0 <= k < h.history.len(),
    ensures
        h.undo().undone_at(k) == h.undone_at(k),
        h.redo().undone_at(k) == h.undone_at(k),
{
    let u = h.undo();
    assert forall|g: usize| u.undone_at(k).contains(g) == h.undone_at(k).contains(g) by {
        if h.can_undo() && g == h.active_id() {
            if h.idx <= k {
                assert(0 <= h.idx <= k && h.history[h.idx as int] == g);
            } else {
                assert(k < h.idx < h.history.len() && h.history[h.idx as int] == g);
            }
        }
    }
    assert(u.undone_at(k) =~= h.undone_at(k));
    let r = h.redo();
    assert forall|g: usize| r.undone_at(k).contains(g) == h.undone_at(k).contains(g) by {
        if h.can_redo() && g == h.history[h.idx + 1] {
            if h.idx + 1 <= k {
                assert(0 <= h.idx + 1 <= k && h.history[h.idx + 1] == g);
            } else {
                assert(k < h.idx + 1 < h.history.len() && h.history[h.idx + 1] == g);
            }
        }
    }
    assert(r.undone_at(k) =~= h.undone_at(k));
}

/// An undo followed by a redo, and a redo followed by an undo, lead back to
/// the state they began from.
pub proof fn lemma_undo_redo_inverse(h: UndoState)
    requires
        h.wf(),
    ensures
        h.can_undo() ==> h.undo().redo() == h,
        h.can_redo() ==> h.redo().undo() == h,
        h.undo().wf(),
        h.redo().wf(),
{
    if h.can_undo() {
        let u = h.undo();
        assert(u.history[u.idx + 1] == h.active_id());
        assert(u.redo().undone =~= h.undone);
    }
    if h.can_redo() {
        let r = h.redo();
        assert(h.undone.contains(h.history[h.idx + 1]));
        assert(r.active_id() == h.history[h.idx + 1]);
        assert(r.undo().undone =~= h.undone);
    }
}

/// Manages an undo history, including undo groupings and redo.
#[derive(Debug)]
pub struct UndoHistory {
    /// The undo group id that current edits are grouped under. It only ever
    /// increments: ids are never reused, even after an undo.
    cur_undo_gid: usize,
    /// The current position in the history, a cursor into time: entries after
    /// it are in the future and may be redone to, entries before it are in
    /// the past and may be undone to.
    cur_history_idx: usize,
    /// The undo groups that are currently relevant.
    history: Vec<usize>,
    /// The undo groups that are currently undone.
    currently_undone: BTreeSet<usize>,
}

impl View for UndoHistory {
    type V = UndoState;

    closed spec fn view(&self) -> UndoState {
        UndoState {
            gid: self.cur_undo_gid,
            idx: self.cur_history_idx,
            history: self.history@,
            undone: self.currently_undone@,
        }
    }
}

impl Default for UndoHistory {
    fn default() -> (h: Self)
        ensures
            h@ == UndoState::initial(),
            h@.wf(),
    {
        let mut history: Vec<usize> = Vec::new();
        history.push(0);
        let h = Self {
            cur_undo_gid: 0,
            cur_history_idx: 0,
            history,
            currently_undone: BTreeSet::new(),
        };
        assert(h@.history =~= seq![0usize]);
        h
    }
}

impl UndoHistory {
    /// This is called on every edit. Where a new undo group is due, it makes
    /// a new group id, cuts off the entries of the history that lie in the
    /// future and appends the new group. It returns the group of the edit.
    pub fn perform_edit(&mut self, new_undo_group: bool) -> (gid: usize)
        requires
            old(self)@.wf(),
            old(self)@.needs_new_group(new_undo_group) ==> old(self)@.gid < usize::MAX,
        ensures
            final(self)@ == old(self)@.perform_edit(new_undo_group),
            final(self)@.wf(),
            gid == final(self)@.gid,
    {
        let len: usize = self.history.len();
        let needs_new_undo_group: bool = new_undo_group || self.cur_history_idx != len - 1;
        if needs_new_undo_group {
            let ghost before = self@;
            self.cur_undo_gid += 1;
            self.cur_history_idx += 1;
            self.history.truncate(self.cur_history_idx);
            self.history.push(self.cur_undo_gid);
            let _len: usize = self.history.len();
            proof {
                assert(self@.history =~= before.perform_edit(new_undo_group).history);
                assert forall|i: int| 0 <= i <= self@.idx implies !self@.undone.contains(
                    #[trigger] self@.history[i],
                ) by {
                    if i < self@.idx {
                        assert(self@.history[i] == before.history[i]);
                    }
                }
            }
        }
        self.cur_undo_gid
    }

    /// The set of undo groups that are currently rolled back.
    pub fn currently_undone(&self) -> (undone: &BTreeSet<usize>)
        ensures
            undone@ == self@.undone,
    {
        &self.currently_undone
    }

    pub fn current_undo_group_id(&self) -> (gid: usize)
        ensures
            gid == self@.gid,
    {
        self.cur_undo_gid
    }

    /// The position of the cursor in the history.
    pub fn current_history_index(&self) -> (idx: usize)
        ensures
            idx == self@.idx,
    {
        self.cur_history_idx
    }

    /// The undo groups that can be undone or redone to, oldest first.
    pub fn history(&self) -> (history: &Vec<usize>)
        ensures
            history@ == self@.history,
    {
        &self.history
    }

    pub fn can_undo(&self) -> (b: bool)
        ensures
            b == self@.can_undo(),
    {
        self.cur_history_idx > 0
    }

    pub fn can_redo(&self) -> (b: bool)
        requires
            self@.wf(),
        ensures
            b == self@.can_redo(),
    {
        self.cur_history_idx < self.history.len() - 1
    }

    /// The id of the point in history that is currently undone to: with a
    /// history of `[0, 1, 2]` and one undo, this is 1.
    pub fn get_active_undo_id(&self) -> (id: usize)
        requires
            self@.wf(),
        ensures
            id == self@.active_id(),
    {
        self.history[self.cur_history_idx]
    }

    /// Step back in the history. Returns false, and changes nothing, where
    /// there is nothing to undo.
    pub fn undo(&mut self) -> (done: bool)
        requires
            old(self)@.wf(),
        ensures
            done == old(self)@.can_undo(),
            final(self)@ == old(self)@.undo(),
            final(self)@.wf(),
    {
        if !self.can_undo() {
            return false;
        }
        let id: usize = self.get_active_undo_id();
        self.currently_undone.insert(id);
        self.cur_history_idx -= 1;
        true
    }

    /// Step forward in the history. Returns false, and changes nothing, where
    /// there is nothing to redo.
    pub fn redo(&mut self) -> (done: bool)
        requires
            old(self)@.wf(),
        ensures
            done == old(self)@.can_redo(),
            final(self)@ == old(self)@.redo(),
            final(self)@.wf(),
    {
        if !self.can_redo() {
            return false;
        }
        let len: usize = self.history.len();
        assert(self.cur_history_idx + 1 < len);
        self.cur_history_idx += 1;
        let id: usize = self.history[self.cur_history_idx];
        self.currently_undone.remove(&id);
        true
    }
}

} // verus!
