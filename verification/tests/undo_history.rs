use bazed_core::undo_history::UndoHistory;
use std::collections::BTreeSet;

/// Assert the whole state of a history.
fn assert_hist(h: &UndoHistory, gid: usize, idx: usize, history: Vec<usize>, undone: Vec<usize>) {
    assert_eq!(gid, h.current_undo_group_id());
    assert_eq!(idx, h.current_history_index());
    assert_eq!(&history, h.history());
    assert_eq!(&BTreeSet::from_iter(undone), h.currently_undone());
}

#[test]
fn test_update_history() {
    let mut h = UndoHistory::default();
    assert_hist(&h, 0, 0, vec![0], vec![]);
    h.perform_edit(true);
    assert_hist(&h, 1, 1, vec![0, 1], vec![]);
    h.perform_edit(false);
    assert_hist(&h, 1, 1, vec![0, 1], vec![]);
    h.perform_edit(true);
    assert_hist(&h, 2, 2, vec![0, 1, 2], vec![]);
}

#[test]
fn test_undo() {
    let mut h = UndoHistory::default();
    h.perform_edit(true);
    h.perform_edit(true);
    assert_hist(&h, 2, 2, vec![0, 1, 2], vec![]);
    assert!(h.undo());
    assert_hist(&h, 2, 1, vec![0, 1, 2], vec![2]);
    assert!(h.undo());
    assert_hist(&h, 2, 0, vec![0, 1, 2], vec![1, 2]);
}

#[test]
fn test_undo_no_inserts() {
    let mut h = UndoHistory::default();
    assert!(!h.undo());
    assert_hist(&h, 0, 0, vec![0], vec![]);
}

#[test]
fn test_undo_edit_undo() {
    let mut h = UndoHistory::default();
    h.perform_edit(true);
    h.undo();
    // True or false should not matter here, as we should _always_ create a new
    // group when working off of a past state
    h.perform_edit(false);
    assert_hist(&h, 2, 1, vec![0, 2], vec![1]);
}

#[test]
fn test_empty_redo() {
    let mut h = UndoHistory::default();
    h.perform_edit(true);
    assert!(!h.redo());
    assert_hist(&h, 1, 1, vec![0, 1], vec![]);
}

#[test]
fn undo_history_test_undo_redo() {
    let mut h = UndoHistory::default();
    h.perform_edit(true);
    h.undo();
    assert_hist(&h, 1, 0, vec![0, 1], vec![1]);
    assert!(h.redo());
    assert_hist(&h, 1, 1, vec![0, 1], vec![]);
}

#[test]
fn undo_reports_active_id_and_abilities() {
    let mut h = UndoHistory::default();
    assert!(!h.can_undo());
    assert!(!h.can_redo());
    h.perform_edit(true);
    h.perform_edit(true);
    assert_eq!(2, h.get_active_undo_id());
    h.undo();
    assert_eq!(1, h.get_active_undo_id());
    assert!(h.can_undo());
    assert!(h.can_redo());
}
