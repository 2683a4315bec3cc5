use bazed_core::edit::build_delta;
use bazed_core::delta::Transformer;
use bazed_core::engine::RevisionEngine;
use bazed_core::engine::RevisionError;
use bazed_core::text::Text;
use std::collections::BTreeSet;

#[test]
fn commits_can_be_rolled_back_by_group() {
    let text = Text::new("hello");
    let mut engine = RevisionEngine::new(&text);
    assert_eq!("hello", engine.head().to_string());
    let first = engine.head_revision_token();

    let delta = build_delta(&vec![(5, 5)], &Text::new(" world"), 5);
    let head = engine.commit(delta, 1);
    assert_eq!("hello world", head.to_string());
    let delta = build_delta(&vec![(0, 1)], &Text::new("J"), 11);
    let head = engine.commit(delta, 2);
    assert_eq!("Jello world", head.to_string());
    assert_ne!(first, engine.head_revision_token());

    assert_eq!("hello world", engine.undo(BTreeSet::from([2])).to_string());
    assert_eq!("Jello", engine.undo(BTreeSet::from([1])).to_string());
    assert_eq!("hello", engine.undo(BTreeSet::from([1, 2])).to_string());
    // groups that no edit was filed under do not matter
    assert_eq!("hello", engine.undo(BTreeSet::from([1, 2, 9])).to_string());
    assert_eq!("Jello world", engine.undo(BTreeSet::new()).to_string());
    // the snapshot taken earlier stays as it was
    assert_eq!("Jello world", head.to_string());
    assert_eq!("hello", text.to_string());
}

#[test]
fn the_delta_from_a_revision_carries_offsets_to_the_head() {
    let mut engine = RevisionEngine::new(&Text::new("hello"));
    let first = engine.head_revision_token();
    let delta = build_delta(&vec![(0, 0)], &Text::new(">> "), 5);
    engine.commit(delta, 1);
    let delta = match engine.delta_from_head(first) {
        Ok(delta) => delta,
        Err(_) => panic!("the engine holds its first revision"),
    };
    let mut transformer = Transformer::new(&delta);
    assert_eq!(3, transformer.transform(0, true));
    assert_eq!(5, transformer.transform(2, true));
    assert_eq!(8, transformer.transform(5, true));
    assert!(matches!(
        engine.delta_from_head(first.wrapping_add(1)),
        Err(RevisionError::Unavailable)
    ));
}

/// An engine that went through a fixed history; with `last`, one more edit
/// is filed under group 3 while group 1 is rolled back.
fn engine_with_history(last: bool) -> RevisionEngine {
    let mut engine = RevisionEngine::new(&Text::new("0123456789"));
    // "01ab23456789"
    engine.commit(build_delta(&vec![(2, 2)], &Text::new("ab"), 10), 1);
    // "01ab23789"
    engine.commit(build_delta(&vec![(6, 9)], &Text::new(""), 12), 2);
    // "X1ab23789"
    engine.commit(build_delta(&vec![(0, 1)], &Text::new("X"), 9), 2);
    assert_eq!("X1ab23789", engine.head().to_string());
    assert_eq!("X123789", engine.undo(BTreeSet::from([1])).to_string());
    if last {
        let delta = build_delta(&vec![(1, 3), (5, 5)], &Text::new("é"), 7);
        assert_eq!("Xé37é89", engine.commit(delta, 3).to_string());
    }
    engine
}

fn subsets(groups: &[usize]) -> Vec<BTreeSet<usize>> {
    let mut all = vec![BTreeSet::new()];
    for group in groups {
        let mut more = all.clone();
        for set in more.iter_mut() {
            set.insert(*group);
        }
        all.extend(more);
    }
    all
}

#[test]
fn rolling_back_the_group_of_an_edit_hides_the_edit() {
    let mut before = engine_with_history(false);
    let mut after = engine_with_history(true);
    for groups in subsets(&[1, 2]) {
        let mut with_last = groups.clone();
        with_last.insert(3);
        assert_eq!(
            before.undo(with_last.clone()).to_string(),
            after.undo(with_last).to_string()
        );
        // a group that no edit was filed under does not matter
        assert_eq!(
            before.undo(groups.clone()).to_string(),
            before.undo(groups.iter().copied().chain([7]).collect()).to_string()
        );
    }
    // rolling back does not depend on what was rolled back before
    assert_eq!("0123456789", after.undo(BTreeSet::from([1, 2, 3])).to_string());
    assert_eq!("Xé37é89", after.undo(BTreeSet::from([1])).to_string());
    assert_eq!("01ab23456789", after.undo(BTreeSet::from([2, 3])).to_string());
    assert_eq!("0123456789", after.undo(BTreeSet::from([1, 2, 3])).to_string());
}

#[test]
fn an_edit_in_a_known_group_is_rolled_back_with_the_group() {
    let mut before = RevisionEngine::new(&Text::new("abc"));
    before.commit(build_delta(&vec![(3, 3)], &Text::new("d"), 3), 1);
    let mut after = RevisionEngine::new(&Text::new("abc"));
    after.commit(build_delta(&vec![(3, 3)], &Text::new("d"), 3), 1);
    assert_eq!("abcde", after.commit(build_delta(&vec![(4, 4)], &Text::new("e"), 4), 1).to_string());
    assert_eq!("abc", before.undo(BTreeSet::from([1])).to_string());
    assert_eq!("abc", after.undo(BTreeSet::from([1])).to_string());
}

#[test]
fn the_engine_keeps_every_revision() {
    let mut engine = RevisionEngine::new(&Text::new("hello"));
    let mut heads = vec![engine.head_revision_token()];
    engine.commit(build_delta(&vec![(5, 5)], &Text::new("!"), 5), 1);
    heads.push(engine.head_revision_token());
    engine.undo(BTreeSet::from([1]));
    heads.push(engine.head_revision_token());
    engine.commit(build_delta(&vec![(0, 1)], &Text::new(""), 5), 2);
    heads.push(engine.head_revision_token());
    assert_eq!("ello", engine.head().to_string());
    // every earlier head is held still, and its delta leads to the head
    let ends = [5, 6, 5, 4];
    for (head, end) in heads.iter().zip(ends) {
        let delta = match engine.delta_from_head(*head) {
            Ok(delta) => delta,
            Err(RevisionError::Unavailable) => panic!("the engine holds the revision"),
        };
        assert_eq!(4, Transformer::new(&delta).transform(end, true));
    }
    assert_eq!(4, heads.iter().collect::<BTreeSet<_>>().len());
}
