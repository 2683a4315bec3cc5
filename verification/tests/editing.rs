use bazed_core::edit::build_delta;
use bazed_core::buffer::Buffer;
use bazed_core::delta::Transformer;
use bazed_core::mark::Mark;
use bazed_core::position::Position;
use bazed_core::region::Region;
use bazed_core::region::Stickyness;
use bazed_core::text::Text;
use bazed_core::user_buffer_op::{BufferOp, Motion, Trajectory};
use bazed_core::view::Viewport;

fn heads(b: &Buffer) -> Vec<usize> {
    b.carets_list().iter().map(|r| r.head).collect()
}

#[test]
fn insert_then_backspace_restores_text_and_caret() {
    let mut b = Buffer::new_from_string("hello world".to_string());
    b.set_primary_caret(Region::sticky_cursor(5));
    b.insert_at_carets("abc");
    assert_eq!("helloabc world", b.content_to_string());
    assert_eq!(vec![8], heads(&b));
    b.delete_at_carets(Trajectory::Backwards);
    b.delete_at_carets(Trajectory::Backwards);
    b.delete_at_carets(Trajectory::Backwards);
    assert_eq!("hello world", b.content_to_string());
    assert_eq!(vec![5], heads(&b));
}

#[test]
fn backspace_removes_a_whole_code_point() {
    let mut b = Buffer::new_from_string("ab".to_string());
    b.set_primary_caret(Region::sticky_cursor(1));
    b.insert_at_carets("é日");
    assert_eq!("aé日b", b.content_to_string());
    assert_eq!(vec![6], heads(&b));
    b.delete_at_carets(Trajectory::Backwards);
    assert_eq!("aéb", b.content_to_string());
    assert_eq!(vec![3], heads(&b));
    b.delete_at_carets(Trajectory::Backwards);
    assert_eq!("ab", b.content_to_string());
    assert_eq!(vec![1], heads(&b));
    b.insert_at_carets("é");
    b.set_primary_caret(Region::sticky_cursor(1));
    b.delete_at_carets(Trajectory::Forwards);
    assert_eq!("ab", b.content_to_string());
    assert_eq!(vec![1], heads(&b));
}

#[test]
fn undo_then_redo_reproduces_every_text() {
    let vp = Viewport::new_ginormeous();
    let mut b = Buffer::new_empty();
    let mut texts = vec![b.content_to_string()];
    b.insert_at_carets("one");
    texts.push(b.content_to_string());
    b.delete_at_carets(Trajectory::Backwards);
    texts.push(b.content_to_string());
    b.insert_at_carets(" two\nthree");
    b.apply_buffer_op(&vp, BufferOp::Move(Motion::Up));
    b.insert_at_carets("!");
    texts.push(b.content_to_string());
    b.apply_buffer_op(&vp, BufferOp::Selection(Motion::Right));
    b.apply_buffer_op(&vp, BufferOp::DeleteSelected);
    texts.push(b.content_to_string());
    assert_eq!(vec!["", "one", "on", "on tw!o\nthree", "on tw!\nthree"], texts);

    for step in (0..texts.len() - 1).rev() {
        assert!(b.undo());
        assert_eq!(texts[step], b.content_to_string());
    }
    assert!(!b.undo());
    assert_eq!("", b.content_to_string());
    for step in 1..texts.len() {
        assert!(b.redo());
        assert_eq!(texts[step], b.content_to_string());
    }
    assert!(!b.redo());
    assert_eq!(texts[4], b.content_to_string());
}

#[test]
fn undo_with_nothing_to_undo_changes_nothing() {
    let mut b = Buffer::new_empty();
    assert!(!b.undo());
    assert_eq!("", b.content_to_string());
    assert!(!b.redo());
    let vp = Viewport::new_ginormeous();
    b.apply_buffer_op(&vp, BufferOp::Undo);
    assert_eq!("", b.content_to_string());
    assert_eq!(vec![0], heads(&b));
}

#[test]
fn an_edit_after_an_undo_cuts_off_the_future() {
    let mut b = Buffer::new_empty();
    b.insert_at_carets("a");
    b.delete_at_carets(Trajectory::Backwards);
    b.insert_at_carets("b");
    assert!(b.undo());
    assert!(b.undo());
    assert_eq!("a", b.content_to_string());
    b.insert_at_carets("c");
    assert_eq!("ac", b.content_to_string());
    assert!(!b.redo());
    assert!(b.undo());
    assert_eq!("a", b.content_to_string());
    assert!(b.undo());
    assert_eq!("", b.content_to_string());
    assert!(b.redo());
    assert!(b.redo());
    assert_eq!("ac", b.content_to_string());
}

#[test]
fn new_carets_edit_together_and_stay_ordered() {
    let vp = Viewport::new_ginormeous();
    let mut b = Buffer::new_from_string("ab\ncd\nef".to_string());
    b.apply_buffer_op(&vp, BufferOp::NewCaret(Motion::Down));
    b.apply_buffer_op(&vp, BufferOp::NewCaret(Motion::Down));
    assert_eq!(vec![0, 3], heads(&b));
    b.insert_at_carets("X");
    assert_eq!("Xab\nXcd\nef", b.content_to_string());
    assert_eq!(vec![1, 5], heads(&b));
    b.delete_at_carets(Trajectory::Forwards);
    assert_eq!("Xb\nXd\nef", b.content_to_string());
    assert_eq!(vec![1, 4], heads(&b));
    let carets = b.carets_list();
    for pair in carets.iter().collect::<Vec<_>>().windows(2) {
        assert!(pair[0].range().end < pair[1].range().start);
    }
}

#[test]
fn a_new_caret_on_an_existing_one_merges() {
    let vp = Viewport::new_ginormeous();
    let mut b = Buffer::new_from_string("abc".to_string());
    b.apply_buffer_op(&vp, BufferOp::NewCaret(Motion::Right));
    assert_eq!(vec![0, 1], heads(&b));
    b.apply_buffer_op(&vp, BufferOp::NewCaret(Motion::Right));
    assert_eq!(vec![0, 1], heads(&b));
    assert_eq!(2, b.carets_list().len());
    // a motion that leads nowhere adds no caret
    b.apply_buffer_op(&vp, BufferOp::NewCaret(Motion::Left));
    assert_eq!(vec![0, 1], heads(&b));
    // moving all carets to the start of the line makes them one
    b.apply_buffer_op(&vp, BufferOp::Move(Motion::StartOfLine));
    assert_eq!(vec![0], heads(&b));
}

#[test]
fn selections_that_come_to_overlap_merge() {
    let vp = Viewport::new_ginormeous();
    let mut b = Buffer::new_from_string("hello world".to_string());
    b.set_primary_caret(Region::sticky(2, 0));
    b.apply_buffer_op(&vp, BufferOp::NewCaret(Motion::NextWordBoundary(
        bazed_core::word_boundary::WordBoundaryType::End,
    )));
    assert_eq!(vec![2, 5], heads(&b));
    // extending both selections to the end of the line makes them overlap
    b.apply_buffer_op(&vp, BufferOp::Selection(Motion::EndOfLine));
    let carets = b.carets_list();
    assert_eq!(1, carets.len());
    assert_eq!((0..11), carets.first().range());
    assert_eq!(11, carets.first().head);
}

#[test]
fn delete_selected_removes_what_the_carets_span() {
    let vp = Viewport::new_ginormeous();
    let mut b = Buffer::new_from_string("hello world".to_string());
    b.set_primary_caret(Region::sticky(5, 2));
    b.apply_buffer_op(&vp, BufferOp::DeleteSelected);
    assert_eq!("he world", b.content_to_string());
    assert_eq!((2..2), b.carets_list().first().range());
    b.delete_selected();
    assert_eq!("he world", b.content_to_string());
}

#[test]
fn jumping_places_a_single_caret() {
    let vp = Viewport::new_ginormeous();
    let mut b = Buffer::new_from_string("foo\nx\nbar".to_string());
    b.apply_buffer_op(&vp, BufferOp::NewCaret(Motion::Down));
    assert_eq!(2, b.carets_list().len());
    assert!(!b.jump_caret_to_position(Position::new(1, 5), false));
    assert_eq!(2, b.carets_list().len());
    assert!(b.jump_caret_to_position(Position::new(2, 1), false));
    assert_eq!(vec![7], heads(&b));
    assert_eq!(Position::new(2, 1), b.primary_caret_position());
    assert!(b.jump_caret_to_position(Position::new(1, 5), true));
    assert_eq!(vec![5], heads(&b));
    assert!(b.jump_caret_to_position(Position::new(9, 9), true));
    assert_eq!(vec![9], heads(&b));
    assert!(!b.jump_caret_to_position(Position::new(3, 0), false));
    assert_eq!(vec![9], heads(&b));
}

#[test]
fn lines_of_the_buffer() {
    let b = Buffer::new_from_string("zero\none\r\ntwo\nthree".to_string());
    assert_eq!(4, b.line_count());
    assert_eq!(vec!["one", "two"], b.lines_between(1, 3));
    assert_eq!(vec!["three"], b.lines_between(3, 10));
    assert!(b.lines_between(7, 9).is_empty());
    assert!(b.lines_between(2, 2).is_empty());
    assert_eq!(1, Buffer::new_empty().line_count());
    assert_eq!("zero\none\r\ntwo\nthree", b.head_rope().to_string());
}

#[test]
fn collapsing_selections_keeps_the_heads() {
    let vp = Viewport::new_ginormeous();
    let mut b = Buffer::new_from_string("hello".to_string());
    b.apply_buffer_op(&vp, BufferOp::Selection(Motion::Right));
    b.apply_buffer_op(&vp, BufferOp::Selection(Motion::Right));
    b.collapse_selections();
    assert_eq!((2..2), b.carets_list().first().range());
}

#[test]
fn column_is_remembered_across_a_shorter_line() {
    let vp = Viewport::new_ginormeous();
    let mut b = Buffer::new_from_string("hello\nxx\nworld".to_string());
    b.set_primary_caret(Region::sticky_cursor(4));
    b.move_carets(&vp, Motion::Down);
    assert_eq!(Position::new(1, 2), b.primary_caret_position());
    assert_eq!(Some(4), b.carets_list().first().preferred_column);
    b.move_carets(&vp, Motion::Down);
    assert_eq!(Position::new(2, 4), b.primary_caret_position());
    b.move_carets(&vp, Motion::Up);
    b.move_carets(&vp, Motion::Up);
    assert_eq!(Position::new(0, 4), b.primary_caret_position());
}

#[test]
fn deltas_carry_regions_and_marks() {
    let text = Text::new("0123456789");
    // replace 2..4 by "abc" and delete 6..7
    let insert = Text::new("abc");
    let delta = build_delta(&vec![(2, 4)], &insert, text.len());
    let mut transformer = Transformer::new(&delta);
    assert_eq!(0, transformer.transform(0, true));
    assert_eq!(2, transformer.transform(2, false));
    assert_eq!(5, transformer.transform(2, true));
    assert_eq!(5, transformer.transform(3, true));
    assert_eq!(5, transformer.transform(4, false));
    assert_eq!(6, transformer.transform(5, false));
    assert_eq!(11, transformer.transform(10, true));

    let mut sticky = Region::sticky(2, 7);
    sticky.apply_transformer(&mut transformer);
    assert_eq!((5, 8), (sticky.head, sticky.tail));
    let mut loose = Region {
        stickyness: Stickyness::NonSticky,
        ..Region::sticky(2, 7)
    };
    loose.apply_transformer(&mut transformer);
    assert_eq!((2, 8), (loose.head, loose.tail));

    let mut mark = Mark::sticky(2);
    mark.apply_transformer(&mut transformer);
    assert_eq!(5, mark.offset);
    let mut mark = Mark::non_sticky(2);
    mark.apply_transformer(&mut transformer);
    assert_eq!(2, mark.offset);

    let nothing = Text::new("");
    let delta = build_delta(&vec![(1, 2), (6, 7)], &nothing, text.len());
    let mut transformer = Transformer::new(&delta);
    assert_eq!(1, transformer.transform(2, true));
    assert_eq!(5, transformer.transform(6, true));
    assert_eq!(5, transformer.transform(7, true));
    assert_eq!(8, transformer.transform(10, true));
}

#[test]
fn regions_merge_into_their_union() {
    let a = Region::sticky(3, 1);
    let b = Region::sticky(2, 6);
    let merged = a.merged_with(&b);
    assert_eq!((6, 1), (merged.head, merged.tail));
    let backwards = Region::sticky(1, 3);
    let merged = backwards.merged_with(&b);
    assert_eq!((1, 6), (merged.head, merged.tail));
    assert_eq!((1..3), backwards.range());
    assert_eq!(Region::sticky_cursor(0), Region::default());
}
