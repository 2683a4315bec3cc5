use bazed_core::buffer::Buffer;
use bazed_core::movement::apply_motion_to_region;
use bazed_core::position::Position;
use bazed_core::region::Region;
use bazed_core::text::Text;
use bazed_core::user_buffer_op::{BufferOp, Motion, Trajectory};
use bazed_core::view::Viewport;
use bazed_core::word_boundary::WordBoundaryType;

#[test]
fn test_insert() {
    let mut b = Buffer::new_empty();
    b.insert_at_carets("hel");
    b.insert_at_carets("lo");
    assert_eq!("hello", b.content_to_string());
}

#[test]
fn test_insert_at_selection() {
    let mut b = Buffer::new_empty();
    b.insert_at_carets("hello");
    b.set_primary_caret(Region::sticky(1, 3));
    b.insert_at_carets("X");
    assert_eq!("hXlo", b.content_to_string());
}

#[test]
fn test_delete_forwards() {
    let mut b = Buffer::new_from_string("a".to_string());
    b.delete_at_carets(Trajectory::Forwards);
    assert_eq!("", b.content_to_string());
}

#[test]
fn test_delete_backwards() {
    let mut b = Buffer::new_from_string("a".to_string());
    b.set_primary_caret(Region::sticky_cursor(1));
    b.delete_at_carets(Trajectory::Backwards);
    assert_eq!("", b.content_to_string());
}

#[test]
fn test_delete_selection() {
    let mut b = Buffer::new_from_string("hello".to_string());
    b.set_primary_caret(Region::sticky(1, 3));
    b.delete_at_carets(Trajectory::Backwards);
    assert_eq!("ello", b.content_to_string());
}

#[test]
fn test_delete_empty() {
    let mut b = Buffer::new_empty();
    b.delete_at_carets(Trajectory::Backwards);
    assert_eq!("", b.content_to_string());
}

#[test]
fn buffer_test_move_next_word_boundary() {
    let t = Text::new("hello hello hello");
    let vp = Viewport::new_ginormeous();
    let motion_start = Motion::NextWordBoundary(WordBoundaryType::Start);
    let motion_end = Motion::NextWordBoundary(WordBoundaryType::End);
    assert_eq!(
        5,
        apply_motion_to_region(&t, &vp, Region::sticky_cursor(1), false, motion_end).head
    );
    assert_eq!(
        6,
        apply_motion_to_region(&t, &vp, Region::sticky_cursor(1), false, motion_start).head
    );
    assert_eq!(
        12,
        apply_motion_to_region(&t, &vp, Region::sticky_cursor(6), false, motion_start).head,
        "Next word boundary should move you, even when starting on a word bounadry",
    );
    assert_eq!(
        17,
        apply_motion_to_region(&t, &vp, Region::sticky_cursor(13), false, motion_end).head,
        "End of the string should be seen as a boundary when moving forwards",
    );
}

#[test]
fn buffer_test_move_previous_word_boundary() {
    let t = Text::new("hello hello hello");
    let vp = Viewport::new_ginormeous();
    let motion_start = Motion::PrevWordBoundary(WordBoundaryType::Start);
    let motion_end = Motion::PrevWordBoundary(WordBoundaryType::End);
    assert_eq!(
        0,
        apply_motion_to_region(&t, &vp, Region::sticky_cursor(3), false, motion_start).head,
        "Start of the string should be seen as a boundary when moving backwards",
    );
    assert_eq!(
        0,
        apply_motion_to_region(&t, &vp, Region::sticky_cursor(3), false, motion_start).head,
        "Start of the string should be seen as a boundary when moving backwards",
    );
    assert_eq!(
        5,
        apply_motion_to_region(&t, &vp, Region::sticky_cursor(8), false, motion_end).head
    );
    assert_eq!(
        6,
        apply_motion_to_region(&t, &vp, Region::sticky_cursor(8), false, motion_start).head
    );
    assert_eq!(
        0,
        apply_motion_to_region(&t, &vp, Region::sticky_cursor(6), false, motion_start).head
    );
}

#[test]
fn test_move_caret_selecting() {
    let mut b = Buffer::new_from_string("hello, world".to_string());
    let vp = Viewport::new_ginormeous();
    b.apply_buffer_op(&vp, BufferOp::Selection(Motion::Right));
    b.apply_buffer_op(&vp, BufferOp::Selection(Motion::Right));
    assert_eq!((0..2), b.carets_list().first().range());
}

#[test]
fn test_move_caret_remembers_column() {
    let mut b = Buffer::new_from_string("hello\nxx\nworld".to_string());
    b.set_primary_caret(Region::sticky_cursor(3));
    let vp = Viewport::new_ginormeous();
    b.apply_buffer_op(&vp, BufferOp::Move(Motion::Down));
    b.apply_buffer_op(&vp, BufferOp::Move(Motion::Down));
    assert_eq!(12, b.carets_list().first().head);
}

#[test]
fn test_move_caret_forgets_column_after_horiz_movement() {
    let mut b = Buffer::new_from_string("hello\nxxx\nworld".to_string());
    b.set_primary_caret(Region::sticky_cursor(12));
    let vp = Viewport::new_ginormeous();
    b.apply_buffer_op(&vp, BufferOp::Move(Motion::Up));
    b.apply_buffer_op(&vp, BufferOp::Move(Motion::Left));
    b.apply_buffer_op(&vp, BufferOp::Move(Motion::Up));
    assert_eq!(1, b.carets_list().first().head);
}

#[test]
fn test_move_collapses_selection() {
    let mut b = Buffer::new_from_string("hello, world".to_string());
    let vp = Viewport::new_ginormeous();
    b.apply_buffer_op(&vp, BufferOp::Selection(Motion::Right));
    b.apply_buffer_op(&vp, BufferOp::Selection(Motion::Right));
    assert_eq!((0..2), b.carets_list().first().range());
    b.apply_buffer_op(&vp, BufferOp::Move(Motion::Right));
    assert_eq!((3..3), b.carets_list().first().range());
}

#[test]
fn test_move_caret_empty() {
    let mut b = Buffer::new_empty();
    let vp = Viewport::new_ginormeous();
    // An empty file doesn't allow much movement...
    b.move_carets(&vp, Motion::Left);
    b.move_carets(&vp, Motion::Right);
    b.move_carets(&vp, Motion::Down);
    b.move_carets(&vp, Motion::Up);
    b.move_carets(&vp, Motion::StartOfLine);
    b.move_carets(&vp, Motion::EndOfLine);
    b.move_carets(&vp, Motion::TopOfViewport);
    b.move_carets(&vp, Motion::BottomOfViewport);
}

#[test]
fn test_move_caret_edges() {
    let mut b = Buffer::new_empty();
    let vp = Viewport::new_ginormeous();
    // Let's just spam moving into the walls and see if it breaks
    b.insert_at_carets("hi\nho");
    b.move_carets(&vp, Motion::Down);
    b.move_carets(&vp, Motion::Down);
    assert_eq!(b.head_rope().len(), b.carets_list().first().head);
    b.move_carets(&vp, Motion::Right);
    b.move_carets(&vp, Motion::Right);
    assert_eq!(b.head_rope().len(), b.carets_list().first().head);
    b.move_carets(&vp, Motion::Up);
    b.move_carets(&vp, Motion::Up);
    b.move_carets(&vp, Motion::Up);
    assert_eq!(2, b.carets_list().first().head);
    b.move_carets(&vp, Motion::Left);
    b.move_carets(&vp, Motion::Left);
    b.move_carets(&vp, Motion::Left);
    assert_eq!(0, b.carets_list().first().head);
}

#[test]
fn test_move_caret_down_into_shorter_line() {
    let mut b = Buffer::new_from_string("hello\nX".to_string());
    b.set_primary_caret(Region::sticky_cursor(5));
    let vp = Viewport::new_ginormeous();
    b.move_carets(&vp, Motion::Down);
    assert_eq!(1, b.all_caret_positions().first().line);
    assert_eq!(1, b.all_caret_positions().first().col);
}

#[test]
fn test_move_caret_up_into_shorter_line() {
    let mut b = Buffer::new_from_string("X\nhello".to_string());
    b.set_primary_caret(Region::sticky_cursor(5));
    let vp = Viewport::new_ginormeous();
    b.move_carets(&vp, Motion::Up);
    assert_eq!(0, b.all_caret_positions().first().line);
    assert_eq!(1, b.all_caret_positions().first().col);
}

#[test]
fn test_highlevel_movement_line_ends() {
    let mut b = Buffer::new_empty();
    let vp = Viewport::new_ginormeous();
    b.insert_at_carets("hello");
    b.move_carets(&vp, Motion::Left);
    b.move_carets(&vp, Motion::Left);
    assert_eq!(3, b.carets_list().first().head);
    b.move_carets(&vp, Motion::EndOfLine);
    assert_eq!(5, b.carets_list().first().head);
    b.move_carets(&vp, Motion::StartOfLine);
    assert_eq!(0, b.carets_list().first().head);
}

#[test]
fn test_highlevel_movement_viewport() {
    let mut b = Buffer::new_empty();
    let mut vp = Viewport {
        first_line: 1,
        height: 2,
    };
    b.insert_at_carets("0000\n1111\n2222\n3333\n4444");
    b.move_carets(&vp, Motion::Up);
    b.move_carets(&vp, Motion::Up);
    assert_eq!(2, b.all_caret_positions().first().line);
    b.move_carets(&vp, Motion::TopOfViewport);
    assert_eq!(1, b.all_caret_positions().first().line);
    b.move_carets(&vp, Motion::BottomOfViewport);
    assert_eq!(2, b.all_caret_positions().first().line);

    // verify we don't die if the bottom of the viewport is below the last line
    vp.height = 100;
    b.move_carets(&vp, Motion::BottomOfViewport);
    assert_eq!(4, b.all_caret_positions().first().line);
}

#[test]
fn test_undo_then_insert() {
    let mut b = Buffer::new_empty();
    b.insert_at_carets("hey");
    b.undo();
    assert_eq!("", b.content_to_string());
    assert_eq!(
        0,
        b.all_caret_positions()
            .first()
            .to_offset_snapping(b.head_rope())
    );
    b.insert_at_carets("hello");
    assert_eq!("hello", b.content_to_string());
}

#[test]
fn test_undo_caret_stays_when_before_affected_text() {
    let mut b = Buffer::new_empty();
    let vp = Viewport::new_ginormeous();
    b.insert_at_carets("heyy");
    b.delete_at_carets(Trajectory::Backwards);
    b.insert_at_carets("\nho");
    b.move_carets(&vp, Motion::Up);
    b.undo();
    assert_eq!(
        &Position { line: 0, col: 2 },
        b.all_caret_positions().first()
    );
}

#[test]
fn test_undo_caret_moves_when_after_affected_text() {
    let mut b = Buffer::new_empty();
    b.insert_at_carets("heyy");
    b.delete_at_carets(Trajectory::Backwards);
    b.insert_at_carets("ho");
    b.undo();
    assert_eq!(3, b.all_caret_positions().first().col);
}

#[test]
fn buffer_test_undo_redo() {
    let mut b = Buffer::new_empty();
    b.undo();
    assert_eq!("", b.content_to_string());
    b.insert_at_carets("hey");
    b.delete_at_carets(Trajectory::Backwards);
    b.insert_at_carets("llo");
    b.insert_at_carets(" world");
    assert_eq!("hello world", b.content_to_string());
    b.undo();
    assert_eq!("he", b.content_to_string());
    b.undo();
    assert_eq!("hey", b.content_to_string());
    b.undo();
    assert_eq!("", b.content_to_string());
    b.undo();
    assert_eq!("", b.content_to_string());

    b.redo();
    assert_eq!("hey", b.content_to_string());
    b.undo();
    assert_eq!("", b.content_to_string());
    b.redo();
    assert_eq!("hey", b.content_to_string());
    b.redo();
    assert_eq!("he", b.content_to_string());
    b.redo();
    assert_eq!("hello world", b.content_to_string());
}

#[test]
fn test_undo_edit_redo() {
    let mut b = Buffer::new_empty();
    b.undo();
    assert_eq!("", b.content_to_string());
    b.insert_at_carets("hey");
    b.delete_at_carets(Trajectory::Backwards);
    b.insert_at_carets("llo");
    assert_eq!("hello", b.content_to_string());
    b.undo();
    b.insert_at_carets("yho");
    assert_eq!("heyho", b.content_to_string());
    b.redo();
    assert_eq!("heyho", b.content_to_string());
}
