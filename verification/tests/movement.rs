use bazed_core::movement::apply_motion_to_region;
use bazed_core::region::Region;
use bazed_core::text::Text;
use bazed_core::user_buffer_op::Motion;
use bazed_core::view::Viewport;
use bazed_core::word_boundary::find_word_boundaries;
use bazed_core::word_boundary::find_word_boundaries_backwards;
use bazed_core::word_boundary::WordBoundaryType;
use bazed_core::word_boundary::WordBoundaryType::{Both, End, Start};

#[test]
fn movement_test_move_next_word_boundary() {
    let t = Text::new("hello hello hello");
    let vp = Viewport::new_ginormeous();
    let motion_start = Motion::NextWordBoundary(WordBoundaryType::Start);
    let motion_end = Motion::NextWordBoundary(WordBoundaryType::End);
    assert_eq!(
        5,
        apply_motion_to_region(&t, &vp, Region::sticky_cursor(1), false, motion_end).head
    );
    assert_eq!(
        6,
        apply_motion_to_region(&t, &vp, Region::sticky_cursor(1), false, motion_start).head
    );
    assert_eq!(
        12,
        apply_motion_to_region(&t, &vp, Region::sticky_cursor(6), false, motion_start).head,
        "Next word boundary should move you, even when starting on a word bounadry",
    );
    assert_eq!(
        17,
        apply_motion_to_region(&t, &vp, Region::sticky_cursor(13), false, motion_end).head,
        "End of the string should be seen as a boundary when moving forwards",
    );
}

#[test]
fn movement_test_move_previous_word_boundary() {
    let t = Text::new("hello hello hello");
    let vp = Viewport::new_ginormeous();
    let motion_start = Motion::PrevWordBoundary(WordBoundaryType::Start);
    let motion_end = Motion::PrevWordBoundary(WordBoundaryType::End);
    assert_eq!(
        0,
        apply_motion_to_region(&t, &vp, Region::sticky_cursor(3), false, motion_start).head,
        "Start of the string should be seen as a boundary when moving backwards",
    );
    assert_eq!(
        0,
        apply_motion_to_region(&t, &vp, Region::sticky_cursor(3), false, motion_start).head,
        "Start of the string should be seen as a boundary when moving backwards",
    );
    assert_eq!(
        5,
        apply_motion_to_region(&t, &vp, Region::sticky_cursor(8), false, motion_end).head
    );
    assert_eq!(
        6,
        apply_motion_to_region(&t, &vp, Region::sticky_cursor(8), false, motion_start).head
    );
    assert_eq!(
        0,
        apply_motion_to_region(&t, &vp, Region::sticky_cursor(6), false, motion_start).head
    );
}

#[test]
fn test_word_boundaries_in_rope() {
    assert_eq!(
        vec![(4, End), (5, Start), (8, Both), (11, Both)],
        find_word_boundaries(&Text::new(" foo foo..."), 2),
    );
}

#[test]
fn test_word_boundaries_in_rope_reverse() {
    assert_eq!(
        vec![(5, Start), (4, End), (1, Start), (0, Both)],
        find_word_boundaries_backwards(&Text::new(" foo foo..."), 7),
    );
}

#[test]
fn word_boundaries_are_offsets_of_the_text() {
    // "é" takes two bytes: the boundaries lie at byte offsets
    let t = Text::new("é é.");
    assert_eq!(
        vec![(2, End), (3, Start), (5, Both), (6, Both)],
        find_word_boundaries(&t, 0),
    );
    assert_eq!(
        vec![(5, Both), (3, Start), (2, End), (0, Both)],
        find_word_boundaries_backwards(&t, 6),
    );
}

#[test]
fn selecting_moves_the_head_only() {
    let t = Text::new("hello\nworld");
    let vp = Viewport::new_ginormeous();
    let moved = apply_motion_to_region(&t, &vp, Region::sticky_cursor(2), true, Motion::Right);
    assert_eq!(3, moved.head);
    assert_eq!(2, moved.tail);
    assert_eq!(None, moved.preferred_column);
    let moved = apply_motion_to_region(&t, &vp, Region::sticky_cursor(2), false, Motion::Down);
    assert_eq!(8, moved.head);
    assert_eq!(8, moved.tail);
    assert_eq!(Some(2), moved.preferred_column);
}

#[test]
fn end_of_line_is_the_start_of_the_next_line() {
    let t = Text::new("hi\nho");
    let vp = Viewport::new_ginormeous();
    let cursor = Region::sticky_cursor(1);
    assert_eq!(3, apply_motion_to_region(&t, &vp, cursor, false, Motion::EndOfLine).head);
    assert_eq!(0, apply_motion_to_region(&t, &vp, cursor, false, Motion::StartOfLine).head);
    let cursor = Region::sticky_cursor(4);
    assert_eq!(5, apply_motion_to_region(&t, &vp, cursor, false, Motion::EndOfLine).head);
    assert_eq!(3, apply_motion_to_region(&t, &vp, cursor, false, Motion::StartOfLine).head);
}

#[test]
fn vertical_motion_at_the_last_line_keeps_the_offset() {
    let t = Text::new("hello\nxx");
    let vp = Viewport::new_ginormeous();
    let region = Region {
        preferred_column: Some(4),
        ..Region::sticky_cursor(6)
    };
    let moved = apply_motion_to_region(&t, &vp, region, false, Motion::Down);
    assert_eq!(6, moved.head);
    assert_eq!(Some(4), moved.preferred_column);
}
