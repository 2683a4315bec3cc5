use bazed_core::position::Position;
use bazed_core::text::Text;

/// Both `to_offset` and `to_offset_snapping` work for a valid position and
/// yield the same value.
fn check_to_offset(t: &Text, expected: usize, p: Position) {
    assert_eq!(Some(expected), p.to_offset(t), "to_offset non-snapping");
    assert_eq!(expected, p.to_offset_snapping(t), "to_offset_snapping");
}

#[test]
fn test_to_offset_valid() {
    let t = Text::new("");
    check_to_offset(&t, 0, Position::new(0, 0));

    let t = Text::new("hello");
    check_to_offset(&t, 5, Position::new(0, 5));

    let t = Text::new("foo\nx\nbar\n\n");
    check_to_offset(&t, 0, Position::new(0, 0));
    check_to_offset(&t, 3, Position::new(0, 3));
    check_to_offset(&t, 4, Position::new(1, 0));
    check_to_offset(&t, 5, Position::new(1, 1));
    check_to_offset(&t, 6, Position::new(2, 0));
    check_to_offset(&t, 10, Position::new(3, 0));
    check_to_offset(&t, 11, Position::new(4, 0));
}

#[test]
fn test_to_offset_snapping() {
    let t = Text::new("");
    assert_eq!(0, Position::new(10, 0).to_offset_snapping(&t));
    assert_eq!(0, Position::new(10, 10).to_offset_snapping(&t));

    let t = Text::new("hello");
    assert_eq!(5, Position::new(0, 10).to_offset_snapping(&t));
    assert_eq!(2, Position::new(10, 2).to_offset_snapping(&t));

    let t = Text::new("foo\n\nbar");
    assert_eq!(3, Position::new(0, 10).to_offset_snapping(&t));
    assert_eq!(4, Position::new(1, 10).to_offset_snapping(&t));
    assert_eq!(8, Position::new(2, 10).to_offset_snapping(&t));
    assert_eq!(8, Position::new(10, 10).to_offset_snapping(&t));
}

#[test]
fn test_from_offset_valid() {
    let t = Text::new("hello");
    assert_eq!(Some(Position::new(0, 5)), Position::from_offset(&t, 5));

    let t = Text::new("foo\nx\nbar\n\n");
    assert_eq!(Some(Position::new(0, 0)), Position::from_offset(&t, 0));
    assert_eq!(Some(Position::new(0, 3)), Position::from_offset(&t, 3));
    assert_eq!(Some(Position::new(1, 0)), Position::from_offset(&t, 4));
    assert_eq!(Some(Position::new(1, 1)), Position::from_offset(&t, 5));
    assert_eq!(Some(Position::new(2, 0)), Position::from_offset(&t, 6));
    assert_eq!(Some(Position::new(3, 0)), Position::from_offset(&t, 10));
    assert_eq!(Some(Position::new(4, 0)), Position::from_offset(&t, 11));
}

#[test]
fn test_to_offset_invalid() {
    let t = Text::new("hello");
    assert_eq!(None, Position::new(0, 10).to_offset(&t));

    let t = Text::new("foo\nx\nbar\n\n");
    assert_eq!(Some(0), Position::new(0, 0).to_offset(&t));
    assert_eq!(Some(3), Position::new(0, 3).to_offset(&t));
    assert_eq!(Some(4), Position::new(1, 0).to_offset(&t));
    assert_eq!(Some(5), Position::new(1, 1).to_offset(&t));
    assert_eq!(Some(6), Position::new(2, 0).to_offset(&t));
    assert_eq!(Some(10), Position::new(3, 0).to_offset(&t));
    assert_eq!(Some(11), Position::new(4, 0).to_offset(&t));
}

#[test]
fn test_from_offset_invalid() {
    let t = Text::new("");
    assert_eq!(None, Position::from_offset(&t, 1));

    let t = Text::new("hello");
    assert_eq!(None, Position::from_offset(&t, 6));
    assert_eq!(None, Position::from_offset(&t, 6000));
}

#[test]
fn position_of_offset_behind_the_text_snaps_to_its_end() {
    let t = Text::new("foo\nbar");
    assert_eq!(Position::new(1, 3), Position::from_offset_snapping(&t, 7));
    assert_eq!(Position::new(1, 3), Position::from_offset_snapping(&t, 700));
    assert_eq!(Position::new(0, 2), Position::from_offset_snapping(&t, 2));
}

#[test]
fn naive_offset_rejects_columns_behind_the_line() {
    let t = Text::new("foo\nx\nbar");
    assert_eq!(Some(3), Position::new(0, 3).naive_offset_in(&t));
    assert_eq!(None, Position::new(0, 4).naive_offset_in(&t));
    assert_eq!(Some(5), Position::new(1, 1).naive_offset_in(&t));
    assert_eq!(None, Position::new(1, 2).naive_offset_in(&t));
    assert_eq!(Some(9), Position::new(2, 3).naive_offset_in(&t));
    assert_eq!(None, Position::new(2, 4).naive_offset_in(&t));
    assert_eq!(None, Position::new(3, 0).naive_offset_in(&t));
    assert_eq!(None, Position::new(0, usize::MAX).naive_offset_in(&t));
}

#[test]
fn offsets_snap_to_the_start_of_a_grapheme() {
    // "e" followed by a combining acute accent is one grapheme of three bytes
    let t = Text::new("ae\u{301}b");
    assert_eq!(Some(1), Position::new(0, 1).to_offset(&t));
    assert_eq!(Some(1), Position::new(0, 2).to_offset(&t));
    assert_eq!(Some(1), Position::new(0, 3).to_offset(&t));
    assert_eq!(Some(4), Position::new(0, 4).to_offset(&t));
    assert_eq!(1, Position::new(0, 3).to_offset_snapping(&t));
}

#[test]
fn text_lines_and_offsets() {
    let t = Text::new("foo\nx\nbar\n\n");
    assert_eq!(11, t.len());
    assert_eq!(4, t.last_line());
    assert_eq!(0, t.line_of_offset(3));
    assert_eq!(1, t.line_of_offset(4));
    assert_eq!(4, t.line_of_offset(11));
    assert_eq!(0, t.offset_of_line(0));
    assert_eq!(4, t.offset_of_line(1));
    assert_eq!(6, t.offset_of_line(2));
    assert_eq!(11, t.offset_of_line(4));
    assert_eq!(11, t.offset_of_line(5));
    assert_eq!("foo\nx\nbar\n\n", t.to_string());
    assert_eq!("foo\nx\nbar\n\n", t.snapshot().to_string());
}

#[test]
fn offsets_inside_a_code_point_have_no_position() {
    let t = Text::new("a\né日");
    assert_eq!(Some(Position::new(1, 0)), Position::from_offset(&t, 2));
    assert_eq!(None, Position::from_offset(&t, 3));
    assert_eq!(Some(Position::new(1, 2)), Position::from_offset(&t, 4));
    assert_eq!(None, Position::from_offset(&t, 6));
    assert_eq!(Some(Position::new(1, 5)), Position::from_offset(&t, 7));
    assert_eq!(Position::new(1, 0), Position::from_offset_snapping(&t, 3));
    assert_eq!(Position::new(1, 2), Position::from_offset_snapping(&t, 6));
    assert_eq!(Position::new(1, 5), Position::from_offset_snapping(&t, 70));
    assert_eq!(2, t.snap_offset(3));
    assert_eq!(4, t.snap_offset(4));
    assert_eq!(4, t.snap_offset(5));
    assert_eq!(7, t.snap_offset(8));
    assert_eq!(0, Text::new("").snap_offset(3));
}
