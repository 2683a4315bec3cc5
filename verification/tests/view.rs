use bazed_core::view::Viewport;

#[test]
fn test_scroll_line_into_view() {
    assert_eq!(
        Viewport::new(0, 10),
        Viewport::new(0, 10).with_line_in_view(0, 0)
    );
    assert_eq!(
        Viewport::new(0, 10),
        Viewport::new(2, 10).with_line_in_view(2, 2)
    );
    assert_eq!(
        Viewport::new(5, 10),
        Viewport::new(2, 10).with_line_in_view(12, 2)
    );
}

#[test]
fn viewport_last_line() {
    assert_eq!(11, Viewport::new(2, 10).last_line());
    assert_eq!(0, Viewport::new(0, 0).last_line());
    assert_eq!(0, Viewport::new(0, 1).last_line());
    assert_eq!(99_999_999, Viewport::new_ginormeous().last_line());
}
