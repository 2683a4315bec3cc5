use bazed_core::buffer_regions::BufferRegions;
use bazed_core::region::Region;
use bazed_core::region::RegionId;
use bazed_core::text::Text;
use bazed_core::word_boundary::next_boundary_after;
use bazed_core::word_boundary::next_boundary_before;
use bazed_core::word_boundary::next_word_boundary;
use bazed_core::word_boundary::prev_word_boundary;
use bazed_core::word_boundary::WordBoundaryType::{Both, End, Start};

fn ranges(regions: &BufferRegions) -> Vec<(usize, usize)> {
    regions
        .caret_regions()
        .iter()
        .map(|r| (r.range().start, r.range().end))
        .collect()
}

#[test]
fn carets_are_sorted_and_merged() {
    let mut regions = BufferRegions::default();
    assert_eq!(vec![(0, 0)], ranges(&regions));
    regions.add_caret(false, Region::sticky(9, 7));
    regions.add_caret(false, Region::sticky(4, 2));
    assert_eq!(vec![(0, 0), (2, 4), (7, 9)], ranges(&regions));
    // touching carets merge, too
    regions.add_caret(false, Region::sticky(7, 4));
    assert_eq!(vec![(0, 0), (2, 9)], ranges(&regions));
    assert_eq!(2, regions.carets().len());
}

#[test]
fn the_primary_caret_survives_merges() {
    let mut regions = BufferRegions::default();
    regions.add_caret_with_id(RegionId::from_bits(7), true, Region::sticky_cursor(5));
    assert_eq!(Region::sticky_cursor(5), regions.primary_caret());
    // the primary caret is merged into the one before it
    regions.add_caret_with_id(RegionId::from_bits(8), false, Region::sticky(5, 3));
    assert_eq!(vec![(0, 0), (3, 5)], ranges(&regions));
    assert_eq!((3..5), regions.primary_caret().range());
    regions.collapse_carets_into_primary();
    assert_eq!(vec![(3, 5)], ranges(&regions));
    regions.set_primary_caret(Region::sticky_cursor(1));
    assert_eq!(vec![(1, 1)], ranges(&regions));
}

#[test]
fn a_caret_under_a_known_handle_is_moved() {
    let mut regions = BufferRegions::default();
    regions.add_caret_with_id(RegionId::from_bits(1), false, Region::sticky_cursor(4));
    regions.add_caret_with_id(RegionId::from_bits(1), false, Region::sticky_cursor(9));
    assert_eq!(vec![(0, 0), (9, 9)], ranges(&regions));
}

#[test]
fn a_merge_that_reaches_back_merges_again() {
    let mut regions = BufferRegions::default();
    regions.set_primary_caret(Region::sticky(1, 3));
    regions.add_caret_with_id(RegionId::from_bits(1), false, Region::sticky_cursor(5));
    // the head lies behind the others, the tail before them
    regions.add_caret_with_id(RegionId::from_bits(2), false, Region::sticky(6, 2));
    assert_eq!(vec![(1, 6)], ranges(&regions));
}

#[test]
fn updating_carets_merges_what_meets() {
    let mut regions = BufferRegions::default();
    regions.add_caret(false, Region::sticky_cursor(3));
    regions.add_caret(false, Region::sticky(8, 6));
    regions.update_carets(|_, r| Region { head: r.head + 1, ..r });
    assert_eq!(vec![(0, 1), (3, 4), (6, 9)], ranges(&regions));
    regions.collapse_selections();
    assert_eq!(vec![(1, 1), (4, 4), (9, 9)], ranges(&regions));
    regions.update_regions(|_, r| Region { head: 2, tail: 2, ..r });
    assert_eq!(vec![(2, 2)], ranges(&regions));
}

#[test]
fn word_boundaries_one_at_a_time() {
    let t = Text::new("foo bar.baz");
    assert_eq!(Some((3, End)), next_boundary_after(&t, 0));
    assert_eq!(Some((4, Start)), next_boundary_after(&t, 3));
    assert_eq!(Some((7, Both)), next_boundary_after(&t, 4));
    assert_eq!(Some((8, Both)), next_boundary_after(&t, 7));
    assert_eq!(None, next_boundary_after(&t, 8));
    assert_eq!(Some((8, Both)), next_boundary_before(&t, 11));
    assert_eq!(Some((3, End)), next_boundary_before(&t, 4));
    assert_eq!(None, next_boundary_before(&t, 3));
    assert_eq!(4, next_word_boundary(&t, 0, Start));
    assert_eq!(3, next_word_boundary(&t, 0, End));
    assert_eq!(11, next_word_boundary(&t, 8, End));
    assert_eq!(4, prev_word_boundary(&t, 6, Start));
    assert_eq!(0, prev_word_boundary(&t, 4, Start));
}

#[test]
fn searching_back_from_a_boundary_passes_the_start() {
    let t = Text::new("one two  three.four");
    for k in 0..t.len() {
        let first = next_word_boundary(&t, k, Both);
        assert!(first > k);
        assert!(prev_word_boundary(&t, first, Both) <= k);
    }
}

#[test]
fn code_points_of_a_text() {
    let t = Text::new("aé日");
    assert!(t.is_codepoint_boundary(0));
    assert!(t.is_codepoint_boundary(1));
    assert!(!t.is_codepoint_boundary(2));
    assert!(t.is_codepoint_boundary(3));
    assert!(!t.is_codepoint_boundary(5));
    assert!(t.is_codepoint_boundary(6));
    assert_eq!(Some(1), t.next_codepoint_offset(0));
    assert_eq!(Some(3), t.next_codepoint_offset(1));
    assert_eq!(Some(6), t.next_codepoint_offset(3));
    assert_eq!(None, t.next_codepoint_offset(6));
    assert_eq!(None, t.prev_codepoint_offset(0));
    assert_eq!(Some(3), t.prev_codepoint_offset(6));
    assert_eq!(Some(3), t.prev_codepoint_offset(5));
    assert_eq!(Some(1), t.prev_codepoint_offset(3));
    assert_eq!(Some('a'), t.codepoint_at(0));
    assert_eq!(Some('é'), t.codepoint_at(1));
    assert_eq!(Some('日'), t.codepoint_at(3));
    assert_eq!(None, t.codepoint_at(6));
    assert_eq!(vec!["a", "b"], Text::new("a\nb\n").lines());
}

#[test]
fn generated_handles_are_random_uuids() {
    let a = RegionId::gen();
    let b = RegionId::gen();
    assert_ne!(a, b);
    for id in [a, b] {
        assert_eq!(4, (id.bits() >> 76) & 0xf);
        assert_eq!(2, (id.bits() >> 62) & 0x3);
    }
}
