use bazed_core::word_boundary::CharCategory;
use bazed_core::word_boundary::CharCategory::{Other, Punctuation, Whitespace, Word};
use bazed_core::word_boundary::WordBoundaries;
use bazed_core::word_boundary::WordBoundaryType;
use bazed_core::word_boundary::WordBoundaryType::{Both, End, Start};

fn boundaries(s: &str) -> Vec<(usize, WordBoundaryType)> {
    WordBoundaries::from_iter(false, s.chars().collect()).collect()
}

#[test]
fn test_word_boundaries() {
    let actual = boundaries("foo foo...");
    assert_eq!(vec![(3, End), (4, Start), (7, Both)], actual);
    let actual = boundaries(" foo ");
    assert_eq!(vec![(1, Start), (4, End)], actual);

    let actual = boundaries("foo_bar");
    assert_eq!(vec![(3, Both), (4, Both)], actual);
    let actual = boundaries("foo___");
    assert_eq!(vec![(3, Both)], actual);
}

#[test]
fn char_categories() {
    assert_eq!(Word, CharCategory::of_char('a'));
    assert_eq!(Word, CharCategory::of_char('Z'));
    assert_eq!(Word, CharCategory::of_char('7'));
    assert_eq!(Word, CharCategory::of_char('日'));
    assert_eq!(Word, CharCategory::of_char('©'));
    assert_eq!(Punctuation, CharCategory::of_char('.'));
    assert_eq!(Punctuation, CharCategory::of_char('_'));
    assert_eq!(Punctuation, CharCategory::of_char('+'));
    assert_eq!(Punctuation, CharCategory::of_char('$'));
    assert_eq!(Punctuation, CharCategory::of_char('^'));
    assert_eq!(Whitespace, CharCategory::of_char(' '));
    assert_eq!(Whitespace, CharCategory::of_char('\n'));
    assert_eq!(Whitespace, CharCategory::of_char('\u{2028}'));
    assert_eq!(Other, CharCategory::of_char('\u{0}'));
    assert_eq!(Other, CharCategory::of_char('\u{301}'));
    assert_eq!(Other, CharCategory::of_char('\u{200d}'));
}

#[test]
fn boundary_table() {
    assert_eq!(None, WordBoundaryType::between_types(Word, Word));
    assert_eq!(None, WordBoundaryType::between_types(Punctuation, Punctuation));
    assert_eq!(None, WordBoundaryType::between_types(Whitespace, Whitespace));
    assert_eq!(None, WordBoundaryType::between_types(Other, Word));
    assert_eq!(None, WordBoundaryType::between_types(Whitespace, Other));
    assert_eq!(Some(Both), WordBoundaryType::between_types(Word, Punctuation));
    assert_eq!(Some(Both), WordBoundaryType::between_types(Punctuation, Word));
    assert_eq!(Some(Start), WordBoundaryType::between_types(Whitespace, Word));
    assert_eq!(Some(End), WordBoundaryType::between_types(Word, Whitespace));
    assert_eq!(Some(Start), WordBoundaryType::between_types(Whitespace, Punctuation));
    assert_eq!(Some(End), WordBoundaryType::between_types(Punctuation, Whitespace));
    assert_eq!(Some(End), WordBoundaryType::between('a', ' '));
}

#[test]
fn boundary_types_match() {
    assert!(Both.matches(&Start));
    assert!(End.matches(&Both));
    assert!(Start.matches(&Start));
    assert!(!Start.matches(&End));
    assert!(!End.matches(&Start));
}

#[test]
fn reversed_boundaries_swap_the_characters() {
    let reversed: Vec<char> = "foo bar".chars().rev().collect();
    let found = WordBoundaries::from_iter(true, reversed).collect();
    assert_eq!(vec![(3, Start), (4, End)], found);
}
