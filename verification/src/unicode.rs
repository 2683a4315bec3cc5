//! Properties of characters that the Unicode character database gives.

use unicode_canonical_combining_class::get_canonical_combining_class;
use unicode_general_category::get_general_category;
use vstd::prelude::*;

verus! {

/// Whether `char::is_whitespace` holds of a character.
pub uninterp spec fn is_whitespace(c: char) -> bool;

/// The two-letter abbreviation of the Unicode general category of a
/// character, such as `Lu` for an uppercase letter.
pub uninterp spec fn general_category(c: char) -> Seq<char>;

/// The number of the canonical combining class of a character; 0 for a
/// character that does not combine.
pub uninterp spec fn combining_class(c: char) -> u8;

/// What `str::to_uppercase` makes of a string.
pub uninterp spec fn uppercase(s: Seq<char>) -> Seq<char>;

/// A character of the general category `Cc`.
pub open spec fn is_control(c: char) -> bool {
    general_category(c)[0] == 'C' && general_category(c)[1] == 'c'
}

/// A character that combines with the one before it: a spacing mark, or
/// any character of a combining class other than 0.
pub open spec fn is_combining(c: char) -> bool {
    (general_category(c)[0] == 'M' && general_category(c)[1] == 'c') || combining_class(c) != 0
}

/// `char::is_whitespace` of std: whether the character has the Unicode
/// property `White_Space`.
#[verifier::external_body]
pub(crate) fn char_is_whitespace(c: char) -> (b: bool)
    ensures
        b == is_whitespace(c),
{
    c.is_whitespace()
}

/// `get_general_category` of the unicode-general-category crate, by the
/// abbreviation of what it returns. Every abbreviation has two letters.
#[verifier::external_body]
pub(crate) fn general_category_abbreviation(c: char) -> (abbreviation: &'static str)
    ensures
        abbreviation@ == general_category(c),
        abbreviation@.len() == 2,
{
    get_general_category(c).abbreviation()
}

/// `get_canonical_combining_class` of the unicode-canonical-combining-class
/// crate, by the number of the class it returns.
#[verifier::external_body]
pub(crate) fn canonical_combining_class(c: char) -> (class: u8)
    ensures
        class == combining_class(c),
{
    get_canonical_combining_class(c) as u8
}

/// `str::to_uppercase` of std.
#[verifier::external_body]
pub(crate) fn str_to_uppercase(s: &str) -> (upper: String)
    ensures
        upper@ == uppercase(s@),
{
    s.to_uppercase()
}

/// Whether a character is a control character.
pub fn char_is_control(c: char) -> (b: bool)
    ensures
        b == is_control(c),
{
    let abbreviation = general_category_abbreviation(c);
    abbreviation.get_char(0) == 'C' && abbreviation.get_char(1) == 'c'
}

/// Whether a character combines with the one before it.
pub fn char_is_combining(c: char) -> (b: bool)
    ensures
        b == is_combining(c),
{
    let abbreviation = general_category_abbreviation(c);
    (abbreviation.get_char(0) == 'M' && abbreviation.get_char(1) == 'c')
        || canonical_combining_class(c) != 0
}

} // verus!
