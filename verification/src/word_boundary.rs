//! Traverse a text, looking for word boundaries.
//!
//! Boundaries are always between characters: in `"foo bar"` there is an
//! `End` boundary at offset 3 (`"foo| bar"`) and a `Start` boundary at
//! offset 4 (`"foo |bar"`).

use crate::text::char_at;
use crate::text::is_boundary;
use crate::text::lemma_next_boundary;
use crate::text::lemma_prev_boundary;
use crate::text::lemma_prev_of_next;
use crate::text::prev_boundary;
use crate::text::Text;
use crate::unicode::char_is_whitespace;
use crate::unicode::general_category;
use crate::unicode::general_category_abbreviation;
use crate::unicode::is_whitespace;
use vstd::prelude::*;

verus! {

/// Category of character, loosely derived from the Unicode general category.
#[derive(Debug, PartialEq, Eq, Structural, Clone, Copy)]
pub enum CharCategory {
    /// Any whitespace or line separator character.
    Whitespace,
    /// Any word character: letters, numbers and other symbols.
    Word,
    /// Any punctuation character, and the symbols of mathematics, of
    /// currencies and of modifiers.
    Punctuation,
    /// Any character that doesn't fit any other category: control and format
    /// characters, surrogates, marks, private use and unassigned code points.
    Other,
}

impl CharCategory {
    /// The category of a character that is not whitespace, by the major
    /// class and the subclass of its general category.
    pub open spec fn of_general_category(major: char, minor: char) -> CharCategory {
        if major == 'P' {
            CharCategory::Punctuation
        } else if major == 'S' {
            if minor == 'o' {
                CharCategory::Word
            } else {
                CharCategory::Punctuation
            }
        } else if major == 'Z' {
            CharCategory::Whitespace
        } else if major == 'L' || major == 'N' {
            CharCategory::Word
        } else {
            CharCategory::Other
        }
    }

    /// The category of a character.
    pub open spec fn spec_of_char(c: char) -> CharCategory {
        if is_whitespace(c) {
            CharCategory::Whitespace
        } else {
            Self::of_general_category(general_category(c)[0], general_category(c)[1])
        }
    }

    /// The category of a character that is not whitespace, from the two
    /// letters that abbreviate its general category.
    pub fn from_general_category(major: char, minor: char) -> (category: CharCategory)
        ensures
            category == Self::of_general_category(major, minor),
    {
        if major == 'P' {
            CharCategory::Punctuation
        } else if major == 'S' {
            if minor == 'o' {
                CharCategory::Word
            } else {
                CharCategory::Punctuation
            }
        } else if major == 'Z' {
            CharCategory::Whitespace
        } else if major == 'L' || major == 'N' {
            CharCategory::Word
        } else {
            CharCategory::Other
        }
    }

    /// The category of a character.
    pub fn of_char(c: char) -> (category: CharCategory)
        ensures
            category == Self::spec_of_char(c),
    {
        if char_is_whitespace(c) {
            return CharCategory::Whitespace;
        }
        let abbreviation = general_category_abbreviation(c);
        Self::from_general_category(abbreviation.get_char(0), abbreviation.get_char(1))
    }
}

/// Type of a word boundary.
#[derive(Debug, PartialEq, Eq, Structural, Copy, Clone)]
pub enum WordBoundaryType {
    /// Indicates the start of a "word".
    Start,
    /// Indicates the end of a "word".
    End,
    /// Indicates that the position is both a start and an end, as in `a__`
    /// at offset 1: the underscores are grouped into one word, too.
    Both,
}

impl WordBoundaryType {
    /// The boundary between a character of category `a` and a following one
    /// of category `b`.
    pub open spec fn spec_between_types(a: CharCategory, b: CharCategory) -> Option<
        WordBoundaryType,
    > {
        match (a, b) {
            (CharCategory::Other, _) | (_, CharCategory::Other) => None,
            (CharCategory::Word, CharCategory::Word) => None,
            (CharCategory::Punctuation, CharCategory::Punctuation) => None,
            (CharCategory::Whitespace, CharCategory::Whitespace) => None,
            (CharCategory::Word, CharCategory::Punctuation) => Some(WordBoundaryType::Both),
            (CharCategory::Punctuation, CharCategory::Word) => Some(WordBoundaryType::Both),
            (CharCategory::Whitespace, CharCategory::Word) => Some(WordBoundaryType::Start),
            (CharCategory::Word, CharCategory::Whitespace) => Some(WordBoundaryType::End),
            (CharCategory::Whitespace, CharCategory::Punctuation) => Some(WordBoundaryType::Start),
            (CharCategory::Punctuation, CharCategory::Whitespace) => Some(WordBoundaryType::End),
        }
    }

    /// The boundary between character `a` and a following character `b`.
    pub open spec fn spec_between(a: char, b: char) -> Option<WordBoundaryType> {
        Self::spec_between_types(CharCategory::spec_of_char(a), CharCategory::spec_of_char(b))
    }

    /// Two boundary types match when they are equal or one of them is `Both`.
    pub open spec fn spec_matches(self, other: WordBoundaryType) -> bool {
        self == WordBoundaryType::Both || other == WordBoundaryType::Both || self == other
    }

    pub fn between_types(a: CharCategory, b: CharCategory) -> (boundary: Option<WordBoundaryType>)
        ensures
            boundary == Self::spec_between_types(a, b),
    {
        match (a, b) {
            (CharCategory::Other, _) | (_, CharCategory::Other) => None,
            (CharCategory::Word, CharCategory::Word)
            | (CharCategory::Punctuation, CharCategory::Punctuation)
            | (CharCategory::Whitespace, CharCategory::Whitespace) => None,
            (CharCategory::Word, CharCategory::Punctuation)
            | (CharCategory::Punctuation, CharCategory::Word) => Some(WordBoundaryType::Both),
            (CharCategory::Whitespace, CharCategory::Word) => Some(WordBoundaryType::Start),
            (CharCategory::Word, CharCategory::Whitespace) => Some(WordBoundaryType::End),
            (CharCategory::Whitespace, CharCategory::Punctuation) => Some(WordBoundaryType::Start),
            (CharCategory::Punctuation, CharCategory::Whitespace) => Some(WordBoundaryType::End),
        }
    }

    pub fn between(a: char, b: char) -> (boundary: Option<WordBoundaryType>)
        ensures
            boundary == Self::spec_between(a, b),
    {
        Self::between_types(CharCategory::of_char(a), CharCategory::of_char(b))
    }

    /// Compare two word boundaries, checking if they match. If either
    /// boundary is `Both` this always matches.
    pub fn matches(&self, other: &Self) -> (b: bool)
        ensures
            b == self.spec_matches(*other),
    {
        *self == WordBoundaryType::Both || *other == WordBoundaryType::Both || *self == *other
    }
}

/// The boundary at index `i` of `chars`, between the characters at `i - 1`
/// and `i`. For a sequence that runs backwards through a text, `reversing`
/// swaps the two, so that the boundary is that of the text.
pub open spec fn boundary_in(chars: Seq<char>, reversing: bool, i: int) -> Option<WordBoundaryType> {
    if 1 <= i < chars.len() {
        if reversing {
            WordBoundaryType::spec_between(chars[i], chars[i - 1])
        } else {
            WordBoundaryType::spec_between(chars[i - 1], chars[i])
        }
    } else {
        None
    }
}

/// The boundaries of `chars` at index `from` and later, in ascending order.
pub open spec fn boundaries_from(chars: Seq<char>, reversing: bool, from: int) -> Seq<
    (usize, WordBoundaryType),
>
    decreases chars.len() - from,
{
    if from >= chars.len() {
        Seq::empty()
    } else {
        match boundary_in(chars, reversing, from) {
            Some(boundary) => seq![(from as usize, boundary)] + boundaries_from(
                chars,
                reversing,
                from + 1,
            ),
            None => boundaries_from(chars, reversing, from + 1),
        }
    }
}

/// Yields the word boundaries of a sequence of characters, each with the
/// index of the character behind it. An `End` boundary at index N means that
/// the character at index N - 1 is in a word and the one at index N is not.
///
/// It yields no boundary at the start or the end of the sequence.
pub struct WordBoundaries {
    chars: Vec<char>,
    /// The number of characters that were looked at.
    current_offset: usize,
    /// When true, the previous and the current character are swapped in
    /// boundary checks.
    reversing: bool,
}

impl WordBoundaries {
    /// The boundaries that are still to come.
    pub closed spec fn remaining(&self) -> Seq<(usize, WordBoundaryType)> {
        boundaries_from(self.chars@, self.reversing, self.current_offset as int)
    }

    pub fn from_iter(reversing: bool, chars: Vec<char>) -> (boundaries: Self)
        ensures
            boundaries.remaining() == boundaries_from(chars@, reversing, 0),
    {
        WordBoundaries { chars, current_offset: 0, reversing }
    }

    /// The next boundary, if there is one.
    pub fn next(&mut self) -> (item: Option<(usize, WordBoundaryType)>)
        ensures
            old(self).remaining().len() == 0 ==> item.is_none() && final(self).remaining().len()
                == 0,
            old(self).remaining().len() > 0 ==> item == Some(old(self).remaining()[0])
                && final(self).remaining() == old(self).remaining().drop_first(),
    {
        loop
            invariant
                self.chars == old(self).chars,
                self.reversing == old(self).reversing,
                self.remaining() == old(self).remaining(),
            decreases self.chars.len() - self.current_offset,
        {
            if self.current_offset >= self.chars.len() {
                return None;
            }
            let i: usize = self.current_offset;
            self.current_offset += 1;
            if i >= 1 {
                let cur: char = self.chars[i];
                let prev: char = self.chars[i - 1];
                let boundary = if self.reversing {
                    WordBoundaryType::between(cur, prev)
                } else {
                    WordBoundaryType::between(prev, cur)
                };
                if let Some(boundary) = boundary {
                    proof {
                        let rest = boundaries_from(self.chars@, self.reversing, i + 1);
                        assert((seq![(i, boundary)] + rest).drop_first() =~= rest);
                    }
                    return Some((i, boundary));
                }
            }
        }
    }

    /// All boundaries that are still to come, in order.
    pub fn collect(self) -> (all: Vec<(usize, WordBoundaryType)>)
        ensures
            all@ == self.remaining(),
    {
        let mut all: Vec<(usize, WordBoundaryType)> = Vec::new();
        let ghost total = self.remaining();
        let mut rest = self;
        assert(total =~= all@ + rest.remaining());
        loop
            invariant
                total == self.remaining(),
                total == all@ + rest.remaining(),
            decreases rest.remaining().len(),
        {
            match rest.next() {
                Some(item) => {
                    all.push(item);
                    assert(total =~= all@ + rest.remaining());
                },
                None => {
                    assert(total =~= all@);
                    return all;
                },
            }
        }
    }
}

/// The word boundary at offset `at` of a text, between the code point that
/// ends there and the one that begins there. The start and the end of the
/// text, and offsets inside a code point, have none.
pub open spec fn boundary_at(bytes: Seq<u8>, at: int) -> Option<WordBoundaryType> {
    if 0 < at < bytes.len() && is_boundary(bytes, at) {
        WordBoundaryType::spec_between(
            char_at(bytes, prev_boundary(bytes, at)),
            char_at(bytes, at),
        )
    } else {
        None
    }
}

/// The word boundaries behind offset `from`, in ascending order.
pub open spec fn boundaries_after(bytes: Seq<u8>, from: int) -> Seq<(usize, WordBoundaryType)>
    decreases bytes.len() - from,
{
    if from + 1 >= bytes.len() {
        Seq::empty()
    } else {
        match boundary_at(bytes, from + 1) {
            Some(boundary) => seq![((from + 1) as usize, boundary)] + boundaries_after(
                bytes,
                from + 1,
            ),
            None => boundaries_after(bytes, from + 1),
        }
    }
}

/// The word boundaries before offset `from`, in descending order.
pub open spec fn boundaries_before(bytes: Seq<u8>, from: int) -> Seq<(usize, WordBoundaryType)>
    decreases from,
{
    if from <= 1 {
        Seq::empty()
    } else {
        match boundary_at(bytes, from - 1) {
            Some(boundary) => seq![((from - 1) as usize, boundary)] + boundaries_before(
                bytes,
                from - 1,
            ),
            None => boundaries_before(bytes, from - 1),
        }
    }
}

/// What a forward search from `start_at` yields: the word boundaries behind
/// that offset, then `Both` at the end of the text.
pub open spec fn word_boundaries(bytes: Seq<u8>, start_at: int) -> Seq<(usize, WordBoundaryType)> {
    boundaries_after(bytes, start_at).push((bytes.len() as usize, WordBoundaryType::Both))
}

/// What a backward search from `start_at` yields: the word boundaries before
/// that offset, nearest first, then `Both` at the start of the text.
pub open spec fn word_boundaries_backwards(bytes: Seq<u8>, start_at: int) -> Seq<
    (usize, WordBoundaryType),
> {
    boundaries_before(bytes, start_at).push((0usize, WordBoundaryType::Both))
}

/// The offset of the first of `found` whose type matches `kind`.
pub open spec fn first_match(found: Seq<(usize, WordBoundaryType)>, kind: WordBoundaryType) -> Option<
    usize,
>
    decreases found.len(),
{
    if found.len() == 0 {
        None
    } else if found[0].1.spec_matches(kind) {
        Some(found[0].0)
    } else {
        first_match(found.drop_first(), kind)
    }
}

/// Where nothing between `from` and `to` is a code point boundary, the
/// boundaries behind `from` are the one at `to`, if there is one, and those
/// behind `to`.
proof fn lemma_boundaries_after_skip(bytes: Seq<u8>, from: int, to: int)
    requires
        0 <= from < to <= bytes.len(),
        forall|k: int| from < k < to ==> !is_boundary(bytes, k),
    ensures
        boundaries_after(bytes, from) == if to == bytes.len() {
            Seq::empty()
        } else {
            match boundary_at(bytes, to) {
                Some(boundary) => seq![(to as usize, boundary)] + boundaries_after(bytes, to),
                None => boundaries_after(bytes, to),
            }
        },
    decreases to - from,
{
    if from + 1 < to {
        assert(!is_boundary(bytes, from + 1));
        lemma_boundaries_after_skip(bytes, from + 1, to);
    }
}

/// Where nothing between `to` and `from` is a code point boundary, the
/// boundaries before `from` are the one at `to`, if there is one, and those
/// before `to`.
proof fn lemma_boundaries_before_skip(bytes: Seq<u8>, from: int, to: int)
    requires
        0 <= to < from <= bytes.len(),
        forall|k: int| to < k < from ==> !is_boundary(bytes, k),
    ensures
        boundaries_before(bytes, from) == if to == 0 {
            Seq::empty()
        } else {
            match boundary_at(bytes, to) {
                Some(boundary) => seq![(to as usize, boundary)] + boundaries_before(bytes, to),
                None => boundaries_before(bytes, to),
            }
        },
    decreases from - to,
{
    if to + 1 < from {
        assert(!is_boundary(bytes, from - 1));
        lemma_boundaries_before_skip(bytes, from - 1, to);
    }
}

/// The first word boundary behind offset `from`, without the end of the
/// text. It reads the text code point by code point and no further than the
/// boundary it finds.
pub fn next_boundary_after(text: &Text, from: usize) -> (found: Option<(usize, WordBoundaryType)>)
    requires
        is_boundary(text@, from as int),
    ensures
        match found {
            Some((at, boundary)) => {
                &&& from < at < text@.len()
                &&& is_boundary(text@, at as int)
                &&& boundaries_after(text@, from as int) == seq![(at, boundary)]
                    + boundaries_after(text@, at as int)
            },
            None => boundaries_after(text@, from as int) == Seq::<
                (usize, WordBoundaryType),
            >::empty(),
        },
{
    let len: usize = text.len();
    let mut pos: usize = from;
    loop
        invariant
            len == text@.len(),
            is_boundary(text@, pos as int),
            is_boundary(text@, 0),
            from <= pos,
            boundaries_after(text@, pos as int) == boundaries_after(text@, from as int),
        decreases len - pos,
    {
        let left = text.codepoint_at(pos);
        let next = match text.next_codepoint_offset(pos) {
            Some(next) => next,
            None => {
                return None;
            },
        };
        proof {
            lemma_next_boundary(text@, pos as int);
            lemma_boundaries_after_skip(text@, pos as int, next as int);
            lemma_prev_of_next(text@, pos as int);
        }
        if next == len {
            return None;
        }
        let right = text.codepoint_at(next);
        pos = next;
        match (left, right) {
            (Some(left), Some(right)) => {
                if let Some(boundary) = WordBoundaryType::between(left, right) {
                    return Some((next, boundary));
                }
            },
            _ => {},
        }
    }
}

/// The first word boundary before offset `from`, without the start of the
/// text. It reads the text code point by code point and no further than the
/// boundary it finds.
pub fn next_boundary_before(text: &Text, from: usize) -> (found: Option<(usize, WordBoundaryType)>)
    requires
        is_boundary(text@, from as int),
    ensures
        match found {
            Some((at, boundary)) => {
                &&& 0 < at < from
                &&& is_boundary(text@, at as int)
                &&& boundaries_before(text@, from as int) == seq![(at, boundary)]
                    + boundaries_before(text@, at as int)
            },
            None => boundaries_before(text@, from as int) == Seq::<
                (usize, WordBoundaryType),
            >::empty(),
        },
{
    let _len: usize = text.len();
    let mut pos: usize = from;
    loop
        invariant
            is_boundary(text@, pos as int),
            is_boundary(text@, 0),
            pos <= from,
            boundaries_before(text@, pos as int) == boundaries_before(text@, from as int),
        decreases pos,
    {
        let at = match text.prev_codepoint_offset(pos) {
            Some(at) => at,
            None => {
                return None;
            },
        };
        proof {
            lemma_prev_boundary(text@, pos as int);
            lemma_boundaries_before_skip(text@, pos as int, at as int);
        }
        let before = match text.prev_codepoint_offset(at) {
            Some(before) => before,
            None => {
                return None;
            },
        };
        proof {
            lemma_prev_boundary(text@, at as int);
        }
        let left = text.codepoint_at(before);
        let right = text.codepoint_at(at);
        pos = at;
        match (left, right) {
            (Some(left), Some(right)) => {
                if let Some(boundary) = WordBoundaryType::between(left, right) {
                    return Some((at, boundary));
                }
            },
            _ => {},
        }
    }
}

/// Search forwards for any word boundaries in a text, starting at a given
/// offset. The location at the offset itself is not considered.
///
/// Always yields a `Both` at the end of the text.
pub fn find_word_boundaries(text: &Text, start_at: usize) -> (found: Vec<(usize, WordBoundaryType)>)
    requires
        is_boundary(text@, start_at as int),
    ensures
        found@ == word_boundaries(text@, start_at as int),
{
    let _len: usize = text.len();
    let mut found: Vec<(usize, WordBoundaryType)> = Vec::new();
    let mut pos: usize = start_at;
    loop
        invariant
            is_boundary(text@, pos as int),
            is_boundary(text@, 0),
            found@ + boundaries_after(text@, pos as int) == boundaries_after(
                text@,
                start_at as int,
            ),
        decreases text@.len() - pos,
    {
        match next_boundary_after(text, pos) {
            Some((at, boundary)) => {
                let ghost before = found@;
                found.push((at, boundary));
                assert(found@ + boundaries_after(text@, at as int) =~= before + (seq![
                    (at, boundary),
                ] + boundaries_after(text@, at as int)));
                pos = at;
            },
            None => {
                assert(found@ =~= boundaries_after(text@, start_at as int));
                found.push((text.len(), WordBoundaryType::Both));
                return found;
            },
        }
    }
}

/// Search backwards for any word boundaries in a text, starting at a given
/// offset. The location at the offset itself is not considered.
///
/// Always yields a `Both` at the start of the text.
pub fn find_word_boundaries_backwards(text: &Text, start_at: usize) -> (found: Vec<
    (usize, WordBoundaryType),
>)
    requires
        is_boundary(text@, start_at as int),
    ensures
        found@ == word_boundaries_backwards(text@, start_at as int),
{
    let _len: usize = text.len();
    let mut found: Vec<(usize, WordBoundaryType)> = Vec::new();
    let mut pos: usize = start_at;
    loop
        invariant
            is_boundary(text@, pos as int),
            is_boundary(text@, 0),
            found@ + boundaries_before(text@, pos as int) == boundaries_before(
                text@,
                start_at as int,
            ),
        decreases pos,
    {
        match next_boundary_before(text, pos) {
            Some((at, boundary)) => {
                let ghost before = found@;
                found.push((at, boundary));
                assert(found@ + boundaries_before(text@, at as int) =~= before + (seq![
                    (at, boundary),
                ] + boundaries_before(text@, at as int)));
                pos = at;
            },
            None => {
                assert(found@ =~= boundaries_before(text@, start_at as int));
                found.push((0, WordBoundaryType::Both));
                return found;
            },
        }
    }
}

/// The offset of the first word boundary behind `from` whose type matches
/// `kind`. The end of the text is a boundary of every kind.
pub fn next_word_boundary(text: &Text, from: usize, kind: WordBoundaryType) -> (offset: usize)
    requires
        is_boundary(text@, from as int),
    ensures
        first_match(word_boundaries(text@, from as int), kind) == Some(offset),
        from <= offset <= text@.len(),
        is_boundary(text@, offset as int),
{
    let _len: usize = text.len();
    let mut pos: usize = from;
    loop
        invariant
            is_boundary(text@, pos as int),
            is_boundary(text@, 0),
            from <= pos,
            first_match(word_boundaries(text@, pos as int), kind) == first_match(
                word_boundaries(text@, from as int),
                kind,
            ),
        decreases text@.len() - pos,
    {
        let ghost all = word_boundaries(text@, pos as int);
        match next_boundary_after(text, pos) {
            Some((at, boundary)) => {
                proof {
                    assert(all.drop_first() =~= word_boundaries(text@, at as int));
                    assert(all[0] == (at, boundary));
                }
                if boundary.matches(&kind) {
                    return at;
                }
                pos = at;
            },
            None => {
                let len: usize = text.len();
                proof {
                    assert(all =~= seq![(len, WordBoundaryType::Both)]);
                }
                return len;
            },
        }
    }
}

/// The offset of the first word boundary before `from` whose type matches
/// `kind`. The start of the text is a boundary of every kind.
pub fn prev_word_boundary(text: &Text, from: usize, kind: WordBoundaryType) -> (offset: usize)
    requires
        is_boundary(text@, from as int),
    ensures
        first_match(word_boundaries_backwards(text@, from as int), kind) == Some(offset),
        offset <= from,
        is_boundary(text@, offset as int),
{
    let _len: usize = text.len();
    let mut pos: usize = from;
    loop
        invariant
            is_boundary(text@, pos as int),
            is_boundary(text@, 0),
            pos <= from,
            first_match(word_boundaries_backwards(text@, pos as int), kind) == first_match(
                word_boundaries_backwards(text@, from as int),
                kind,
            ),
        decreases pos,
    {
        let ghost all = word_boundaries_backwards(text@, pos as int);
        match next_boundary_before(text, pos) {
            Some((at, boundary)) => {
                proof {
                    assert(all.drop_first() =~= word_boundaries_backwards(text@, at as int));
                    assert(all[0] == (at, boundary));
                }
                if boundary.matches(&kind) {
                    return at;
                }
                pos = at;
            },
            None => {
                proof {
                    assert(all =~= seq![(0usize, WordBoundaryType::Both)]);
                }
                return 0;
            },
        }
    }
}

/// The boundaries behind an offset lie behind it and within the text, and
/// up to the first of them the text has no word boundary.
pub proof fn lemma_boundaries_after(bytes: Seq<u8>, from: int)
    requires
        0 <= from,
        bytes.len() <= usize::MAX,
    ensures
        forall|i: int|
            0 <= i < boundaries_after(bytes, from).len() ==> from < (
            #[trigger] boundaries_after(bytes, from)[i]).0 < bytes.len(),
        boundaries_after(bytes, from).len() > 0 ==> forall|q: int|
            from < q < boundaries_after(bytes, from)[0].0 ==> boundary_at(bytes, q).is_none(),
        boundaries_after(bytes, from).len() == 0 ==> forall|q: int|
            from < q ==> boundary_at(bytes, q).is_none(),
    decreases bytes.len() - from,
{
    if from + 1 < bytes.len() {
        lemma_boundaries_after(bytes, from + 1);
        let rest = boundaries_after(bytes, from + 1);
        let all = boundaries_after(bytes, from);
        assert forall|i: int| 0 <= i < all.len() implies from < (#[trigger] all[i]).0
            < bytes.len() by {
            if boundary_at(bytes, from + 1).is_some() {
                if i > 0 {
                    assert(all[i] == rest[i - 1]);
                }
            } else {
                assert(all[i] == rest[i]);
            }
        }
    }
}

/// The boundaries before an offset lie before it and behind the start of
/// the text.
pub proof fn lemma_boundaries_before(bytes: Seq<u8>, from: int)
    requires
        from <= bytes.len() <= usize::MAX,
    ensures
        forall|i: int|
            0 <= i < boundaries_before(bytes, from).len() ==> 0 < (
            #[trigger] boundaries_before(bytes, from)[i]).0 < from,
    decreases from,
{
    if from > 1 {
        lemma_boundaries_before(bytes, from - 1);
        let rest = boundaries_before(bytes, from - 1);
        let all = boundaries_before(bytes, from);
        assert forall|i: int| 0 <= i < all.len() implies 0 < (#[trigger] all[i]).0 < from by {
            if boundary_at(bytes, from - 1).is_some() {
                if i > 0 {
                    assert(all[i] == rest[i - 1]);
                }
            } else {
                assert(all[i] == rest[i]);
            }
        }
    }
}

/// Where the text has no word boundary between `floor` and `from`, the
/// first boundary before `from` lies at `floor` or before it.
proof fn lemma_first_before_skips(bytes: Seq<u8>, from: int, floor: int)
    requires
        0 <= floor,
        from <= bytes.len() <= usize::MAX,
        forall|q: int| floor < q < from ==> boundary_at(bytes, q).is_none(),
    ensures
        boundaries_before(bytes, from).len() > 0 ==> boundaries_before(bytes, from)[0].0 <= floor,
    decreases from,
{
    if from > 1 {
        if from - 1 > floor {
            assert(boundary_at(bytes, from - 1).is_none());
            lemma_first_before_skips(bytes, from - 1, floor);
        } else {
            lemma_boundaries_before(bytes, from - 1);
            let rest = boundaries_before(bytes, from - 1);
            if boundary_at(bytes, from - 1).is_none() && rest.len() > 0 {
                assert(0 < rest[0].0 < from - 1);
            }
        }
    }
}

/// Word boundaries are the same in both directions: a search forwards from
/// offset `k` finds a first boundary, and the search backwards from there
/// finds its first boundary at `k` or before it, so no boundary between the
/// two is lost on the way back. The search forwards ends with `Both` at the
/// end of the text, the search backwards with `Both` at its start.
pub proof fn lemma_word_boundary_symmetry(bytes: Seq<u8>, k: int)
    requires
        0 <= k <= bytes.len() <= usize::MAX,
    ensures
        ({
            let forwards = word_boundaries(bytes, k);
            let backwards = word_boundaries_backwards(bytes, forwards[0].0 as int);
            &&& forwards.last() == (bytes.len() as usize, WordBoundaryType::Both)
            &&& backwards.last() == (0usize, WordBoundaryType::Both)
            &&& k <= forwards[0].0
            &&& backwards[0].0 <= k
        }),
{
    lemma_boundaries_after(bytes, k);
    let forwards = word_boundaries(bytes, k);
    let first = forwards[0].0 as int;
    if boundaries_after(bytes, k).len() > 0 {
        assert(forwards[0] == boundaries_after(bytes, k)[0]);
    }
    assert forall|q: int| k < q < first implies boundary_at(bytes, q).is_none() by {}
    lemma_first_before_skips(bytes, first, k);
    let backwards = word_boundaries_backwards(bytes, first);
    if boundaries_before(bytes, first).len() > 0 {
        assert(backwards[0] == boundaries_before(bytes, first)[0]);
    }
}

} // verus!
