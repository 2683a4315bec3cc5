//! The text of a document: an immutable rope of UTF-8 bytes, read through
//! byte offsets and line numbers.
//!
//! An *offset* is a point between two bytes of the text, or the point before
//! the first or behind the last one, so the length of the text is an offset.

use vstd::prelude::*;
use vstd::utf8::decode_first_scalar;
use vstd::utf8::encode_utf8;
use xi_rope::Cursor;
use xi_rope::Rope;

verus! {

/// The byte of a line feed.
pub const NEWLINE: u8 = 10;

/// A byte that continues a code point begun by an earlier byte.
pub open spec fn is_continuation(byte: u8) -> bool {
    0x80 <= byte < 0xC0
}

/// `offset` lies in `bytes` and no code point straddles it.
pub open spec fn is_boundary(bytes: Seq<u8>, offset: int) -> bool {
    0 <= offset <= bytes.len() && (offset == bytes.len() || !is_continuation(bytes[offset]))
}

/// The nearest code point boundary before `offset`, or 0.
pub open spec fn prev_boundary(bytes: Seq<u8>, offset: int) -> int
    decreases offset,
{
    if offset <= 1 {
        0
    } else if is_boundary(bytes, offset - 1) {
        offset - 1
    } else {
        prev_boundary(bytes, offset - 1)
    }
}

/// The nearest code point boundary behind `offset`, or the length.
pub open spec fn next_boundary(bytes: Seq<u8>, offset: int) -> int
    decreases bytes.len() - offset,
{
    if offset + 1 >= bytes.len() {
        bytes.len() as int
    } else if is_boundary(bytes, offset + 1) {
        offset + 1
    } else {
        next_boundary(bytes, offset + 1)
    }
}

/// The nearest code point boundary of the text at `offset` or before it;
/// the end of the text for an offset behind it.
pub open spec fn snapped(bytes: Seq<u8>, offset: usize) -> usize {
    let within = if offset <= bytes.len() {
        offset as int
    } else {
        bytes.len() as int
    };
    if is_boundary(bytes, within) {
        within as usize
    } else {
        prev_boundary(bytes, within) as usize
    }
}

/// The code point whose encoding begins at `offset`.
pub open spec fn char_at(bytes: Seq<u8>, offset: int) -> char {
    decode_first_scalar(bytes.subrange(offset, bytes.len() as int)) as char
}

/// The number of line feeds among `bytes`.
pub open spec fn newline_count(bytes: Seq<u8>) -> nat
    decreases bytes.len(),
{
    if bytes.len() == 0 {
        0
    } else {
        newline_count(bytes.drop_last()) + if bytes.last() == NEWLINE {
            1nat
        } else {
            0nat
        }
    }
}

/// The number of the line that `offset` lies in, counted from 0.
pub open spec fn line_of(bytes: Seq<u8>, offset: int) -> nat {
    newline_count(bytes.take(offset))
}

/// The number of the last line of the text.
pub open spec fn last_line(bytes: Seq<u8>) -> nat {
    newline_count(bytes)
}

/// `offset` is where line `line` begins: the start of the text, or behind a
/// line feed.
pub open spec fn is_line_start(bytes: Seq<u8>, line: nat, offset: int) -> bool {
    &&& 0 <= offset <= bytes.len()
    &&& line_of(bytes, offset) == line
    &&& (offset == 0 || bytes[offset - 1] == NEWLINE)
}

/// The offset at which line `line` begins; the length of the text for a line
/// behind the last one.
pub open spec fn line_start(bytes: Seq<u8>, line: nat) -> int {
    if line <= last_line(bytes) {
        choose|offset: int| is_line_start(bytes, line, offset)
    } else {
        bytes.len() as int
    }
}

/// The grapheme boundary that `Rope::prev_grapheme_offset` finds before `offset`.
pub uninterp spec fn prev_grapheme_boundary(bytes: Seq<u8>, offset: usize) -> Option<usize>;

/// The grapheme boundary that `Rope::next_grapheme_offset` finds behind `offset`.
pub uninterp spec fn next_grapheme_boundary(bytes: Seq<u8>, offset: usize) -> Option<usize>;

/// The lines that `Rope::lines` yields for a text, without their line endings.
pub uninterp spec fn text_lines(bytes: Seq<u8>) -> Seq<Seq<char>>;

/// An immutable text. Copies share their storage, so a snapshot is cheap and
/// stays valid while the document is edited further.
#[verifier::external_body]
pub struct Text {
    pub(crate) rope: Rope,
}

/// The bytes of a text, in order.
pub uninterp spec fn text_bytes(text: Text) -> Seq<u8>;

impl View for Text {
    type V = Seq<u8>;

    open spec fn view(&self) -> Seq<u8> {
        text_bytes(*self)
    }
}

/// `Rope::from` of xi-rope: the rope holds the UTF-8 encoding of the string.
#[verifier::external_body]
fn rope_from_str(s: &str) -> (text: Text)
    ensures
        text_bytes(text) == encode_utf8(s@),
{
    Text { rope: Rope::from(s) }
}

/// `String::from(&Rope)` of xi-rope: the string whose UTF-8 encoding the rope
/// holds.
#[verifier::external_body]
fn rope_to_string(text: &Text) -> (s: String)
    ensures
        encode_utf8(s@) == text@,
{
    String::from(&text.rope)
}

/// `Clone` of xi-rope's rope: a second handle to the same bytes.
#[verifier::external_body]
fn rope_clone(text: &Text) -> (copy: Text)
    ensures
        copy@ == text@,
{
    Text { rope: text.rope.clone() }
}

/// `Node::len` of xi-rope: the number of bytes in the rope. A rope keeps
/// its bytes in strings, so where it is not empty, its first byte begins a
/// code point.
#[verifier::external_body]
fn rope_len(text: &Text) -> (len: usize)
    ensures
        len == text_bytes(*text).len(),
        len > 0 ==> !is_continuation(text_bytes(*text)[0]),
{
    text.rope.len()
}

/// `Rope::line_of_offset` of xi-rope: the count of line feeds before
/// `offset`. It panics for an offset behind the end or inside a code point.
#[verifier::external_body]
fn rope_line_of_offset(text: &Text, offset: usize) -> (line: usize)
    requires
        is_boundary(text@, offset as int),
    ensures
        line == line_of(text@, offset as int),
{
    text.rope.line_of_offset(offset)
}

/// `Rope::offset_of_line` of xi-rope: the offset behind the `line`-th line
/// feed, 0 for line 0, and the length of the rope for the line after the
/// last. It panics for lines behind that. A line feed is a code point of
/// its own, so a line begins on a code point boundary.
#[verifier::external_body]
fn rope_offset_of_line(text: &Text, line: usize) -> (offset: usize)
    requires
        line <= last_line(text@) + 1,
    ensures
        line <= last_line(text@) ==> is_line_start(text@, line as nat, offset as int),
        line == last_line(text@) + 1 ==> offset == text@.len(),
        is_boundary(text@, offset as int),
{
    text.rope.offset_of_line(line)
}

/// `Rope::prev_grapheme_offset` of xi-rope. What it finds lies before
/// `offset` and on a code point boundary.
#[verifier::external_body]
fn rope_prev_grapheme_offset(text: &Text, offset: usize) -> (prev: Option<usize>)
    requires
        offset <= text@.len(),
    ensures
        prev == prev_grapheme_boundary(text@, offset),
        prev matches Some(p) ==> p < offset && is_boundary(text@, p as int),
{
    text.rope.prev_grapheme_offset(offset)
}

/// `Rope::next_grapheme_offset` of xi-rope. What it finds lies behind
/// `offset`, within the text and on a code point boundary.
#[verifier::external_body]
fn rope_next_grapheme_offset(text: &Text, offset: usize) -> (next: Option<usize>)
    requires
        offset <= text@.len(),
    ensures
        next == next_grapheme_boundary(text@, offset),
        next matches Some(n) ==> offset < n <= text@.len() && is_boundary(text@, n as int),
{
    text.rope.next_grapheme_offset(offset)
}

/// `Rope::is_codepoint_boundary` of xi-rope.
#[verifier::external_body]
fn rope_is_codepoint_boundary(text: &Text, offset: usize) -> (b: bool)
    requires
        offset <= text@.len(),
    ensures
        b == is_boundary(text@, offset as int),
{
    text.rope.is_codepoint_boundary(offset)
}

/// `Rope::prev_codepoint_offset` of xi-rope: the start of the code point
/// that ends at `offset` or straddles it; nothing at the start of the text.
#[verifier::external_body]
fn rope_prev_codepoint_offset(text: &Text, offset: usize) -> (prev: Option<usize>)
    requires
        offset <= text@.len(),
    ensures
        prev == if offset == 0 {
            None
        } else {
            Some(prev_boundary(text@, offset as int) as usize)
        },
{
    text.rope.prev_codepoint_offset(offset)
}

/// `Rope::next_codepoint_offset` of xi-rope: from a code point boundary, the
/// end of the code point that begins there; nothing at the end of the text.
#[verifier::external_body]
fn rope_next_codepoint_offset(text: &Text, offset: usize) -> (next: Option<usize>)
    requires
        is_boundary(text@, offset as int),
    ensures
        next == if offset == text@.len() {
            None
        } else {
            Some(next_boundary(text@, offset as int) as usize)
        },
{
    text.rope.next_codepoint_offset(offset)
}

/// `Cursor::peek_next_codepoint` of xi-rope, on a cursor at `offset`: the
/// code point that begins at that boundary; nothing at the end of the text.
#[verifier::external_body]
fn rope_codepoint_at(text: &Text, offset: usize) -> (c: Option<char>)
    requires
        is_boundary(text@, offset as int),
    ensures
        c == if offset == text@.len() {
            None
        } else {
            Some(char_at(text@, offset as int))
        },
{
    Cursor::new(&text.rope, offset).peek_next_codepoint()
}

/// `Rope::lines` of xi-rope over the whole rope, each line copied out.
#[verifier::external_body]
fn rope_lines(text: &Text) -> (lines: Vec<String>)
    ensures
        lines@.len() == text_lines(text@).len(),
        forall|i: int| 0 <= i < lines@.len() ==> (#[trigger] lines@[i])@ == text_lines(text@)[i],
{
    text.rope.lines(..).map(|line| line.into_owned()).collect()
}

/// Stepping over one byte adds one to the line number where the byte is a
/// line feed, and nothing elsewhere.
pub proof fn lemma_line_of_step(bytes: Seq<u8>, offset: int)
    requires
        0 <= offset < bytes.len(),
    ensures
        line_of(bytes, offset + 1) == line_of(bytes, offset) + if bytes[offset] == NEWLINE {
            1nat
        } else {
            0nat
        },
{
    assert(bytes.take(offset + 1).drop_last() =~= bytes.take(offset));
}

/// The line number does not fall along the text.
pub proof fn lemma_line_of_monotone(bytes: Seq<u8>, a: int, b: int)
    requires
        0 <= a <= b <= bytes.len(),
    ensures
        line_of(bytes, a) <= line_of(bytes, b),
    decreases b - a,
{
    if a < b {
        lemma_line_of_monotone(bytes, a, b - 1);
        lemma_line_of_step(bytes, b - 1);
    }
}

/// The line number of the end of the text is that of its last line.
pub proof fn lemma_line_of_end(bytes: Seq<u8>)
    ensures
        line_of(bytes, bytes.len() as int) == last_line(bytes),
{
    assert(bytes.take(bytes.len() as int) =~= bytes);
}

/// A text has no more line feeds than bytes.
pub proof fn lemma_last_line_bound(bytes: Seq<u8>)
    ensures
        last_line(bytes) <= bytes.len(),
    decreases bytes.len(),
{
    if bytes.len() > 0 {
        lemma_last_line_bound(bytes.drop_last());
    }
}

/// A line begins at one offset only.
pub proof fn lemma_line_start_unique(bytes: Seq<u8>, line: nat, a: int, b: int)
    requires
        is_line_start(bytes, line, a),
        is_line_start(bytes, line, b),
    ensures
        a == b,
{
    if a < b {
        lemma_line_of_step(bytes, b - 1);
        lemma_line_of_monotone(bytes, a, b - 1);
    } else if b < a {
        lemma_line_of_step(bytes, a - 1);
        lemma_line_of_monotone(bytes, b, a - 1);
    }
}

/// Every line that occurs before `upto` begins somewhere before `upto`.
proof fn lemma_line_start_exists_upto(bytes: Seq<u8>, line: nat, upto: int)
    requires
        0 <= upto <= bytes.len(),
        line <= line_of(bytes, upto),
    ensures
        exists|offset: int| offset <= upto && is_line_start(bytes, line, offset),
    decreases upto,
{
    if upto == 0 {
        assert(bytes.take(0) =~= Seq::<u8>::empty());
        assert(is_line_start(bytes, line, 0));
    } else {
        lemma_line_of_step(bytes, upto - 1);
        if line <= line_of(bytes, upto - 1) {
            lemma_line_start_exists_upto(bytes, line, upto - 1);
        } else {
            assert(is_line_start(bytes, line, upto));
        }
    }
}

/// Every line up to the last one begins at `line_start`, and that offset
/// lies in the text.
pub proof fn lemma_line_start(bytes: Seq<u8>, line: nat)
    ensures
        0 <= line_start(bytes, line) <= bytes.len(),
        line <= last_line(bytes) ==> is_line_start(bytes, line, line_start(bytes, line)),
{
    if line <= last_line(bytes) {
        lemma_line_of_end(bytes);
        lemma_line_start_exists_upto(bytes, line, bytes.len() as int);
    }
}

/// An offset lies at or behind the start of its line, and no line feed lies
/// between the two.
pub proof fn lemma_line_start_before(bytes: Seq<u8>, offset: int)
    requires
        0 <= offset <= bytes.len(),
    ensures
        line_of(bytes, offset) <= last_line(bytes),
        line_start(bytes, line_of(bytes, offset)) <= offset,
        forall|k: int|
            line_start(bytes, line_of(bytes, offset)) <= k < offset ==> bytes[k] != NEWLINE,
{
    let line = line_of(bytes, offset);
    lemma_line_of_end(bytes);
    lemma_line_of_monotone(bytes, offset, bytes.len() as int);
    lemma_line_start(bytes, line);
    let start = line_start(bytes, line);
    if start > offset {
        lemma_line_of_step(bytes, start - 1);
        lemma_line_of_monotone(bytes, offset, start - 1);
    }
    assert forall|k: int| start <= k < offset implies bytes[k] != NEWLINE by {
        lemma_line_of_step(bytes, k);
        lemma_line_of_monotone(bytes, start, k);
        lemma_line_of_monotone(bytes, k + 1, offset);
    }
}

/// A later line begins at a later offset.
pub proof fn lemma_line_start_increasing(bytes: Seq<u8>, a: nat, b: nat)
    requires
        a < b <= last_line(bytes),
    ensures
        line_start(bytes, a) < line_start(bytes, b),
{
    lemma_line_start(bytes, a);
    lemma_line_start(bytes, b);
    if line_start(bytes, a) >= line_start(bytes, b) {
        lemma_line_of_monotone(bytes, line_start(bytes, b), line_start(bytes, a));
    }
}

/// An offset between the start of a line and the start of the next line
/// lies in that line.
pub proof fn lemma_line_of_between(bytes: Seq<u8>, offset: int, line: nat)
    requires
        line <= last_line(bytes),
        line_start(bytes, line) <= offset <= bytes.len(),
        line < last_line(bytes) ==> offset < line_start(bytes, line + 1),
    ensures
        line_of(bytes, offset) == line,
{
    lemma_line_start(bytes, line);
    lemma_line_of_monotone(bytes, line_start(bytes, line), offset);
    lemma_line_start_before(bytes, offset);
    let found = line_of(bytes, offset);
    if found > line {
        if found > line + 1 {
            lemma_line_start_increasing(bytes, line + 1, found);
        }
    }
}

/// Behind an offset in the text, the next boundary lies within the text,
/// and no boundary lies between the two.
pub proof fn lemma_next_boundary(bytes: Seq<u8>, offset: int)
    requires
        0 <= offset < bytes.len(),
    ensures
        offset < next_boundary(bytes, offset) <= bytes.len(),
        is_boundary(bytes, next_boundary(bytes, offset)),
        forall|k: int| offset < k < next_boundary(bytes, offset) ==> !is_boundary(bytes, k),
    decreases bytes.len() - offset,
{
    if offset + 1 < bytes.len() && !is_boundary(bytes, offset + 1) {
        lemma_next_boundary(bytes, offset + 1);
    }
}

/// Before an offset behind the start of a text, the previous boundary lies
/// within the text, and no boundary lies between the two.
pub proof fn lemma_prev_boundary(bytes: Seq<u8>, offset: int)
    requires
        0 < offset <= bytes.len(),
        is_boundary(bytes, 0),
    ensures
        0 <= prev_boundary(bytes, offset) < offset,
        is_boundary(bytes, prev_boundary(bytes, offset)),
        forall|k: int| prev_boundary(bytes, offset) < k < offset ==> !is_boundary(bytes, k),
    decreases offset,
{
    if offset > 1 && !is_boundary(bytes, offset - 1) {
        lemma_prev_boundary(bytes, offset - 1);
    }
}

/// Stepping forward from a boundary and back again ends where it began.
pub proof fn lemma_prev_of_next(bytes: Seq<u8>, offset: int)
    requires
        is_boundary(bytes, offset),
        is_boundary(bytes, 0),
        offset < bytes.len(),
    ensures
        prev_boundary(bytes, next_boundary(bytes, offset)) == offset,
{
    lemma_next_boundary(bytes, offset);
    lemma_prev_boundary(bytes, next_boundary(bytes, offset));
}

impl Text {
    /// The text that holds the UTF-8 encoding of `s`.
    pub fn new(s: &str) -> (text: Text)
        ensures
            text@ == encode_utf8(s@),
            is_boundary(text@, 0),
    {
        let text = rope_from_str(s);
        let _len: usize = rope_len(&text);
        text
    }

    /// The text as a string.
    pub fn to_string(&self) -> (s: String)
        ensures
            encode_utf8(s@) == self@,
    {
        rope_to_string(self)
    }

    /// A second handle to the same text.
    pub fn snapshot(&self) -> (copy: Text)
        ensures
            copy@ == self@,
            is_boundary(copy@, 0),
    {
        let _len: usize = rope_len(self);
        rope_clone(self)
    }

    /// The number of bytes of the text. Every text begins on a code point
    /// boundary.
    pub fn len(&self) -> (len: usize)
        ensures
            len == self@.len(),
            is_boundary(self@, 0),
    {
        rope_len(self)
    }

    /// The number of the line that `offset` lies in: the count of line feeds
    /// before it.
    pub fn line_of_offset(&self, offset: usize) -> (line: usize)
        requires
            is_boundary(self@, offset as int),
        ensures
            line == line_of(self@, offset as int),
            line <= last_line(self@),
    {
        proof {
            lemma_line_start_before(self@, offset as int);
        }
        rope_line_of_offset(self, offset)
    }

    /// The number of the last line.
    pub fn last_line(&self) -> (line: usize)
        ensures
            line == last_line(self@),
    {
        proof {
            lemma_line_of_end(self@);
        }
        rope_line_of_offset(self, rope_len(self))
    }

    /// The offset at which line `line` begins; the length of the text for
    /// the line behind the last one.
    pub fn offset_of_line(&self, line: usize) -> (offset: usize)
        requires
            line <= last_line(self@) + 1,
        ensures
            offset == line_start(self@, line as nat),
            offset <= self@.len(),
            is_boundary(self@, offset as int),
    {
        let offset: usize = rope_offset_of_line(self, line);
        proof {
            lemma_line_start(self@, line as nat);
            if line <= last_line(self@) {
                lemma_line_start_unique(
                    self@,
                    line as nat,
                    offset as int,
                    line_start(self@, line as nat),
                );
            }
        }
        offset
    }

    /// Whether no code point straddles `offset`.
    pub fn is_codepoint_boundary(&self, offset: usize) -> (b: bool)
        requires
            offset <= self@.len(),
        ensures
            b == is_boundary(self@, offset as int),
    {
        rope_is_codepoint_boundary(self, offset)
    }

    /// The start of the code point that ends at `offset` or straddles it;
    /// nothing at the start of the text.
    pub fn prev_codepoint_offset(&self, offset: usize) -> (prev: Option<usize>)
        requires
            offset <= self@.len(),
        ensures
            prev == if offset == 0 {
                None
            } else {
                Some(prev_boundary(self@, offset as int) as usize)
            },
            prev matches Some(p) ==> p < offset && is_boundary(self@, p as int),
    {
        let _len: usize = rope_len(self);
        proof {
            if offset > 0 {
                lemma_prev_boundary(self@, offset as int);
            }
        }
        rope_prev_codepoint_offset(self, offset)
    }

    /// From a code point boundary, the end of the code point that begins
    /// there; nothing at the end of the text.
    pub fn next_codepoint_offset(&self, offset: usize) -> (next: Option<usize>)
        requires
            is_boundary(self@, offset as int),
        ensures
            next == if offset == self@.len() {
                None
            } else {
                Some(next_boundary(self@, offset as int) as usize)
            },
            next matches Some(n) ==> offset < n <= self@.len() && is_boundary(self@, n as int),
    {
        proof {
            if offset < self@.len() {
                lemma_next_boundary(self@, offset as int);
            }
        }
        let _len: usize = rope_len(self);
        rope_next_codepoint_offset(self, offset)
    }

    /// The code point that begins at a boundary; nothing at the end of the
    /// text.
    pub fn codepoint_at(&self, offset: usize) -> (c: Option<char>)
        requires
            is_boundary(self@, offset as int),
        ensures
            c == if offset == self@.len() {
                None
            } else {
                Some(char_at(self@, offset as int))
            },
    {
        rope_codepoint_at(self, offset)
    }

    /// The nearest code point boundary at `offset` or before it; the end of
    /// the text for an offset behind it.
    pub fn snap_offset(&self, offset: usize) -> (out: usize)
        ensures
            out == snapped(self@, offset),
            is_boundary(self@, out as int),
    {
        let len: usize = self.len();
        let within: usize = if offset <= len { offset } else { len };
        if self.is_codepoint_boundary(within) {
            within
        } else {
            match self.prev_codepoint_offset(within) {
                Some(prev) => prev,
                None => 0,
            }
        }
    }

    /// The lines of the text, without their line endings.
    pub fn lines(&self) -> (lines: Vec<String>)
        ensures
            lines@.len() == text_lines(self@).len(),
            forall|i: int| 0 <= i < lines@.len() ==> (#[trigger] lines@[i])@ == text_lines(self@)[i],
    {
        rope_lines(self)
    }

    /// The grapheme boundary before `offset`, if the text has one.
    pub(crate) fn prev_grapheme_offset(&self, offset: usize) -> (prev: Option<usize>)
        requires
            offset <= self@.len(),
        ensures
            prev == prev_grapheme_boundary(self@, offset),
            prev matches Some(p) ==> p < offset && is_boundary(self@, p as int),
    {
        rope_prev_grapheme_offset(self, offset)
    }

    /// The grapheme boundary behind `offset`, if the text has one.
    pub(crate) fn next_grapheme_offset(&self, offset: usize) -> (next: Option<usize>)
        requires
            offset <= self@.len(),
        ensures
            next == next_grapheme_boundary(self@, offset),
            next matches Some(n) ==> offset < n <= self@.len() && is_boundary(self@, n as int),
    {
        rope_next_grapheme_offset(self, offset)
    }
}

} // verus!
