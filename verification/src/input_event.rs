//! Input events, as they are received from a frontend.

use crate::unicode::char_is_combining;
use crate::unicode::char_is_control;
use crate::unicode::is_combining;
use crate::unicode::is_control;
use crate::unicode::str_to_uppercase;
use crate::unicode::uppercase;
use vstd::prelude::*;
use vstd::string::StringExecFns;

verus! {

/// Set of held modifiers, one bit for each.
#[derive(Debug, Clone, Copy, PartialEq, Eq, Structural, Hash)]
pub struct Modifiers {
    bits: u8,
}

impl Modifiers {
    /// The bits of the set: 1 for control, 2 for shift, 4 for alt, 8 for
    /// the windows key.
    pub closed spec fn spec_bits(self) -> u8 {
        self.bits
    }

    /// Every modifier of `other` is in this set.
    pub open spec fn spec_contains(self, other: Modifiers) -> bool {
        self.spec_bits() & other.spec_bits() == other.spec_bits()
    }

    /// The modifier that a letter stands for, in either case.
    pub open spec fn spec_from_char(c: char) -> Option<u8> {
        if c == 'c' || c == 'C' {
            Some(1u8)
        } else if c == 's' || c == 'S' {
            Some(2u8)
        } else if c == 'a' || c == 'A' {
            Some(4u8)
        } else if c == 'm' || c == 'M' {
            Some(8u8)
        } else {
            None
        }
    }

    /// Sets with the same bits are the same set.
    pub proof fn lemma_same_bits(self, other: Modifiers)
        ensures
            (self.spec_bits() == other.spec_bits()) == (self == other),
    {
    }

    /// The set without modifiers.
    pub fn empty() -> (m: Modifiers)
        ensures
            m.spec_bits() == 0,
    {
        Modifiers { bits: 0 }
    }

    /// The control key alone.
    pub fn ctrl() -> (m: Modifiers)
        ensures
            m.spec_bits() == 1,
    {
        Modifiers { bits: 1 }
    }

    /// The shift key alone.
    pub fn shift() -> (m: Modifiers)
        ensures
            m.spec_bits() == 2,
    {
        Modifiers { bits: 2 }
    }

    /// The alt key alone.
    pub fn alt() -> (m: Modifiers)
        ensures
            m.spec_bits() == 4,
    {
        Modifiers { bits: 4 }
    }

    /// The windows key alone.
    pub fn win() -> (m: Modifiers)
        ensures
            m.spec_bits() == 8,
    {
        Modifiers { bits: 8 }
    }

    pub fn bits(&self) -> (bits: u8)
        ensures
            bits == self.spec_bits(),
    {
        self.bits
    }

    /// The set of the modifiers whose bits are set in `bits`; other bits are
    /// dropped.
    pub fn from_bits_truncate(bits: u8) -> (m: Modifiers)
        ensures
            m.spec_bits() == bits & 15,
    {
        Modifiers { bits: bits & 15 }
    }

    pub fn is_empty(&self) -> (b: bool)
        ensures
            b == (self.spec_bits() == 0),
    {
        self.bits == 0
    }

    pub fn contains(&self, other: Modifiers) -> (b: bool)
        ensures
            b == self.spec_contains(other),
    {
        self.bits & other.bits == other.bits
    }

    /// The modifiers of both sets.
    pub fn union(self, other: Modifiers) -> (m: Modifiers)
        ensures
            m.spec_bits() == self.spec_bits() | other.spec_bits(),
    {
        Modifiers { bits: self.bits | other.bits }
    }

    /// The letters of the modifiers that precede `letter` in a text, with
    /// `letter` behind them where its modifier is held. A `-` stands between
    /// two letters.
    pub open spec fn with_letter(sofar: Seq<char>, held: bool, letter: Seq<char>) -> Seq<char> {
        if !held {
            sofar
        } else if sofar.len() == 0 {
            letter
        } else {
            sofar + "-"@ + letter
        }
    }

    /// The text of the set: the letters `C`, `S`, `A` and `W` of the held
    /// modifiers, with `-` between them.
    pub open spec fn spec_to_string(self) -> Seq<char> {
        let bits = self.spec_bits();
        Self::with_letter(
            Self::with_letter(
                Self::with_letter(Self::with_letter(Seq::empty(), bits & 1 == 1, "C"@), bits & 2
                    == 2, "S"@),
                bits & 4 == 4,
                "A"@,
            ),
            bits & 8 == 8,
            "W"@,
        )
    }

    /// One more letter behind the others.
    fn push_letter(sofar: String, held: bool, letter: &str) -> (text: String)
        ensures
            text@ == Self::with_letter(sofar@, held, letter@),
    {
        if !held {
            sofar
        } else if sofar.as_str().unicode_len() == 0 {
            letter.to_owned()
        } else {
            sofar.concat("-").concat(letter)
        }
    }

    /// The text of the set, such as `C-S` for control and shift.
    pub fn to_string(&self) -> (text: String)
        ensures
            text@ == self.spec_to_string(),
    {
        let bits: u8 = self.bits;
        let text = Self::push_letter(String::new(), bits & 1 == 1, "C");
        let text = Self::push_letter(text, bits & 2 == 2, "S");
        let text = Self::push_letter(text, bits & 4 == 4, "A");
        Self::push_letter(text, bits & 8 == 8, "W")
    }

    /// Parse a char into a single modifier.
    pub fn from_char(c: char) -> (m: Option<Modifiers>)
        ensures
            match m {
                Some(m) => Self::spec_from_char(c) == Some(m.spec_bits()),
                None => Self::spec_from_char(c).is_none(),
            },
    {
        if c == 'c' || c == 'C' {
            Some(Modifiers { bits: 1 })
        } else if c == 's' || c == 'S' {
            Some(Modifiers { bits: 2 })
        } else if c == 'a' || c == 'A' {
            Some(Modifiers { bits: 4 })
        } else if c == 'm' || c == 'M' {
            Some(Modifiers { bits: 8 })
        } else {
            None
        }
    }
}

/// Keys are represented by their key attribute values: either a key string
/// or a named key attribute value.
#[derive(Debug, Clone, PartialEq, Eq, Hash)]
pub struct Key(pub String);

/// A key string: no character, or one character that is no control
/// character or combines, followed by any number of combining characters.
pub open spec fn is_key_string(chars: Seq<char>) -> bool {
    chars.len() == 0 || ((!is_control(chars[0]) || is_combining(chars[0])) && forall|i: int|
        1 <= i < chars.len() ==> is_combining(#[trigger] chars[i]))
}

impl Key {
    pub fn as_str(&self) -> (s: &str)
        ensures
            s@ == self.0@,
    {
        self.0.as_str()
    }

    /// Whether the key is a key string: the text that the key types.
    pub fn is_key_string(&self) -> (b: bool)
        ensures
            b == is_key_string(self.0@),
    {
        let s = self.0.as_str();
        let len: usize = s.unicode_len();
        // If there is no character, it's always a valid key string
        if len == 0 {
            return true;
        }
        let first: char = s.get_char(0);
        if char_is_control(first) && !char_is_combining(first) {
            return false;
        }
        let mut i: usize = 1;
        while i < len
            invariant
                1 <= i <= len,
                len == s@.len(),
                s@ == self.0@,
                forall|k: int| 1 <= k < i ==> is_combining(#[trigger] s@[k]),
            decreases len - i,
        {
            if !char_is_combining(s.get_char(i)) {
                assert(!is_combining(s@[i as int]));
                return false;
            }
            i += 1;
        }
        true
    }

    /// Whether the key is a named key attribute value, such as `Enter`.
    pub fn is_named_key_attribute_value(&self) -> (b: bool)
        ensures
            b == !is_key_string(self.0@),
    {
        !self.is_key_string()
    }

    /// The key as a key string, if it is one.
    pub fn as_key_string(&self) -> (s: Option<&str>)
        ensures
            match s {
                Some(s) => is_key_string(self.0@) && s@ == self.0@,
                None => !is_key_string(self.0@),
            },
    {
        if self.is_key_string() {
            Some(self.0.as_str())
        } else {
            None
        }
    }

    /// The key as a named key attribute value, if it is one.
    pub fn as_named_key_attribute_value(&self) -> (s: Option<&str>)
        ensures
            match s {
                Some(s) => !is_key_string(self.0@) && s@ == self.0@,
                None => is_key_string(self.0@),
            },
    {
        if self.is_named_key_attribute_value() {
            Some(self.0.as_str())
        } else {
            None
        }
    }
}

/// Raw key value: the code of the physical key.
#[derive(Debug, Clone, PartialEq, Eq, Hash)]
pub struct RawKey(pub String);

impl RawKey {
    /// The code of the key of a letter: `KeyA` for `a`.
    pub fn alpha(s: &str) -> (k: Self)
        ensures
            k.0@ == "Key"@ + uppercase(s@),
    {
        let upper = str_to_uppercase(s);
        Self(String::from_str("Key").concat(upper.as_str()))
    }

    /// The code of the key of a digit: `Digit1` for `1`.
    pub fn num(s: &str) -> (k: Self)
        ensures
            k.0@ == "Digit"@ + s@,
    {
        Self(String::from_str("Digit").concat(s))
    }

    pub fn key(s: &str) -> (k: Self)
        ensures
            k.0@ == s@,
    {
        Self(s.to_owned())
    }

    /// The raw key that a text names: the key of the letter or digit for a
    /// text of one letter or digit, and the key of that code otherwise.
    pub open spec fn spec_named(s: Seq<char>) -> Seq<char> {
        if s.len() == 1 && (('a' <= s[0] && s[0] <= 'z') || ('A' <= s[0] && s[0] <= 'Z')) {
            "Key"@ + uppercase(s)
        } else if s.len() == 1 && '0' <= s[0] && s[0] <= '9' {
            "Digit"@ + s
        } else {
            s
        }
    }

    /// The raw key that a text names.
    pub fn named(s: &str) -> (k: Self)
        ensures
            k.0@ == Self::spec_named(s@),
    {
        if s.unicode_len() == 1 {
            let c: char = s.get_char(0);
            if ('a' <= c && c <= 'z') || ('A' <= c && c <= 'Z') {
                Self::alpha(s)
            } else if '0' <= c && c <= '9' {
                Self::num(s)
            } else {
                Self::key(s)
            }
        } else {
            Self::key(s)
        }
    }
}

impl From<&str> for RawKey {
    fn from(s: &str) -> (k: Self) {
        RawKey::named(s)
    }
}

impl vstd::std_specs::convert::FromSpecImpl<&str> for RawKey {
    open spec fn obeys_from_spec() -> bool {
        false
    }

    open spec fn from_spec(s: &str) -> Self {
        arbitrary()
    }
}

/// A combination of held modifiers and a key.
#[derive(Debug, Clone, PartialEq, Eq, Hash)]
pub struct KeyInput {
    /// Modifiers held down in this event.
    pub modifiers: Modifiers,
    /// The key that was pressed.
    pub key: Key,
    /// Raw key code of the pressed key.
    pub code: RawKey,
}

impl KeyInput {
    /// The text of the input: the key where no modifier is held, and the
    /// modifiers with the raw key code in angle brackets otherwise.
    pub open spec fn spec_to_string(self) -> Seq<char> {
        if self.modifiers.spec_bits() == 0 {
            self.key.0@
        } else {
            "<"@ + self.modifiers.spec_to_string() + "-"@ + self.code.0@ + ">"@
        }
    }

    /// The text of the input, such as `a` or `<C-KeyA>`.
    pub fn to_string(&self) -> (text: String)
        ensures
            text@ == self.spec_to_string(),
    {
        if self.modifiers.is_empty() {
            self.key.0.clone()
        } else {
            String::from_str("<").concat(self.modifiers.to_string().as_str()).concat("-").concat(
                self.code.0.as_str(),
            ).concat(">")
        }
    }
}

} // verus!
