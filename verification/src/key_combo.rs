//! Key combo definitions as they are used in specifying keymaps.

use crate::input_event::Key;
use crate::input_event::KeyInput;
use crate::input_event::Modifiers;
use crate::input_event::RawKey;
use vstd::prelude::*;
use vstd::string::StringExecFns;

verus! {

/// Specification of a keypress, either through raw key codes or through key
/// attribute value, designed for use in keymaps.
#[derive(Debug, Clone, PartialEq, Eq, Hash)]
pub enum KeySpec {
    /// Key specified as a raw key code.
    Raw(RawKey),
    /// Key specified as a key attribute value.
    Str(Key),
}

/// Specification of a combination of a key and 0 or more modifiers that
/// were held down.
///
/// This differs from [`KeyInput`] in that it is specified via _either_ a raw
/// key code, _or_ a key attribute value, whereas [`KeyInput`] provides both.
/// Thus, several combos may match the same [`KeyInput`].
#[derive(Debug, Clone, PartialEq, Eq, Hash)]
pub struct Combo {
    spec: KeySpec,
    modifiers: Modifiers,
}

/// What `str::replace` makes of a text: the text with `to` in place of
/// every match of `from`.
pub uninterp spec fn replaced(s: Seq<char>, from: Seq<char>, to: Seq<char>) -> Seq<char>;

/// `str::replace` of std.
#[verifier::external_body]
fn str_replace(s: &str, from: &str, to: &str) -> (out: String)
    ensures
        out@ == replaced(s@, from@, to@),
{
    s.replace(from, to)
}

impl KeySpec {
    /// The text of the key: a raw key code without the words `Digit` and
    /// `Key`, and a key attribute value as it is.
    pub open spec fn spec_to_string(self) -> Seq<char> {
        match self {
            KeySpec::Raw(code) => replaced(replaced(code.0@, "Digit"@, ""@), "Key"@, ""@),
            KeySpec::Str(key) => key.0@,
        }
    }

    /// The text of the key, such as `A` for the raw key code `KeyA`.
    pub fn to_string(&self) -> (text: String)
        ensures
            text@ == self.spec_to_string(),
    {
        match self {
            KeySpec::Raw(code) => str_replace(
                str_replace(code.0.as_str(), "Digit", "").as_str(),
                "Key",
                "",
            ),
            KeySpec::Str(key) => key.0.clone(),
        }
    }
}

/// What a combo says: whether it names its key by a raw key code or by a
/// key attribute value, that name, and the bits of its modifiers.
pub struct ComboModel {
    pub raw: bool,
    pub name: Seq<char>,
    pub modifiers: u8,
}

/// Why a text is not a key combo.
#[derive(Debug, Clone, PartialEq, Eq)]
pub enum KeyInputParseError {
    /// A part that should name a modifier names none.
    InvalidModifier(String),
    /// There was no input.
    EmptyInput,
}

/// The index of the first `-` of `s` at `start` or behind it, or the length
/// of `s` where there is none.
pub open spec fn part_end(s: Seq<char>, start: int) -> int
    decreases s.len() - start,
{
    if start >= s.len() {
        s.len() as int
    } else if s[start] == '-' {
        start
    } else {
        part_end(s, start + 1)
    }
}

/// What the parts of `s` from `start` on say, where `-` parts them: every
/// part but the last names a modifier by its first letter, and the last
/// part names the key. The result holds the bits of those modifiers and of
/// `mods`, and the last part; or the first part that names no modifier.
pub open spec fn parse_parts(s: Seq<char>, start: int, mods: u8) -> Result<(u8, Seq<char>), Seq<char>>
    decreases s.len() - start,
{
    let end = part_end(s, start);
    if start > s.len() || end >= s.len() {
        Ok((mods, s.subrange(start, s.len() as int)))
    } else if end < start {
        Err(Seq::empty())
    } else {
        let part = s.subrange(start, end);
        if part.len() > 0 && Modifiers::spec_from_char(part[0]).is_some() {
            parse_parts(s, end + 1, mods | Modifiers::spec_from_char(part[0])->0)
        } else {
            Err(part)
        }
    }
}

/// Whether a text is written in angle brackets.
pub open spec fn is_bracketed(s: Seq<char>) -> bool {
    s.len() >= 2 && s[0] == '<' && s.last() == '>'
}

/// The index of a part's end lies at its start or behind it, within the
/// text, and no `-` lies before it in the part.
pub proof fn lemma_part_end(s: Seq<char>, start: int)
    requires
        0 <= start <= s.len(),
    ensures
        start <= part_end(s, start) <= s.len(),
        part_end(s, start) < s.len() ==> s[part_end(s, start)] == '-',
        forall|k: int| start <= k < part_end(s, start) ==> s[k] != '-',
    decreases s.len() - start,
{
    if start < s.len() && s[start] != '-' {
        lemma_part_end(s, start + 1);
    }
}

impl Combo {
    /// The key of the combo.
    pub closed spec fn spec_key(self) -> KeySpec {
        self.spec
    }

    /// The modifiers of the combo.
    pub closed spec fn spec_modifiers(self) -> Modifiers {
        self.modifiers
    }

    /// A combo given by a raw key code matches an input with that code and
    /// exactly its modifiers. A combo given by a key attribute value matches
    /// an input with that key and at least its modifiers.
    pub open spec fn spec_matches(self, key_input: KeyInput) -> bool {
        match self.spec_key() {
            KeySpec::Raw(code) => code.0@ == key_input.code.0@ && self.spec_modifiers()
                == key_input.modifiers,
            KeySpec::Str(key) => key.0@ == key_input.key.0@ && key_input.modifiers.spec_contains(
                self.spec_modifiers(),
            ),
        }
    }

    /// The text of the combo: its key where it has no modifiers, and its
    /// modifiers with its key in angle brackets otherwise.
    pub open spec fn spec_to_string(self) -> Seq<char> {
        if self.spec_modifiers().spec_bits() == 0 {
            self.spec_key().spec_to_string()
        } else {
            "<"@ + self.spec_modifiers().spec_to_string() + "-"@
                + self.spec_key().spec_to_string() + ">"@
        }
    }

    /// The text of the combo, such as `<C-S-A>`.
    pub fn to_string(&self) -> (text: String)
        ensures
            text@ == self.spec_to_string(),
    {
        if self.modifiers.is_empty() {
            self.spec.to_string()
        } else {
            String::from_str("<").concat(self.modifiers.to_string().as_str()).concat("-").concat(
                self.spec.to_string().as_str(),
            ).concat(">")
        }
    }

    /// What a text says of a combo. A text in angle brackets, such as
    /// `<C-S-Backspace>`, names modifiers by their first letters and then a
    /// raw key. Any other text is a key attribute value without modifiers.
    pub open spec fn parsed(self, s: Seq<char>) -> bool {
        if is_bracketed(s) {
            match parse_parts(s.subrange(1, s.len() - 1), 0, 0) {
                Ok((mods, name)) => self.spec_modifiers().spec_bits() == mods && (
                self.spec_key() matches KeySpec::Raw(code) && code.0@ == RawKey::spec_named(name)),
                Err(_) => false,
            }
        } else {
            self.spec_modifiers().spec_bits() == 0 && (self.spec_key() matches KeySpec::Str(key)
                && key.0@ == s)
        }
    }

    /// What parsing a text gives: the combo that the text says, or, for a
    /// text in angle brackets, the first part before the key that names no
    /// modifier. It never finds the input empty.
    pub open spec fn parses_to(s: Seq<char>, combo: Result<Combo, KeyInputParseError>) -> bool {
        match combo {
            Ok(combo) => combo.parsed(s),
            Err(KeyInputParseError::InvalidModifier(part)) => is_bracketed(s) && parse_parts(
                s.subrange(1, s.len() - 1),
                0,
                0,
            ) == Err::<(u8, Seq<char>), Seq<char>>(part@),
            Err(KeyInputParseError::EmptyInput) => false,
        }
    }

    /// Parse a combo from its text. It fails for a text in angle brackets
    /// with a part before the key that names no modifier.
    pub fn parse(s: &str) -> (combo: Result<Self, KeyInputParseError>)
        ensures
            Self::parses_to(s@, combo),
    {
        let len: usize = s.unicode_len();
        if len >= 2 && s.get_char(0) == '<' && s.get_char(len - 1) == '>' {
            let inner = s.substring_char(1, len - 1);
            let inner_len: usize = inner.unicode_len();
            let mut modifiers = Modifiers::empty();
            let mut start: usize = 0;
            loop
                invariant
                    start <= inner_len,
                    inner_len == inner@.len(),
                    inner@ == s@.subrange(1, s@.len() - 1),
                    parse_parts(inner@, start as int, modifiers.spec_bits()) == parse_parts(
                        inner@,
                        0,
                        0,
                    ),
                    is_bracketed(s@),
                decreases inner_len - start,
            {
                let mut end: usize = start;
                while end < inner_len && inner.get_char(end) != '-'
                    invariant
                        start <= end <= inner_len,
                        inner_len == inner@.len(),
                        part_end(inner@, end as int) == part_end(inner@, start as int),
                    decreases inner_len - end,
                {
                    end += 1;
                }
                proof {
                    lemma_part_end(inner@, start as int);
                }
                let part = inner.substring_char(start, end);
                if end == inner_len {
                    return Ok(Self { modifiers, spec: KeySpec::Raw(RawKey::named(part)) });
                }
                let modifier = if end > start {
                    Modifiers::from_char(inner.get_char(start))
                } else {
                    None
                };
                match modifier {
                    Some(modifier) => {
                        modifiers = modifiers.union(modifier);
                    },
                    None => {
                        return Err(KeyInputParseError::InvalidModifier(part.to_owned()));
                    },
                }
                start = end + 1;
            }
        } else {
            Ok(Self { modifiers: Modifiers::empty(), spec: KeySpec::Str(Key(s.to_owned())) })
        }
    }

    /// What the combo says: how it names its key, and its modifiers.
    pub open spec fn model(self) -> ComboModel {
        match self.spec_key() {
            KeySpec::Raw(code) => ComboModel {
                raw: true,
                name: code.0@,
                modifiers: self.spec_modifiers().spec_bits(),
            },
            KeySpec::Str(key) => ComboModel {
                raw: false,
                name: key.0@,
                modifiers: self.spec_modifiers().spec_bits(),
            },
        }
    }

    /// Both combos name the same key in the same way, with the same
    /// modifiers.
    pub open spec fn spec_same(self, other: Combo) -> bool {
        self.model() == other.model()
    }

    /// Whether both combos name the same key in the same way, with the
    /// same modifiers.
    pub fn same(&self, other: &Combo) -> (b: bool)
        ensures
            b == self.spec_same(*other),
    {
        let same_key: bool = match &self.spec {
            KeySpec::Raw(a) => match &other.spec {
                KeySpec::Raw(b) => a.0 == b.0,
                KeySpec::Str(_) => false,
            },
            KeySpec::Str(a) => match &other.spec {
                KeySpec::Raw(_) => false,
                KeySpec::Str(b) => a.0 == b.0,
            },
        };
        proof {
            self.modifiers.lemma_same_bits(other.modifiers);
        }
        same_key && self.modifiers == other.modifiers
    }

    /// The combo of the raw key code of an input with given modifiers.
    pub fn raw_of(input: &KeyInput, modifiers: Modifiers) -> (combo: Self)
        ensures
            combo.model() == (ComboModel {
                raw: true,
                name: input.code.0@,
                modifiers: modifiers.spec_bits(),
            }),
    {
        Self { modifiers, spec: KeySpec::Raw(RawKey(input.code.0.clone())) }
    }

    /// The combo of the key attribute value of an input with given
    /// modifiers.
    pub fn str_of(input: &KeyInput, modifiers: Modifiers) -> (combo: Self)
        ensures
            combo.model() == (ComboModel {
                raw: false,
                name: input.key.0@,
                modifiers: modifiers.spec_bits(),
            }),
    {
        Self { modifiers, spec: KeySpec::Str(Key(input.key.0.clone())) }
    }

    /// The combo of a key without modifiers.
    pub fn new(spec: KeySpec) -> (combo: Self)
        ensures
            combo.spec_key() == spec,
            combo.spec_modifiers().spec_bits() == 0,
    {
        Combo { spec, modifiers: Modifiers::empty() }
    }

    /// Check if a combo matches a given key input.
    pub fn matches(&self, key_input: &KeyInput) -> (b: bool)
        ensures
            b == self.spec_matches(*key_input),
    {
        match &self.spec {
            KeySpec::Raw(x) => x.0 == key_input.code.0 && self.modifiers == key_input.modifiers,
            KeySpec::Str(x) => x.0 == key_input.key.0 && key_input.modifiers.contains(
                self.modifiers,
            ),
        }
    }

    /// Turn a key input into a corresponding combo by looking at the raw key
    /// code.
    pub fn from_keyinput_raw(input: KeyInput) -> (combo: Self)
        ensures
            combo.spec_key() == KeySpec::Raw(input.code),
            combo.spec_modifiers() == input.modifiers,
    {
        Self { modifiers: input.modifiers, spec: KeySpec::Raw(input.code) }
    }

    /// Turn a key input into a corresponding combo by looking at the key
    /// attribute value.
    pub fn from_keyinput_str(input: KeyInput) -> (combo: Self)
        ensures
            combo.spec_key() == KeySpec::Str(input.key),
            combo.spec_modifiers() == input.modifiers,
    {
        Self { modifiers: input.modifiers, spec: KeySpec::Str(input.key) }
    }

    /// The combo with its modifiers replaced.
    pub fn with_mods(self, mods: Modifiers) -> (combo: Self)
        ensures
            combo.spec_key() == self.spec_key(),
            combo.spec_modifiers() == mods,
    {
        Self { spec: self.spec, modifiers: mods }
    }

    /// The key of the combo.
    pub fn key_spec(&self) -> (spec: &KeySpec)
        ensures
            *spec == self.spec_key(),
    {
        &self.spec
    }

    /// The modifiers of the combo.
    pub fn modifiers(&self) -> (modifiers: Modifiers)
        ensures
            modifiers == self.spec_modifiers(),
    {
        self.modifiers
    }
}

impl core::str::FromStr for Combo {
    type Err = KeyInputParseError;

    /// Parse a combo from its text, as `Combo::parse` does.
    fn from_str(s: &str) -> (combo: Result<Self, KeyInputParseError>)
        ensures
            Self::parses_to(s@, combo),
    {
        Combo::parse(s)
    }
}

} // verus!
