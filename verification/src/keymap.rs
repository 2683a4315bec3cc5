//! Representation of a (possibly nested) keymap.

use crate::input_event::is_key_string;
use crate::input_event::KeyInput;
use crate::input_event::Modifiers;
use crate::key_combo::Combo;
use crate::key_combo::ComboModel;
use itertools::Itertools;
use vstd::prelude::*;

verus! {

/// The subsets that `Itertools::powerset` yields for a list of items, in
/// its order.
pub uninterp spec fn powerset(items: Seq<u8>) -> Seq<Seq<u8>>;

/// `Itertools::powerset` of the itertools crate, over the items of a
/// vector: all its subsets, collected.
#[verifier::external_body]
fn powerset_of(items: Vec<u8>) -> (subsets: Vec<Vec<u8>>)
    ensures
        subsets@.len() == powerset(items@).len(),
        forall|i: int| 0 <= i < subsets@.len() ==> (#[trigger] subsets@[i])@ == powerset(items@)[i],
{
    items.into_iter().powerset().collect()
}

/// A keymap specifies mappings from combos to some value (typically a
/// callback or event). Keymaps may be nested, meaning that a key is either
/// mapped to a submap, or to some concrete value.
///
/// Every keymap can optionally have a fallback case for printable
/// characters. No two mappings of a keymap have the same combo.
#[derive(Debug)]
pub struct Keymap<V> {
    map: Vec<(Combo, KeymapNode<V>)>,
    /// If no other mapping was matched, but the pressed key is a printable
    /// character, this node is matched.
    on_any_printable: Option<KeymapNode<V>>,
}

/// Either a submap, or a single value, used to represent the nested
/// structure of a keymap. Also includes a short description of the node,
/// for use in debugging and user interfaces.
#[derive(Debug)]
pub enum KeymapNode<V> {
    Submap(String, Box<Keymap<V>>),
    Leaf(String, V),
}

/// The position of the first of the entries whose combo is `combo`, or the
/// number of entries where there is none.
pub open spec fn position_of<V>(entries: Seq<(Combo, KeymapNode<V>)>, combo: ComboModel) -> int
    decreases entries.len(),
{
    if entries.len() == 0 {
        0
    } else if entries[0].0.model() == combo {
        0
    } else {
        1 + position_of(entries.drop_first(), combo)
    }
}

/// The node of the first of the entries whose combo is `combo`.
pub open spec fn first_of<V>(entries: Seq<(Combo, KeymapNode<V>)>, combo: ComboModel) -> Option<
    KeymapNode<V>,
> {
    let i = position_of(entries, combo);
    if i < entries.len() {
        Some(entries[i].1)
    } else {
        None
    }
}

/// The node of the last of the entries whose combo is `combo`.
pub open spec fn last_of<V>(entries: Seq<(Combo, KeymapNode<V>)>, combo: ComboModel) -> Option<
    KeymapNode<V>,
>
    decreases entries.len(),
{
    if entries.len() == 0 {
        None
    } else if entries.last().0.model() == combo {
        Some(entries.last().1)
    } else {
        last_of(entries.drop_last(), combo)
    }
}

/// The entries with `combo` mapped to `node`, in place of what it was
/// mapped to or behind the others.
pub open spec fn with_entry<V>(
    entries: Seq<(Combo, KeymapNode<V>)>,
    combo: Combo,
    node: KeymapNode<V>,
) -> Seq<(Combo, KeymapNode<V>)> {
    if position_of(entries, combo.model()) < entries.len() {
        entries.update(position_of(entries, combo.model()), (combo, node))
    } else {
        entries.push((combo, node))
    }
}

/// No two of the entries have the same combo.
pub open spec fn distinct_combos<V>(entries: Seq<(Combo, KeymapNode<V>)>) -> bool {
    forall|i: int, j: int|
        0 <= i < j < entries.len() ==> (#[trigger] entries[i]).0.model() != (
        #[trigger] entries[j]).0.model()
}

/// The position of a combo lies within the entries or just behind them; it
/// holds the combo, and no earlier position does.
pub proof fn lemma_position_of<V>(entries: Seq<(Combo, KeymapNode<V>)>, combo: ComboModel)
    ensures
        0 <= position_of(entries, combo) <= entries.len(),
        position_of(entries, combo) < entries.len() ==> entries[position_of(
            entries,
            combo,
        )].0.model() == combo,
        forall|i: int| 0 <= i < position_of(entries, combo) ==> entries[i].0.model() != combo,
    decreases entries.len(),
{
    if entries.len() > 0 && entries[0].0.model() != combo {
        lemma_position_of(entries.drop_first(), combo);
        assert forall|i: int| 0 <= i < position_of(entries, combo) implies entries[i].0.model()
            != combo by {
            if i > 0 {
                assert(entries[i] == entries.drop_first()[i - 1]);
            }
        }
    }
}

/// After a combo is mapped to a node, that combo leads to the node and
/// every other combo to what it led to before.
pub proof fn lemma_insert_get<V>(
    entries: Seq<(Combo, KeymapNode<V>)>,
    combo: Combo,
    node: KeymapNode<V>,
    asked: ComboModel,
)
    ensures
        first_of(with_entry(entries, combo, node), asked) == if asked == combo.model() {
            Some(node)
        } else {
            first_of(entries, asked)
        },
{
    let after = with_entry(entries, combo, node);
    lemma_position_of(entries, combo.model());
    lemma_position_of(entries, asked);
    lemma_position_of(after, asked);
    let at = position_of(entries, combo.model());
    let was = position_of(entries, asked);
    let now = position_of(after, asked);
    assert forall|i: int| 0 <= i < after.len() && i != at implies after[i] == entries[i] by {}
    assert(after[at] == (combo, node));
    if asked == combo.model() {
        if now < at {
            assert(entries[now].0.model() == asked);
        }
        if now > at {
            assert(after[at].0.model() == asked);
        }
    } else {
        if was < entries.len() {
            if now > was {
                assert(after[was].0.model() == asked);
            }
        }
        if now < after.len() {
            if was > now {
                assert(entries[now].0.model() == asked);
            }
        }
    }
}

/// With one more entry behind the others, a combo leads to what it led to
/// before, or to the new entry where it led nowhere and is its combo.
pub proof fn lemma_first_of_push<V>(
    entries: Seq<(Combo, KeymapNode<V>)>,
    entry: (Combo, KeymapNode<V>),
    asked: ComboModel,
)
    ensures
        first_of(entries.push(entry), asked) == match first_of(entries, asked) {
            Some(node) => Some(node),
            None => if entry.0.model() == asked {
                Some(entry.1)
            } else {
                None
            },
        },
{
    let after = entries.push(entry);
    lemma_position_of(entries, asked);
    lemma_position_of(after, asked);
    let was = position_of(entries, asked);
    let now = position_of(after, asked);
    if was < entries.len() {
        if now > was {
            assert(after[was].0.model() == asked);
        }
        if now < was {
            assert(entries[now].0.model() == asked);
        }
    } else {
        if now < entries.len() {
            assert(entries[now].0.model() == asked);
        }
        if entry.0.model() == asked && now > entries.len() {
            assert(after[entries.len() as int].0.model() == asked);
        }
    }
}

/// The set of modifiers with the bits of all the items.
pub open spec fn union_of(items: Seq<u8>) -> u8
    decreases items.len(),
{
    if items.len() == 0 {
        0
    } else {
        union_of(items.drop_last()) | items.last()
    }
}

/// The single modifiers of a set, in the order control, shift, alt, windows
/// key.
pub open spec fn held_modifiers(bits: u8) -> Seq<u8> {
    let ctrl = if bits & 1 == 1 {
        seq![1u8]
    } else {
        Seq::empty()
    };
    let shift = if bits & 2 == 2 {
        ctrl.push(2u8)
    } else {
        ctrl
    };
    let alt = if bits & 4 == 4 {
        shift.push(4u8)
    } else {
        shift
    };
    if bits & 8 == 8 {
        alt.push(8u8)
    } else {
        alt
    }
}

/// Whether an input types a character: no modifier but shift is held, and
/// the key is a key string.
pub open spec fn is_printable(input: KeyInput) -> bool {
    (input.modifiers.spec_bits() == 0 || input.modifiers.spec_bits() == 2) && is_key_string(
        input.key.0@,
    )
}

/// Whether an input types a character.
pub fn input_is_printable(input: &KeyInput) -> (b: bool)
    ensures
        b == is_printable(*input),
{
    (input.modifiers.is_empty() || input.modifiers.bits() == 2) && input.key.is_key_string()
}

/// The single modifiers of a set, in the order control, shift, alt, windows
/// key.
fn modifiers_held(modifiers: Modifiers) -> (held: Vec<u8>)
    ensures
        held@ == held_modifiers(modifiers.spec_bits()),
{
    let bits: u8 = modifiers.bits();
    let mut held: Vec<u8> = Vec::new();
    if bits & 1 == 1 {
        held.push(1);
    }
    if bits & 2 == 2 {
        held.push(2);
    }
    if bits & 4 == 4 {
        held.push(4);
    }
    if bits & 8 == 8 {
        held.push(8);
    }
    assert(held@ =~= held_modifiers(bits));
    held
}

/// The set of modifiers with the bits of all the items.
fn union_bits(items: &Vec<u8>) -> (bits: u8)
    ensures
        bits == union_of(items@),
{
    let mut bits: u8 = 0;
    let mut i: usize = 0;
    assert(items@.take(0) =~= Seq::<u8>::empty());
    while i < items.len()
        invariant
            i <= items@.len(),
            bits == union_of(items@.take(i as int)),
        decreases items.len() - i,
    {
        assert(items@.take(i + 1).drop_last() =~= items@.take(i as int));
        bits = bits | items[i];
        i += 1;
    }
    assert(items@.take(i as int) =~= items@);
    bits
}

/// The entry is one of the entries of a keymap.
pub open spec fn from_self<V>(entries: Seq<(Combo, KeymapNode<V>)>, entry: (Combo, KeymapNode<V>)) -> bool {
    exists|j: int| 0 <= j < entries.len() && entries[j] == entry
}

/// One of the first `done` entries has the combo `combo`.
pub open spec fn processed<V>(entries: Seq<(Combo, KeymapNode<V>)>, done: int, combo: ComboModel) -> bool {
    exists|k: int| 0 <= k < done && (#[trigger] entries[k]).0.model() == combo
}

/// `merged` is what merging a node `mine` with a node `other` gives:
/// `other` where one of the two is a leaf, and the merged submaps under the
/// description of `other` where both are submaps.
pub open spec fn node_merges<V>(mine: KeymapNode<V>, other: KeymapNode<V>, merged: KeymapNode<V>) -> bool
    decreases merged,
{
    match (mine, other) {
        (KeymapNode::Submap(_, mine), KeymapNode::Submap(description, other)) => {
            &&& merged matches KeymapNode::Submap(merged_description, submap)
                && merged_description@ == description@ && submap.fallback() == (if other.fallback()
                is Some {
                other.fallback()
            } else {
                mine.fallback()
            }) && entries_merge(mine.entries(), other.entries(), submap.entries())
        },
        _ => merged == other,
    }
}

/// `merged` are the entries that merging the entries `mine` with the
/// entries `other` gives: every combo leads to the node of the keymap that
/// maps it where only one does, and to the merged node where both do.
pub open spec fn entries_merge<V>(
    mine: Seq<(Combo, KeymapNode<V>)>,
    other: Seq<(Combo, KeymapNode<V>)>,
    merged: Seq<(Combo, KeymapNode<V>)>,
) -> bool
    decreases merged,
{
    &&& forall|combo: ComboModel|
        merges_at(first_of(mine, combo), first_of(other, combo), #[trigger] first_of(merged, combo))
    &&& forall|i: int|
        0 <= i < merged.len() ==> match (
            first_of(mine, (#[trigger] merged[i]).0.model()),
            first_of(other, merged[i].0.model()),
        ) {
            (Some(mine), Some(other)) => node_merges(mine, other, merged[i].1),
            _ => true,
        }
}

/// What merging gives for one combo: nothing where no keymap maps it, and
/// the node of the keymap that maps it where only one does. Where both do,
/// it leads to a node.
pub open spec fn merges_at<V>(
    mine: Option<KeymapNode<V>>,
    other: Option<KeymapNode<V>>,
    merged: Option<KeymapNode<V>>,
) -> bool {
    match (mine, other) {
        (None, None) => merged.is_none(),
        (Some(mine), None) => merged == Some(mine),
        (None, Some(other)) => merged == Some(other),
        (Some(mine), Some(other)) => merged is Some,
    }
}

/// `mapped` is what mapping a function over the leaves of a node gives: a
/// leaf of what the function makes of the value for a leaf, and the mapped
/// submap for a submap, under the same description.
pub open spec fn node_maps<V, O, F: Fn(V) -> O>(node: KeymapNode<V>, f: &F, mapped: KeymapNode<O>) -> bool
    decreases node,
{
    &&& mapped.spec_description() == node.spec_description()
    &&& match node {
        KeymapNode::Leaf(_, value) => mapped matches KeymapNode::Leaf(_, out) && f.ensures(
            (value,),
            out,
        ),
        KeymapNode::Submap(_, submap) => mapped matches KeymapNode::Submap(_, mapped_submap)
            && entries_map(submap.entries(), f, mapped_submap.entries()) && fallback_maps(
            submap.fallback(),
            f,
            mapped_submap.fallback(),
        ),
    }
}

/// `mapped` are the entries that mapping a function over the leaves of
/// entries gives: the same combos in the same order, each with its mapped
/// node.
pub open spec fn entries_map<V, O, F: Fn(V) -> O>(
    entries: Seq<(Combo, KeymapNode<V>)>,
    f: &F,
    mapped: Seq<(Combo, KeymapNode<O>)>,
) -> bool
    decreases entries,
{
    &&& mapped.len() == entries.len()
    &&& forall|i: int|
        0 <= i < entries.len() ==> (#[trigger] mapped[i]).0.model() == entries[i].0.model()
            && node_maps(entries[i].1, f, mapped[i].1)
}

/// `mapped` is what mapping a function over the leaves of the node for
/// printable characters gives, where there is one.
pub open spec fn fallback_maps<V, O, F: Fn(V) -> O>(
    fallback: Option<KeymapNode<V>>,
    f: &F,
    mapped: Option<KeymapNode<O>>,
) -> bool
    decreases fallback,
{
    match fallback {
        Some(node) => mapped is Some && node_maps(node, f, mapped->0),
        None => mapped.is_none(),
    }
}

impl<V> KeymapNode<V> {
    /// The description of the node.
    pub open spec fn spec_description(&self) -> Seq<char> {
        match self {
            KeymapNode::Submap(description, _) => description@,
            KeymapNode::Leaf(description, _) => description@,
        }
    }

    pub fn description(&self) -> (description: &str)
        ensures
            description@ == self.spec_description(),
    {
        match self {
            KeymapNode::Submap(x, _) => x.as_str(),
            KeymapNode::Leaf(x, _) => x.as_str(),
        }
    }

    /// Recursively map a function over the leaves of this node.
    pub fn map<O, F: Fn(V) -> O>(self, f: &F) -> (mapped: KeymapNode<O>)
        requires
            forall|value: V| f.requires((value,)),
        ensures
            node_maps(self, f, mapped),
            (self matches KeymapNode::Submap(_, submap) ==> submap.wf()) ==> (
            mapped matches KeymapNode::Submap(_, submap) ==> submap.wf()),
        decreases self,
    {
        match self {
            KeymapNode::Submap(d, submap) => KeymapNode::Submap(d, Box::new((*submap).map(f))),
            KeymapNode::Leaf(d, v) => KeymapNode::Leaf(d, f(v)),
        }
    }

    /// Merge two keymap nodes together recursively. If one of them is a
    /// leaf, `other` takes precedence; two submaps are merged under the
    /// description of `other`.
    pub fn merge(self, other: KeymapNode<V>) -> (merged: Self)
        requires
            self matches KeymapNode::Submap(_, mine) ==> mine.wf(),
            other matches KeymapNode::Submap(_, theirs) ==> theirs.wf(),
        ensures
            node_merges(self, other, merged),
            merged matches KeymapNode::Submap(_, submap) ==> submap.wf(),
        decreases self,
    {
        match (self, other) {
            (KeymapNode::Submap(_, m1), KeymapNode::Submap(d2, m2)) => {
                KeymapNode::Submap(d2, Box::new((*m1).merge(*m2)))
            },
            (_, x) => x,
        }
    }
}

impl<V> Keymap<V> {
    /// The mappings of the keymap, in the order in which they were made.
    pub closed spec fn entries(&self) -> Seq<(Combo, KeymapNode<V>)> {
        self.map@
    }

    /// The node for printable characters that are not mapped.
    pub closed spec fn fallback(&self) -> Option<KeymapNode<V>> {
        self.on_any_printable
    }

    /// The node that a combo is mapped to.
    pub open spec fn get(&self, combo: ComboModel) -> Option<KeymapNode<V>> {
        first_of(self.entries(), combo)
    }

    /// No two mappings have the same combo, here and in the submaps that
    /// combos are mapped to.
    pub open spec fn wf(&self) -> bool
        decreases self,
    {
        &&& distinct_combos(self.entries())
        &&& forall|i: int|
            0 <= i < self.entries().len() ==> (
            #[trigger] self.entries()[i].1 matches KeymapNode::Submap(_, submap) ==> submap.wf())
    }

    /// The first of the subsets whose modifiers, with the key attribute
    /// value of the input, make a combo that is mapped, leads to a node.
    pub open spec fn str_node(&self, input: KeyInput, subsets: Seq<Seq<u8>>) -> Option<KeymapNode<V>>
        decreases subsets.len(),
    {
        if subsets.len() == 0 {
            None
        } else {
            match self.get(
                ComboModel {
                    raw: false,
                    name: input.key.0@,
                    modifiers: union_of(subsets[0]) & 15,
                },
            ) {
                Some(node) => Some(node),
                None => self.str_node(input, subsets.drop_first()),
            }
        }
    }

    /// The node that an input leads to: that of its raw key code with
    /// exactly its modifiers; else that of its key attribute value with
    /// some of its modifiers, fewer modifiers first; else the node for
    /// printable characters, where the input is one.
    pub open spec fn input_node(&self, input: KeyInput) -> Option<KeymapNode<V>> {
        match self.get(
            ComboModel {
                raw: true,
                name: input.code.0@,
                modifiers: input.modifiers.spec_bits(),
            },
        ) {
            Some(node) => Some(node),
            None => match self.str_node(
                input,
                powerset(held_modifiers(input.modifiers.spec_bits())),
            ) {
                Some(node) => Some(node),
                None => if is_printable(input) {
                    self.fallback()
                } else {
                    None
                },
            },
        }
    }

    /// The node that a chain of inputs leads to: each input but the last
    /// leads into a submap, or the chain ends early at a leaf.
    pub open spec fn path_node(&self, inputs: Seq<KeyInput>) -> Option<KeymapNode<V>>
        decreases inputs.len(),
    {
        if inputs.len() == 0 {
            None
        } else {
            match self.input_node(inputs[0]) {
                None => None,
                Some(KeymapNode::Submap(description, submap)) => if inputs.len() == 1 {
                    Some(KeymapNode::Submap(description, submap))
                } else {
                    submap.path_node(inputs.drop_first())
                },
                Some(leaf) => Some(leaf),
            }
        }
    }

    /// The position of the mapping of a combo, if there is one.
    fn find(&self, combo: &Combo) -> (found: Option<usize>)
        ensures
            match found {
                Some(i) => i == position_of(self.entries(), combo.model()) && i
                    < self.entries().len(),
                None => position_of(self.entries(), combo.model()) == self.entries().len(),
            },
    {
        let mut i: usize = 0;
        proof {
            lemma_position_of(self.entries(), combo.model());
        }
        while i < self.map.len()
            invariant
                i <= self.map@.len(),
                forall|k: int| 0 <= k < i ==> self.map@[k].0.model() != combo.model(),
                0 <= position_of(self.map@, combo.model()) <= self.map@.len(),
                position_of(self.map@, combo.model()) < self.map@.len() ==> self.map@[position_of(
                    self.map@,
                    combo.model(),
                )].0.model() == combo.model(),
                forall|k: int|
                    0 <= k < position_of(self.map@, combo.model()) ==> self.map@[k].0.model()
                        != combo.model(),
            decreases self.map.len() - i,
        {
            if self.map[i].0.same(combo) {
                return Some(i);
            }
            i += 1;
        }
        None
    }

    /// The node that a combo is mapped to, if it is mapped.
    pub fn lookup(&self, combo: &Combo) -> (node: Option<&KeymapNode<V>>)
        ensures
            match node {
                Some(node) => self.get(combo.model()) == Some(*node),
                None => self.get(combo.model()).is_none(),
            },
    {
        match self.find(combo) {
            Some(i) => Some(&self.map[i].1),
            None => None,
        }
    }

    /// Map a combo to a node. A mapping that the combo had is replaced.
    pub fn insert(&mut self, combo: Combo, node: KeymapNode<V>)
        requires
            old(self).wf(),
            node matches KeymapNode::Submap(_, submap) ==> submap.wf(),
        ensures
            final(self).wf(),
            final(self).fallback() == old(self).fallback(),
            final(self).entries() == with_entry(old(self).entries(), combo, node),
    {
        proof {
            lemma_position_of(self.entries(), combo.model());
        }
        match self.find(&combo) {
            Some(i) => {
                self.map.set(i, (combo, node));
            },
            None => {
                self.map.push((combo, node));
            },
        }
    }

    /// The keymap of the given mappings, with a node for printable
    /// characters that are not mapped. Where two mappings have the same
    /// combo, the later one counts.
    pub fn new(map: Vec<(Combo, KeymapNode<V>)>, on_any_printable: Option<KeymapNode<V>>) -> (keymap:
        Self)
        requires
            forall|i: int|
                0 <= i < map@.len() ==> (#[trigger] map@[i].1 matches KeymapNode::Submap(
                    _,
                    submap,
                ) ==> submap.wf()),
        ensures
            keymap.wf(),
            keymap.fallback() == on_any_printable,
            forall|combo: ComboModel| #[trigger] keymap.get(combo) == last_of(map@, combo),
    {
        let mut keymap = Keymap { map: Vec::new(), on_any_printable };
        let mut rest = map;
        let ghost mut done: int = 0;
        assert(map@.take(0) =~= Seq::<(Combo, KeymapNode<V>)>::empty());
        while rest.len() > 0
            invariant
                keymap.wf(),
                keymap.on_any_printable == on_any_printable,
                0 <= done <= map@.len(),
                rest@ == map@.subrange(done, map@.len() as int),
                forall|i: int|
                    0 <= i < map@.len() ==> (#[trigger] map@[i].1 matches KeymapNode::Submap(
                        _,
                        submap,
                    ) ==> submap.wf()),
                forall|combo: ComboModel| #[trigger]
                    keymap.get(combo) == last_of(map@.take(done), combo),
            decreases rest.len(),
        {
            let entry = rest.remove(0);
            let ghost before = keymap;
            proof {
                assert(entry == map@[done]);
                assert(rest@ =~= map@.subrange(done + 1, map@.len() as int));
                assert(map@.take(done + 1).drop_last() =~= map@.take(done));
            }
            keymap.insert(entry.0, entry.1);
            proof {
                assert forall|combo: ComboModel| #[trigger]
                    keymap.get(combo) == last_of(map@.take(done + 1), combo) by {
                    lemma_insert_get(before.entries(), entry.0, entry.1, combo);
                    assert(before.get(combo) == last_of(map@.take(done), combo));
                    assert(map@.take(done + 1).last() == entry);
                }
                done = done + 1;
            }
        }
        assert(map@.take(done) =~= map@);
        keymap
    }

    /// The keymap of the given mappings, without a node for printable
    /// characters.
    pub fn new_from_map(map: Vec<(Combo, KeymapNode<V>)>) -> (keymap: Self)
        requires
            forall|i: int|
                0 <= i < map@.len() ==> (#[trigger] map@[i].1 matches KeymapNode::Submap(
                    _,
                    submap,
                ) ==> submap.wf()),
        ensures
            keymap.wf(),
            keymap.fallback().is_none(),
            forall|combo: ComboModel| #[trigger] keymap.get(combo) == last_of(map@, combo),
    {
        Self::new(map, None)
    }

    /// The combos of the keymap with the descriptions of their nodes.
    pub fn descriptions(&self) -> (descriptions: Vec<(&Combo, &str)>)
        ensures
            descriptions@.len() == self.entries().len(),
            forall|i: int|
                0 <= i < descriptions@.len() ==> *(#[trigger] descriptions@[i]).0
                    == self.entries()[i].0 && descriptions@[i].1@
                    == self.entries()[i].1.spec_description(),
    {
        let mut descriptions: Vec<(&Combo, &str)> = Vec::new();
        let mut i: usize = 0;
        while i < self.map.len()
            invariant
                i <= self.map@.len(),
                descriptions@.len() == i,
                forall|k: int|
                    0 <= k < i ==> *(#[trigger] descriptions@[k]).0 == self.map@[k].0
                        && descriptions@[k].1@ == self.map@[k].1.spec_description(),
            decreases self.map.len() - i,
        {
            descriptions.push((&self.map[i].0, self.map[i].1.description()));
            i += 1;
        }
        descriptions
    }

    /// Get the node corresponding to the given input, if there is one.
    pub fn node_at_input(&self, input: &KeyInput) -> (node: Option<&KeymapNode<V>>)
        ensures
            match node {
                Some(node) => self.input_node(*input) == Some(*node),
                None => self.input_node(*input).is_none(),
            },
    {
        let raw = Combo::raw_of(input, input.modifiers);
        if let Some(node) = self.lookup(&raw) {
            return Some(node);
        }
        // Combos by key attribute value may name some of the held
        // modifiers only, so every subset of them is tried.
        let subsets = powerset_of(modifiers_held(input.modifiers));
        let ghost all = powerset(held_modifiers(input.modifiers.spec_bits()));
        let mut i: usize = 0;
        assert(all.subrange(0, all.len() as int) =~= all);
        while i < subsets.len()
            invariant
                i <= subsets@.len(),
                all == powerset(held_modifiers(input.modifiers.spec_bits())),
                self.get(raw.model()).is_none(),
                raw.model() == (ComboModel {
                    raw: true,
                    name: input.code.0@,
                    modifiers: input.modifiers.spec_bits(),
                }),
                subsets@.len() == all.len(),
                forall|k: int| 0 <= k < subsets@.len() ==> (#[trigger] subsets@[k])@ == all[k],
                self.str_node(*input, all.subrange(i as int, all.len() as int)) == self.str_node(
                    *input,
                    all,
                ),
            decreases subsets.len() - i,
        {
            let combo = Combo::str_of(input, Modifiers::from_bits_truncate(union_bits(&subsets[i])));
            let found = self.lookup(&combo);
            proof {
                let rest = all.subrange(i as int, all.len() as int);
                assert(rest[0] == all[i as int]);
                assert(rest[0] == subsets@[i as int]@);
                assert(rest.drop_first() =~= all.subrange(i + 1, all.len() as int));
                assert(combo.model() == (ComboModel {
                    raw: false,
                    name: input.key.0@,
                    modifiers: union_of(rest[0]) & 15,
                }));
                assert(self.str_node(*input, rest) == match self.get(combo.model()) {
                    Some(node) => Some(node),
                    None => self.str_node(*input, rest.drop_first()),
                });
            }
            if let Some(node) = found {
                return Some(node);
            }
            i += 1;
        }
        assert(all.subrange(i as int, all.len() as int) =~= Seq::<Seq<u8>>::empty());
        if input_is_printable(input) {
            self.on_any_printable.as_ref()
        } else {
            None
        }
    }

    /// Get the node corresponding to the given chain of inputs, if there is
    /// one.
    pub fn node_at_path(&self, inputs: &[KeyInput]) -> (node: Option<&KeymapNode<V>>)
        ensures
            match node {
                Some(node) => self.path_node(inputs@) == Some(*node),
                None => self.path_node(inputs@).is_none(),
            },
    {
        assert(inputs@.subrange(0, inputs@.len() as int) =~= inputs@);
        self.node_at_path_from(inputs, 0)
    }

    /// The node that the inputs from position `from` on lead to.
    fn node_at_path_from(&self, inputs: &[KeyInput], from: usize) -> (node: Option<&KeymapNode<V>>)
        requires
            from <= inputs@.len(),
        ensures
            match node {
                Some(node) => self.path_node(inputs@.subrange(from as int, inputs@.len() as int))
                    == Some(*node),
                None => self.path_node(
                    inputs@.subrange(from as int, inputs@.len() as int),
                ).is_none(),
            },
        decreases inputs@.len() - from,
    {
        if from >= inputs.len() {
            return None;
        }
        let ghost rest = inputs@.subrange(from as int, inputs@.len() as int);
        proof {
            assert(rest[0] == inputs@[from as int]);
            assert(rest.drop_first() =~= inputs@.subrange(from + 1, inputs@.len() as int));
        }
        match self.node_at_input(&inputs[from]) {
            None => None,
            Some(node) => match node {
                KeymapNode::Submap(_, submap) => {
                    if from + 1 == inputs.len() {
                        Some(node)
                    } else {
                        submap.node_at_path_from(inputs, from + 1)
                    }
                },
                KeymapNode::Leaf(_, _) => Some(node),
            },
        }
    }

    /// Recursively map a function over the leaves of this keymap. Combos
    /// and descriptions stay.
    pub fn map<O, F: Fn(V) -> O>(self, f: &F) -> (mapped: Keymap<O>)
        requires
            forall|value: V| f.requires((value,)),
        ensures
            entries_map(self.entries(), f, mapped.entries()),
            fallback_maps(self.fallback(), f, mapped.fallback()),
            self.wf() ==> mapped.wf(),
        decreases self,
    {
        let Keymap { map, on_any_printable } = self;
        let mut rest = map;
        let mut mapped: Vec<(Combo, KeymapNode<O>)> = Vec::new();
        let ghost mut done: int = 0;
        while rest.len() > 0
            invariant
                forall|value: V| f.requires((value,)),
                0 <= done <= self.map@.len(),
                rest@ == self.map@.subrange(done, self.map@.len() as int),
                mapped@.len() == done,
                forall|i: int|
                    0 <= i < done ==> (#[trigger] mapped@[i]).0.model() == self.map@[i].0.model()
                        && node_maps(self.map@[i].1, f, mapped@[i].1),
                self.wf() ==> forall|i: int|
                    0 <= i < done ==> (#[trigger] mapped@[i].1 matches KeymapNode::Submap(
                        _,
                        submap,
                    ) ==> submap.wf()),
            decreases rest.len(),
        {
            let entry = rest.remove(0);
            proof {
                assert(entry == self.map@[done]);
                assert(rest@ =~= self.map@.subrange(done + 1, self.map@.len() as int));
            }
            let node = entry.1.map(f);
            mapped.push((entry.0, node));
            proof {
                done = done + 1;
            }
        }
        let on_any_printable = match on_any_printable {
            Some(node) => Some(node.map(f)),
            None => None,
        };
        let mapped = Keymap { map: mapped, on_any_printable };
        proof {
            if self.wf() {
                assert forall|i: int, j: int| 0 <= i < j < mapped.map@.len() implies (
                #[trigger] mapped.map@[i]).0.model() != (#[trigger] mapped.map@[j]).0.model() by {
                    assert(self.map@[i].0.model() != self.map@[j].0.model());
                }
            }
        }
        mapped
    }

    /// Merge two keymaps together recursively. If there are colliding
    /// mappings, `other` takes precedence; colliding submaps are merged.
    /// The node for printable characters is that of `other`, if it has one.
    pub fn merge(self, other: Keymap<V>) -> (merged: Self)
        requires
            self.wf(),
            other.wf(),
        ensures
            merged.wf(),
            merged.fallback() == if other.fallback().is_some() {
                other.fallback()
            } else {
                self.fallback()
            },
            entries_merge(self.entries(), other.entries(), merged.entries()),
        decreases self,
    {
        let Keymap { map, on_any_printable } = other;
        let mut merged = self;
        let mut rest = map;
        let ghost mut done: int = 0;
        assert(other.map@.take(0) =~= Seq::<(Combo, KeymapNode<V>)>::empty());
        while rest.len() > 0
            invariant
                merged.wf(),
                other.wf(),
                merged.on_any_printable == self.on_any_printable,
                0 <= done <= other.map@.len(),
                rest@ == other.map@.subrange(done, other.map@.len() as int),
                entries_merge(self.map@, other.map@.take(done), merged.map@),
                forall|i: int|
                    0 <= i < merged.map@.len() ==> from_self(self.map@, #[trigger] merged.map@[i])
                        || processed(other.map@, done, merged.map@[i].0.model()),
            decreases rest.len(),
        {
            let entry = rest.remove(0);
            let ghost before = merged;
            let ghost key = entry.0.model();
            proof {
                assert(entry == other.map@[done]);
                assert(rest@ =~= other.map@.subrange(done + 1, other.map@.len() as int));
                assert(other.map@.take(done + 1) =~= other.map@.take(done).push(entry));
                lemma_position_of(merged.map@, key);
                lemma_position_of(other.map@.take(done), key);
                assert(!processed(other.map@, done, key)) by {
                    if processed(other.map@, done, key) {
                        let k = choose|k: int|
                            0 <= k < done && (#[trigger] other.map@[k]).0.model() == key;
                        assert(other.map@[k].0.model() != other.map@[done].0.model());
                    }
                }
                assert(first_of(other.map@.take(done), key).is_none()) by {
                    let at = position_of(other.map@.take(done), key);
                    if at < done {
                        assert(other.map@.take(done)[at] == other.map@[at]);
                        assert(processed(other.map@, done, key));
                    }
                }
            }
            let ghost node: KeymapNode<V>;
            match merged.find(&entry.0) {
                Some(i) => {
                    proof {
                        let j = choose|j: int|
                            0 <= j < self.map@.len() && self.map@[j] == merged.map@[i as int];
                        assert(decreases_to!(self => self.map));
                        assert(decreases_to!(self.map => self.map@));
                        assert(decreases_to!(self.map@ => self.map@[j]));
                        assert(decreases_to!(self.map@[j] => self.map@[j].1));
                    }
                    let mine = merged.map.remove(i);
                    let merged_node = mine.1.merge(entry.1);
                    proof {
                        node = merged_node;
                    }
                    merged.map.insert(i, (entry.0, merged_node));
                    proof {
                        assert(merged.map@ =~= before.map@.update(i as int, (entry.0, node)));
                    }
                },
                None => {
                    proof {
                        node = entry.1;
                    }
                    merged.map.push(entry);
                },
            }
            proof {
                assert(merged.map@ == with_entry(before.map@, entry.0, node));
                let others = other.map@.take(done + 1);
                assert forall|combo: ComboModel|
                    merges_at(
                        first_of(self.map@, combo),
                        first_of(others, combo),
                        #[trigger] first_of(merged.map@, combo),
                    ) by {
                    lemma_insert_get(before.map@, entry.0, node, combo);
                    lemma_first_of_push(other.map@.take(done), entry, combo);
                    assert(merges_at(
                        first_of(self.map@, combo),
                        first_of(other.map@.take(done), combo),
                        first_of(before.map@, combo),
                    ));
                }
                assert forall|i: int| 0 <= i < merged.map@.len() implies match (
                    first_of(self.map@, (#[trigger] merged.map@[i]).0.model()),
                    first_of(others, merged.map@[i].0.model()),
                ) {
                    (Some(mine), Some(other)) => node_merges(mine, other, merged.map@[i].1),
                    _ => true,
                } by {
                    let asked = merged.map@[i].0.model();
                    lemma_insert_get(before.map@, entry.0, node, asked);
                    lemma_first_of_push(other.map@.take(done), entry, asked);
                    lemma_position_of(before.map@, key);
                    if asked == key {
                        assert(merges_at(
                            first_of(self.map@, key),
                            first_of(other.map@.take(done), key),
                            first_of(before.map@, key),
                        ));
                        if i != position_of(before.map@, key) {
                            if position_of(before.map@, key) < before.map@.len() {
                                assert(merged.map@[position_of(before.map@, key)].0.model()
                                    == merged.map@[i].0.model());
                            } else {
                                assert(i == merged.map@.len() - 1);
                            }
                        }
                    } else {
                        assert(merged.map@[i] == before.map@[i]);
                    }
                }
                assert forall|i: int| 0 <= i < merged.map@.len() implies from_self(
                    self.map@,
                    #[trigger] merged.map@[i],
                ) || processed(other.map@, done + 1, merged.map@[i].0.model()) by {
                    if merged.map@[i].0.model() == key {
                        assert(other.map@[done].0.model() == key);
                    } else {
                        assert(merged.map@[i] == before.map@[i]);
                        if processed(other.map@, done, before.map@[i].0.model()) {
                            let k = choose|k: int|
                                0 <= k < done && (#[trigger] other.map@[k]).0.model()
                                    == before.map@[i].0.model();
                            assert(other.map@[k].0.model() == merged.map@[i].0.model());
                        }
                    }
                }
                done = done + 1;
            }
        }
        let ghost settled = merged;
        if on_any_printable.is_some() {
            merged.on_any_printable = on_any_printable;
        }
        proof {
            assert(other.map@.take(done) =~= other.map@);
            assert(merged.map@ == settled.map@);
        }
        merged
    }
}

} // verus!
