//! The input mapper maps input events to the values of keymaps. It manages
//! which keymaps are active and detects chains of inputs.
//!
//! It does not include any key interpretation of its own: concrete keymaps
//! rely on this component for their input logic and manage their state
//! themselves.

use crate::input_event::KeyInput;
use crate::keymap::Keymap;
use crate::keymap::KeymapNode;
use nonempty::NonEmpty;
use vstd::prelude::*;

verus! {

/// Id of a keymap: its name.
#[derive(Debug, PartialEq, Eq, Clone, Hash)]
pub struct KeymapId(pub String);

/// Why a keymap could not be activated.
#[derive(Debug)]
pub enum MapperError {
    /// No keymap with that id is registered.
    KeymapNotRegistered(KeymapId),
    /// The keymap was already at the top of the stack.
    KeymapAlreadyAtTop,
}

/// The names of the ids of a non-empty list, in order.
pub uninterp spec fn nonempty_names(list: NonEmpty<KeymapId>) -> Seq<Seq<char>>;

/// `NonEmpty::new` of the nonempty crate: the list of one item.
#[verifier::external_body]
fn stack_new(id: KeymapId) -> (stack: NonEmpty<KeymapId>)
    ensures
        nonempty_names(stack) == seq![id.0@],
{
    NonEmpty::new(id)
}

/// `NonEmpty::len` of the nonempty crate: the number of items, at least 1.
#[verifier::external_body]
fn stack_len(stack: &NonEmpty<KeymapId>) -> (len: usize)
    ensures
        len == nonempty_names(*stack).len(),
        len >= 1,
{
    stack.len()
}

/// `NonEmpty::get` of the nonempty crate, for an index within the list: the
/// item at that index.
#[verifier::external_body]
fn stack_get(stack: &NonEmpty<KeymapId>, index: usize) -> (id: &KeymapId)
    requires
        index < nonempty_names(*stack).len(),
    ensures
        id.0@ == nonempty_names(*stack)[index as int],
{
    stack.get(index).unwrap()
}

/// `NonEmpty::push` of the nonempty crate: one more item behind the others.
#[verifier::external_body]
fn stack_push(stack: &mut NonEmpty<KeymapId>, id: KeymapId)
    ensures
        nonempty_names(*final(stack)) == nonempty_names(*old(stack)).push(id.0@),
{
    stack.push(id)
}

/// `Vec::remove` of std on the tail of a non-empty list, which holds all
/// items but the first: the list without the item at `index` of its tail.
#[verifier::external_body]
fn stack_tail_remove(stack: &mut NonEmpty<KeymapId>, index: usize)
    requires
        index + 1 < nonempty_names(*old(stack)).len(),
    ensures
        nonempty_names(*final(stack)) == nonempty_names(*old(stack)).remove(index + 1),
{
    stack.tail.remove(index);
}

/// The position of the first of the keymaps with the name `name`, or the
/// number of keymaps where there is none.
pub open spec fn registered_at<V>(keymaps: Seq<(KeymapId, Keymap<V>)>, name: Seq<char>) -> int
    decreases keymaps.len(),
{
    if keymaps.len() == 0 {
        0
    } else if keymaps[0].0.0@ == name {
        0
    } else {
        1 + registered_at(keymaps.drop_first(), name)
    }
}

/// The position of a name lies within the keymaps or just behind them; it
/// holds the name, and no earlier position does.
pub proof fn lemma_registered_at<V>(keymaps: Seq<(KeymapId, Keymap<V>)>, name: Seq<char>)
    ensures
        0 <= registered_at(keymaps, name) <= keymaps.len(),
        registered_at(keymaps, name) < keymaps.len() ==> keymaps[registered_at(
            keymaps,
            name,
        )].0.0@ == name,
        forall|i: int| 0 <= i < registered_at(keymaps, name) ==> keymaps[i].0.0@ != name,
    decreases keymaps.len(),
{
    if keymaps.len() > 0 && keymaps[0].0.0@ != name {
        lemma_registered_at(keymaps.drop_first(), name);
        assert forall|i: int| 0 <= i < registered_at(keymaps, name) implies keymaps[i].0.0@
            != name by {
            if i > 0 {
                assert(keymaps[i] == keymaps.drop_first()[i - 1]);
            }
        }
    }
}

/// The position of the top-most of the names behind the first that is
/// `name`, or 0 where there is none.
pub open spec fn topmost(names: Seq<Seq<char>>, name: Seq<char>) -> int
    decreases names.len(),
{
    if names.len() <= 1 {
        0
    } else if names.last() == name {
        names.len() - 1
    } else {
        topmost(names.drop_last(), name)
    }
}

/// The input mapper.
///
/// Keymaps have to be explicitly registered by id first, and can then be
/// activated later. When a key input is received, the keymap at the top of
/// the stack of active keymaps is asked.
pub struct InputMapper<V> {
    /// All registered keymaps. No two have the same id.
    keymaps: Vec<(KeymapId, Keymap<V>)>,
    /// The stack of currently active keymaps. Newly activated maps get
    /// pushed to the top. Every id in it is that of a registered keymap.
    stack: NonEmpty<KeymapId>,
    /// Input currently buffered. When the last pressed key mapped to some
    /// submap, that key is buffered, such that further lookups can be done
    /// when the next input is received.
    buffered_inputs: Vec<KeyInput>,
}

impl<V> InputMapper<V> {
    /// The registered keymaps with their ids.
    pub closed spec fn registered(&self) -> Seq<(KeymapId, Keymap<V>)> {
        self.keymaps@
    }

    /// The names of the active keymaps, the base keymap first and the top
    /// of the stack last.
    pub closed spec fn active(&self) -> Seq<Seq<char>> {
        nonempty_names(self.stack)
    }

    /// The inputs of a chain that has not ended.
    pub closed spec fn buffered(&self) -> Seq<KeyInput> {
        self.buffered_inputs@
    }

    /// A keymap with that name is registered.
    pub open spec fn is_registered(&self, name: Seq<char>) -> bool {
        registered_at(self.registered(), name) < self.registered().len()
    }

    /// The keymap at the top of the stack.
    pub open spec fn top(&self) -> Keymap<V> {
        self.registered()[registered_at(self.registered(), self.active().last())].1
    }

    /// There is an active keymap, and every active keymap is registered.
    pub open spec fn wf(&self) -> bool {
        &&& self.active().len() >= 1
        &&& forall|i: int| 0 <= i < self.active().len() ==> self.is_registered(self.active()[i])
    }

    /// The position of the keymap with the given id, if it is registered.
    fn find(&self, id: &KeymapId) -> (found: Option<usize>)
        ensures
            match found {
                Some(i) => i == registered_at(self.registered(), id.0@) && i
                    < self.registered().len(),
                None => registered_at(self.registered(), id.0@) == self.registered().len(),
            },
    {
        proof {
            lemma_registered_at(self.keymaps@, id.0@);
        }
        let mut i: usize = 0;
        while i < self.keymaps.len()
            invariant
                i <= self.keymaps@.len(),
                forall|k: int| 0 <= k < i ==> self.keymaps@[k].0.0@ != id.0@,
                0 <= registered_at(self.keymaps@, id.0@) <= self.keymaps@.len(),
                registered_at(self.keymaps@, id.0@) < self.keymaps@.len()
                    ==> self.keymaps@[registered_at(self.keymaps@, id.0@)].0.0@ == id.0@,
                forall|k: int|
                    0 <= k < registered_at(self.keymaps@, id.0@) ==> self.keymaps@[k].0.0@
                        != id.0@,
            decreases self.keymaps.len() - i,
        {
            if self.keymaps[i].0.0 == id.0 {
                return Some(i);
            }
            i += 1;
        }
        None
    }

    /// A mapper with one registered keymap, which is active.
    pub fn from_base_keymap(keymap_id: KeymapId, keymap: Keymap<V>) -> (mapper: Self)
        ensures
            mapper.wf(),
            mapper.active() == seq![keymap_id.0@],
            mapper.registered().len() == 1,
            mapper.registered()[0].0.0@ == keymap_id.0@,
            mapper.registered()[0].1 == keymap,
            mapper.buffered().len() == 0,
    {
        let name = KeymapId(keymap_id.0.clone());
        let mut keymaps: Vec<(KeymapId, Keymap<V>)> = Vec::new();
        keymaps.push((name, keymap));
        let mapper = Self { keymaps, stack: stack_new(keymap_id), buffered_inputs: Vec::new() };
        proof {
            lemma_registered_at(mapper.keymaps@, keymap_id.0@);
            assert(mapper.active()[0] == keymap_id.0@);
        }
        mapper
    }

    /// Register a keymap under an id. A keymap that was registered under it
    /// is replaced.
    pub fn register_keymap(&mut self, keymap_id: KeymapId, keymap: Keymap<V>)
        requires
            old(self).wf(),
        ensures
            final(self).wf(),
            final(self).active() == old(self).active(),
            final(self).buffered() == old(self).buffered(),
            final(self).registered() == if old(self).is_registered(keymap_id.0@) {
                old(self).registered().update(
                    registered_at(old(self).registered(), keymap_id.0@),
                    (keymap_id, keymap),
                )
            } else {
                old(self).registered().push((keymap_id, keymap))
            },
    {
        let ghost name = keymap_id.0@;
        let ghost before = self.keymaps@;
        match self.find(&keymap_id) {
            Some(i) => {
                self.keymaps.set(i, (keymap_id, keymap));
            },
            None => {
                self.keymaps.push((keymap_id, keymap));
            },
        }
        proof {
            assert forall|k: int| 0 <= k < self.active().len() implies self.is_registered(
                self.active()[k],
            ) by {
                let asked = self.active()[k];
                assert(old(self).is_registered(asked));
                lemma_registered_at(before, asked);
                lemma_registered_at(self.keymaps@, asked);
                lemma_registered_at(before, name);
                let was = registered_at(before, asked);
                let now = registered_at(self.keymaps@, asked);
                if now >= self.keymaps@.len() {
                    assert(self.keymaps@[was].0.0@ == asked);
                }
            }
        }
    }

    /// Activate a keymap. Fails when no keymap with that id is registered,
    /// and when the keymap is at the top of the stack already.
    pub fn push_keymap(&mut self, keymap_id: KeymapId) -> (done: Result<(), MapperError>)
        requires
            old(self).wf(),
        ensures
            final(self).wf(),
            final(self).registered() == old(self).registered(),
            final(self).buffered() == old(self).buffered(),
            match done {
                Ok(_) => old(self).is_registered(keymap_id.0@) && old(self).active().last()
                    != keymap_id.0@ && final(self).active() == old(self).active().push(
                    keymap_id.0@,
                ),
                Err(MapperError::KeymapNotRegistered(id)) => !old(self).is_registered(keymap_id.0@)
                    && id == keymap_id && final(self).active() == old(self).active(),
                Err(MapperError::KeymapAlreadyAtTop) => old(self).is_registered(keymap_id.0@)
                    && old(self).active().last() == keymap_id.0@ && final(self).active() == old(
                    self,
                ).active(),
            },
    {
        if self.find(&keymap_id).is_none() {
            return Err(MapperError::KeymapNotRegistered(keymap_id));
        }
        let len: usize = stack_len(&self.stack);
        if stack_get(&self.stack, len - 1).0 == keymap_id.0 {
            return Err(MapperError::KeymapAlreadyAtTop);
        }
        stack_push(&mut self.stack, keymap_id);
        Ok(())
    }

    /// Deactivate the top-most occurrence of the given keymap. This never
    /// deactivates the base map.
    pub fn deactivate_keymap(&mut self, keymap_id: KeymapId)
        requires
            old(self).wf(),
        ensures
            final(self).wf(),
            final(self).registered() == old(self).registered(),
            final(self).buffered() == old(self).buffered(),
            final(self).active() == if topmost(old(self).active(), keymap_id.0@) > 0 {
                old(self).active().remove(topmost(old(self).active(), keymap_id.0@))
            } else {
                old(self).active()
            },
    {
        let len: usize = stack_len(&self.stack);
        let mut i: usize = len;
        let ghost names = self.active();
        assert(names.take(len as int) =~= names);
        while i > 1
            invariant
                1 <= i <= len,
                len == names.len(),
                names == self.active(),
                *self == *old(self),
                old(self).wf(),
                topmost(names.take(i as int), keymap_id.0@) == topmost(names, keymap_id.0@),
            decreases i,
        {
            proof {
                assert(names.take(i as int).last() == names[i - 1]);
                assert(names.take(i as int).drop_last() =~= names.take(i - 1));
            }
            if stack_get(&self.stack, i - 1).0 == keymap_id.0 {
                stack_tail_remove(&mut self.stack, i - 2);
                proof {
                    assert forall|k: int| 0 <= k < self.active().len() implies self.is_registered(
                        self.active()[k],
                    ) by {
                        let from = if k < i - 1 { k } else { k + 1 };
                        assert(self.active()[k] == names[from]);
                        assert(old(self).is_registered(names[from]));
                    }
                }
                return ;
            }
            i -= 1;
        }
    }

    /// Handle a single key input and tell what the chain of inputs up to
    /// it leads to in the keymap at the top of the stack.
    ///
    /// Buffers inputs when the input leads us to a submap. When we hit a
    /// leaf or no match at all, the buffered inputs are cleared.
    pub fn on_input(&mut self, input: KeyInput) -> (node: Option<&KeymapNode<V>>)
        requires
            old(self).wf(),
        ensures
            final(self).wf(),
            final(self).registered() == old(self).registered(),
            final(self).active() == old(self).active(),
            match old(self).top().path_node(old(self).buffered().push(input)) {
                Some(found) => node == Some(&found) && final(self).buffered() == if found
                    is Submap {
                    old(self).buffered().push(input)
                } else {
                    Seq::empty()
                },
                None => node.is_none() && final(self).buffered().len() == 0,
            },
    {
        self.buffered_inputs.push(input);
        let len: usize = stack_len(&self.stack);
        let top = stack_get(&self.stack, len - 1);
        let at = match self.find(top) {
            Some(at) => at,
            None => {
                assert(self.is_registered(self.active()[len - 1]));
                vstd::pervasive::unreached()
            },
        };
        let node = self.keymaps[at].1.node_at_path(self.buffered_inputs.as_slice());
        match node {
            Some(KeymapNode::Submap(_, _)) => node,
            Some(KeymapNode::Leaf(_, _)) => {
                self.buffered_inputs.clear();
                node
            },
            None => {
                self.buffered_inputs.clear();
                None
            },
        }
    }
}

} // verus!
