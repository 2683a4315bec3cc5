//! The revision engine: the current text of a document and the history of
//! its edits, each filed under an undo group. Rolling back a set of undo
//! groups gives the text without the edits of those groups.

use crate::delta::delta_base_len;
use crate::delta::delta_ops;
use crate::delta::ops_aligned;
use crate::delta::ops_apply;
use crate::delta::ops_fit;
use crate::delta::ops_len;
use crate::delta::ops_ordered;
use crate::delta::Delta;
use crate::text::is_boundary;
use crate::text::text_bytes;
use crate::text::Text;
use std::collections::BTreeSet;
use vstd::prelude::*;
use xi_rope::engine::Engine;

verus! {

#[verifier::external_type_specification]
#[verifier::external_body]
pub struct ExEngine(Engine);

#[verifier::external_type_specification]
#[verifier::external_body]
pub struct ExEngineError(xi_rope::engine::Error);

/// The undo groups that an engine has rolled back.
pub uninterp spec fn engine_undone(engine: Engine) -> Set<usize>;

/// The text that an engine shows once exactly the undo groups `groups` are
/// rolled back.
pub uninterp spec fn engine_replay(engine: Engine, groups: Set<usize>) -> Seq<u8>;

/// The token of the revision that is the head of an engine.
pub uninterp spec fn engine_head_rev(engine: Engine) -> u64;

/// The tokens of the revisions that an engine holds.
pub uninterp spec fn engine_revisions(engine: Engine) -> Set<u64>;

/// The text of the latest revision of an engine that has the token `rev`.
pub uninterp spec fn engine_rev_text(engine: Engine, rev: u64) -> Seq<u8>;

/// The largest undo group that an edit of an engine was filed under.
pub uninterp spec fn engine_max_undo_group(engine: Engine) -> usize;

/// The text that an engine shows: its history without the undo groups that
/// are rolled back.
pub open spec fn engine_head(engine: Engine) -> Seq<u8> {
    engine_replay(engine, engine_undone(engine))
}

/// `Engine::new` of xi-rope: an engine that shows the given text, with no
/// undo group rolled back. It files the text under undo group 0.
#[verifier::external_body]
fn engine_new(text: &Text) -> (engine: Engine)
    ensures
        engine_undone(engine) == Set::<usize>::empty(),
        engine_replay(engine, Set::<usize>::empty()) == text_bytes(*text),
        engine_max_undo_group(engine) == 0,
{
    Engine::new(text.rope.clone())
}

/// `Engine::get_head` of xi-rope, as a handle of its own: the text that the
/// engine shows.
#[verifier::external_body]
fn engine_get_head(engine: &Engine) -> (text: Text)
    ensures
        text_bytes(text) == engine_head(*engine),
{
    Text { rope: engine.get_head().clone() }
}

/// `Engine::get_head_rev_id` of xi-rope, by the token of the revision. The
/// head is the latest revision that the engine holds, and its text is the
/// text that the engine shows.
#[verifier::external_body]
fn engine_head_rev_token(engine: &Engine) -> (token: u64)
    ensures
        token == engine_head_rev(*engine),
        engine_revisions(*engine).contains(token),
        engine_rev_text(*engine, token) == engine_head(*engine),
{
    engine.get_head_rev_id().token()
}

/// `Engine::edit_rev` of xi-rope, for an edit of the head revision. It
/// panics for a delta that does not fit the text. The edit becomes a new
/// revision, the head; the engine keeps the revisions it held, with their
/// texts.
///
/// The engine then shows the text that the delta makes of the one it
/// showed, unless the undo group of the edit is rolled back: it applies
/// the inserts of the delta to its text and takes out what the delta
/// deletes. The same groups stay rolled back. Rolling back a set of groups
/// that holds the group of the edit gives what it gave before the edit:
/// the engine then counts what the edit inserted as deleted, and leaves what
/// the edit deleted as it was.
#[verifier::external_body]
fn engine_edit_rev(
    engine: &mut Engine,
    priority: usize,
    undo_group: usize,
    base_rev: u64,
    delta: Delta,
)
    requires
        base_rev == engine_head_rev(*old(engine)),
        delta_base_len(delta) == engine_head(*old(engine)).len(),
        ops_fit(delta_ops(delta), 0, engine_head(*old(engine)).len() as int),
        ops_aligned(delta_ops(delta), engine_head(*old(engine))),
        ops_len(delta_ops(delta)) <= usize::MAX,
    ensures
        engine_undone(*final(engine)) == engine_undone(*old(engine)),
        !engine_undone(*old(engine)).contains(undo_group) ==> engine_head(*final(engine))
            == ops_apply(delta_ops(delta), engine_head(*old(engine))),
        forall|groups: Set<usize>|
            groups.contains(undo_group) ==> #[trigger] engine_replay(*final(engine), groups)
                == engine_replay(*old(engine), groups),
        engine_max_undo_group(*final(engine)) == if undo_group > engine_max_undo_group(
            *old(engine),
        ) {
            undo_group
        } else {
            engine_max_undo_group(*old(engine))
        },
        engine_revisions(*final(engine)) == engine_revisions(*old(engine)).insert(
            engine_head_rev(*final(engine)),
        ),
        forall|rev: u64|
            engine_revisions(*old(engine)).contains(rev) && rev != engine_head_rev(*final(engine))
                ==> #[trigger] engine_rev_text(*final(engine), rev) == engine_rev_text(
                *old(engine),
                rev,
            ),
{
    engine.edit_rev(priority, undo_group, base_rev, delta.inner)
}

/// `Engine::undo` of xi-rope: exactly the given undo groups are rolled back
/// from now on. The rollback becomes a new revision, the head; the engine
/// keeps the revisions it held, with their texts. The engine works out its text from the edits in its
/// history and the given groups; the history of edits is as before, so
/// rolling back any set of groups gives what it gave before.
#[verifier::external_body]
fn engine_undo(engine: &mut Engine, groups: BTreeSet<usize>)
    ensures
        engine_undone(*final(engine)) == groups@,
        forall|other: Set<usize>| #[trigger]
            engine_replay(*final(engine), other) == engine_replay(*old(engine), other),
        engine_max_undo_group(*final(engine)) == engine_max_undo_group(*old(engine)),
        engine_revisions(*final(engine)) == engine_revisions(*old(engine)).insert(
            engine_head_rev(*final(engine)),
        ),
        forall|rev: u64|
            engine_revisions(*old(engine)).contains(rev) && rev != engine_head_rev(*final(engine))
                ==> #[trigger] engine_rev_text(*final(engine), rev) == engine_rev_text(
                *old(engine),
                rev,
            ),
{
    engine.undo(groups)
}

/// `Engine::max_undo_group_id` of xi-rope: the largest undo group that an
/// edit was filed under. No edit is filed under a larger group, so rolling
/// such a group back as well changes nothing.
#[verifier::external_body]
fn engine_max_undo_group_id(engine: &Engine) -> (max: usize)
    ensures
        max == engine_max_undo_group(*engine),
        forall|groups: Set<usize>, group: usize|
            group > max ==> #[trigger] engine_replay(*engine, groups.insert(group))
                == engine_replay(*engine, groups),
{
    engine.max_undo_group_id()
}

/// `Engine::try_delta_rev_head` of xi-rope: a delta that makes the text of
/// the head revision out of the text of revision `base_rev`, or an error
/// where the engine holds no revision with that token. The pieces of the
/// delta add up to the text that the engine shows.
#[verifier::external_body]
fn engine_try_delta_rev_head(engine: &Engine, base_rev: u64) -> (delta: Result<
    Delta,
    xi_rope::engine::Error,
>)
    ensures
        delta is Ok == engine_revisions(*engine).contains(base_rev),
        delta matches Ok(delta) ==> {
            &&& ops_ordered(delta_ops(delta))
            &&& ops_len(delta_ops(delta)) == engine_head(*engine).len()
            &&& delta_base_len(delta) == engine_rev_text(*engine, base_rev).len()
            &&& ops_apply(delta_ops(delta), engine_rev_text(*engine, base_rev)) == engine_head(
                *engine,
            )
        },
{
    match engine.try_delta_rev_head(base_rev) {
        Ok(inner) => Ok(Delta { inner }),
        Err(error) => Err(error),
    }
}

/// Why the revision engine cannot tell how a revision became the head.
#[derive(Debug, Clone, Copy, PartialEq, Eq, Structural)]
pub enum RevisionError {
    /// The engine does not hold the revision.
    Unavailable,
}

/// The text of a document with the history of its edits. Every edit is
/// filed under an undo group, and any set of undo groups can be rolled
/// back: the engine then shows the text without the edits of those groups.
pub struct RevisionEngine {
    engine: Engine,
}

impl RevisionEngine {
    /// The undo groups that are rolled back.
    pub closed spec fn undone(&self) -> Set<usize> {
        engine_undone(self.engine)
    }

    /// The text that the engine shows once exactly the undo groups `groups`
    /// are rolled back.
    pub closed spec fn replay(&self, groups: Set<usize>) -> Seq<u8> {
        engine_replay(self.engine, groups)
    }

    /// The largest undo group that an edit was filed under.
    pub closed spec fn max_undo_group(&self) -> usize {
        engine_max_undo_group(self.engine)
    }

    /// The token of the head revision.
    pub closed spec fn head_revision(&self) -> u64 {
        engine_head_rev(self.engine)
    }

    /// The engine holds a revision with the token `rev`.
    pub closed spec fn holds(&self, rev: u64) -> bool {
        engine_revisions(self.engine).contains(rev)
    }

    /// The text of the latest revision with the token `rev`.
    pub closed spec fn text_of(&self, rev: u64) -> Seq<u8> {
        engine_rev_text(self.engine, rev)
    }

    /// `after` holds the revisions that this engine holds, with their texts,
    /// and its head beside them.
    pub open spec fn keeps_revisions(&self, after: &RevisionEngine) -> bool {
        &&& after.holds(after.head_revision())
        &&& after.text_of(after.head_revision()) == after.head_bytes()
        &&& forall|rev: u64|
            after.holds(rev) == (#[trigger] self.holds(rev) || rev == after.head_revision())
        &&& forall|rev: u64|
            self.holds(rev) && rev != after.head_revision() ==> #[trigger] after.text_of(rev)
                == self.text_of(rev)
    }

    /// The text that the engine shows.
    pub open spec fn head_bytes(&self) -> Seq<u8> {
        self.replay(self.undone())
    }

    /// Undo groups that no edit was filed under do not matter: rolling one
    /// of them back as well changes nothing.
    pub closed spec fn wf(&self) -> bool {
        forall|groups: Set<usize>, group: usize|
            group > engine_max_undo_group(self.engine) ==> #[trigger] engine_replay(
                self.engine,
                groups.insert(group),
            ) == engine_replay(self.engine, groups)
    }

    /// Rolling back an undo group beyond the largest that an edit was filed
    /// under changes nothing.
    pub proof fn lemma_unused_group(&self, groups: Set<usize>, group: usize)
        requires
            self.wf(),
            group > self.max_undo_group(),
        ensures
            self.replay(groups.insert(group)) == self.replay(groups),
    {
    }

    /// A delta can be committed: it applies to the head, its pieces fit the
    /// head and are aligned in it, and the text it makes fits the machine's
    /// integers.
    pub open spec fn accepts(&self, delta: Delta) -> bool {
        &&& delta_base_len(delta) == self.head_bytes().len()
        &&& ops_fit(delta_ops(delta), 0, self.head_bytes().len() as int)
        &&& ops_aligned(delta_ops(delta), self.head_bytes())
        &&& ops_len(delta_ops(delta)) <= usize::MAX
    }

    /// An engine that shows the given text, with no edits to undo.
    pub fn new(text: &Text) -> (engine: Self)
        ensures
            engine.wf(),
            engine.undone() == Set::<usize>::empty(),
            engine.head_bytes() == text@,
            engine.max_undo_group() == 0,
            engine.holds(engine.head_revision()),
            engine.text_of(engine.head_revision()) == text@,
    {
        let engine = engine_new(text);
        let _max: usize = engine_max_undo_group_id(&engine);
        let _head: u64 = engine_head_rev_token(&engine);
        RevisionEngine { engine }
    }

    /// A snapshot of the text that the engine shows. It shares its storage
    /// with the engine and stays as it is while the engine goes on.
    pub fn head(&self) -> (text: Text)
        ensures
            text@ == self.head_bytes(),
            is_boundary(text@, 0),
    {
        let text = engine_get_head(&self.engine);
        let _len: usize = text.len();
        text
    }

    /// The token of the head revision, by which `delta_from_head` finds it
    /// again.
    pub fn head_revision_token(&self) -> (token: u64)
        ensures
            token == self.head_revision(),
            self.holds(token),
            self.text_of(token) == self.head_bytes(),
    {
        engine_head_rev_token(&self.engine)
    }

    /// Apply a delta to the head and file it under an undo group. Returns
    /// the new head: the text that the delta makes of the old head, unless
    /// the undo group is rolled back. Rolling back a set of groups that
    /// holds the group of the edit gives what it gave before the edit.
    pub fn commit(&mut self, delta: Delta, undo_group: usize) -> (text: Text)
        requires
            old(self).wf(),
            old(self).accepts(delta),
        ensures
            final(self).wf(),
            text@ == final(self).head_bytes(),
            is_boundary(text@, 0),
            final(self).undone() == old(self).undone(),
            !old(self).undone().contains(undo_group) ==> text@ == ops_apply(
                delta_ops(delta),
                old(self).head_bytes(),
            ),
            forall|groups: Set<usize>|
                groups.contains(undo_group) ==> #[trigger] final(self).replay(groups) == old(
                    self,
                ).replay(groups),
            final(self).max_undo_group() == if undo_group > old(self).max_undo_group() {
                undo_group
            } else {
                old(self).max_undo_group()
            },
            old(self).keeps_revisions(final(self)),
    {
        let head_rev: u64 = engine_head_rev_token(&self.engine);
        engine_edit_rev(&mut self.engine, 1, undo_group, head_rev, delta);
        let _max: usize = engine_max_undo_group_id(&self.engine);
        let _head: u64 = engine_head_rev_token(&self.engine);
        let text = engine_get_head(&self.engine);
        let _len: usize = text.len();
        text
    }

    /// Roll back exactly the given undo groups, and return the new head:
    /// the text without the edits of those groups. The history of edits
    /// stays, so rolling back any set of groups gives what it gave before.
    pub fn undo(&mut self, groups: BTreeSet<usize>) -> (text: Text)
        requires
            old(self).wf(),
        ensures
            final(self).wf(),
            text@ == final(self).head_bytes(),
            is_boundary(text@, 0),
            final(self).undone() == groups@,
            forall|other: Set<usize>| #[trigger]
                final(self).replay(other) == old(self).replay(other),
            final(self).max_undo_group() == old(self).max_undo_group(),
            old(self).keeps_revisions(final(self)),
    {
        engine_undo(&mut self.engine, groups);
        let _head: u64 = engine_head_rev_token(&self.engine);
        let text = engine_get_head(&self.engine);
        let _len: usize = text.len();
        text
    }

    /// The delta from a revision to the head, for carrying positions over:
    /// it makes the head out of the text of the revision. It succeeds for
    /// every revision that the engine holds, and fails where the engine
    /// holds no revision with the token.
    pub fn delta_from_head(&self, old_revision: u64) -> (delta: Result<Delta, RevisionError>)
        ensures
            match delta {
                Ok(delta) => {
                    &&& self.holds(old_revision)
                    &&& delta_base_len(delta) == self.text_of(old_revision).len()
                    &&& ops_apply(delta_ops(delta), self.text_of(old_revision))
                        == self.head_bytes()
                    &&& ops_ordered(delta_ops(delta))
                    &&& ops_len(delta_ops(delta)) == self.head_bytes().len()
                },
                Err(RevisionError::Unavailable) => !self.holds(old_revision),
            },
    {
        match engine_try_delta_rev_head(&self.engine, old_revision) {
            Ok(delta) => Ok(delta),
            Err(_) => Err(RevisionError::Unavailable),
        }
    }
}

} // verus!
