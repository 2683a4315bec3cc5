//! Deltas: how one text becomes another, as a run of pieces copied from the
//! old text and pieces newly inserted. A delta also carries an offset of the
//! old text over to the new one.

use crate::text::is_boundary;
use crate::text::text_bytes;
use crate::text::Text;
use vstd::prelude::*;
use xi_rope::rope::RopeInfo;
use xi_rope::DeltaBuilder;
use xi_rope::Interval;
use xi_rope::RopeDelta;

verus! {

/// One piece of the new text.
pub enum DeltaOp {
    /// The bytes of the old text from the first offset up to the second.
    Copy(usize, usize),
    /// New bytes.
    Insert(Seq<u8>),
}

impl DeltaOp {
    /// The number of bytes that the piece adds to the new text.
    pub open spec fn len(self) -> int {
        match self {
            DeltaOp::Copy(beg, end) => end - beg,
            DeltaOp::Insert(bytes) => bytes.len() as int,
        }
    }

    /// The bytes that the piece adds to the new text.
    pub open spec fn bytes(self, base: Seq<u8>) -> Seq<u8> {
        match self {
            DeltaOp::Copy(beg, end) => base.subrange(beg as int, end as int),
            DeltaOp::Insert(bytes) => bytes,
        }
    }
}

/// The length of the text that the pieces make up.
pub open spec fn ops_len(ops: Seq<DeltaOp>) -> int
    decreases ops.len(),
{
    if ops.len() == 0 {
        0
    } else {
        ops.first().len() + ops_len(ops.drop_first())
    }
}

/// Every copied range ends no earlier than it begins.
pub open spec fn ops_ordered(ops: Seq<DeltaOp>) -> bool {
    forall|i: int|
        0 <= i < ops.len() ==> (#[trigger] ops[i] matches DeltaOp::Copy(beg, end) ==> beg <= end)
}

/// The pieces fit a text of `base_len` bytes: copied ranges are not empty,
/// follow one another and start at `from` or later; inserts are not empty.
pub open spec fn ops_fit(ops: Seq<DeltaOp>, from: int, base_len: int) -> bool
    decreases ops.len(),
{
    if ops.len() == 0 {
        from <= base_len
    } else {
        match ops.first() {
            DeltaOp::Copy(beg, end) => from <= beg < end <= base_len && ops_fit(
                ops.drop_first(),
                end as int,
                base_len,
            ),
            DeltaOp::Insert(bytes) => bytes.len() > 0 && ops_fit(ops.drop_first(), from, base_len),
        }
    }
}

/// Every piece begins and ends on a code point boundary: copied ranges in
/// `base`, inserts in themselves.
pub open spec fn ops_aligned(ops: Seq<DeltaOp>, base: Seq<u8>) -> bool {
    forall|i: int|
        0 <= i < ops.len() ==> match #[trigger] ops[i] {
            DeltaOp::Copy(beg, end) => is_boundary(base, beg as int) && is_boundary(
                base,
                end as int,
            ),
            DeltaOp::Insert(bytes) => is_boundary(bytes, 0),
        }
}

/// The new text: the pieces one after the other.
pub open spec fn ops_apply(ops: Seq<DeltaOp>, base: Seq<u8>) -> Seq<u8>
    decreases ops.len(),
{
    if ops.len() == 0 {
        Seq::empty()
    } else {
        ops.first().bytes(base) + ops_apply(ops.drop_first(), base)
    }
}

/// Where the pieces carry offset `ix` of the old text, counted from the
/// start of the first piece. An offset inside a copied range moves with it;
/// one inside a deleted range falls on the start of the next piece. With
/// `after`, an offset at the end of a copied range lands behind what is
/// inserted there, else before it.
pub open spec fn ops_transform(ops: Seq<DeltaOp>, ix: usize, after: bool) -> int
    decreases ops.len(),
{
    if ops.len() == 0 {
        0
    } else {
        match ops.first() {
            DeltaOp::Copy(beg, end) => if ix <= beg {
                0
            } else if ix < end || (ix == end && !after) {
                ix - beg
            } else {
                (end - beg) + ops_transform(ops.drop_first(), ix, after)
            },
            DeltaOp::Insert(bytes) => bytes.len() + ops_transform(ops.drop_first(), ix, after),
        }
    }
}

/// Where a delta carries offset `ix` of the old text.
pub open spec fn transform_offset(ops: Seq<DeltaOp>, ix: usize, after: bool) -> int {
    if ix == 0 && !after {
        0
    } else {
        ops_transform(ops, ix, after)
    }
}

/// Pieces that fit a text fit every longer text.
pub proof fn lemma_fit_longer(ops: Seq<DeltaOp>, from: int, base_len: int, longer: int)
    requires
        ops_fit(ops, from, base_len),
        base_len <= longer,
    ensures
        ops_fit(ops, from, longer),
    decreases ops.len(),
{
    if ops.len() > 0 {
        match ops.first() {
            DeltaOp::Copy(beg, end) => lemma_fit_longer(ops.drop_first(), end as int, base_len, longer),
            DeltaOp::Insert(bytes) => lemma_fit_longer(ops.drop_first(), from, base_len, longer),
        }
    }
}

/// Pieces that fit the text up to `upto` still fit with one more copy that
/// begins at `upto` or later.
pub proof fn lemma_fit_push_copy(ops: Seq<DeltaOp>, from: int, upto: int, beg: usize, end: usize)
    requires
        ops_fit(ops, from, upto),
        upto <= beg < end,
    ensures
        ops_fit(ops.push(DeltaOp::Copy(beg, end)), from, end as int),
    decreases ops.len(),
{
    let pushed = ops.push(DeltaOp::Copy(beg, end));
    reveal_with_fuel(ops_fit, 2);
    assert(pushed.first() == pushed[0]);
    if ops.len() == 0 {
        assert(pushed.drop_first() =~= Seq::<DeltaOp>::empty());
    } else {
        assert(pushed.first() == ops.first());
        assert(pushed.drop_first() =~= ops.drop_first().push(DeltaOp::Copy(beg, end)));
        match ops.first() {
            DeltaOp::Copy(b, e) => {
                lemma_fit_push_copy(ops.drop_first(), e as int, upto, beg, end);
                lemma_fit_bounds(ops.drop_first(), e as int, upto);
            },
            DeltaOp::Insert(bytes) => lemma_fit_push_copy(ops.drop_first(), from, upto, beg, end),
        }
    }
}

/// Pieces that fit the text up to `upto` still fit with one more insert.
pub proof fn lemma_fit_push_insert(ops: Seq<DeltaOp>, from: int, upto: int, bytes: Seq<u8>)
    requires
        ops_fit(ops, from, upto),
        bytes.len() > 0,
    ensures
        ops_fit(ops.push(DeltaOp::Insert(bytes)), from, upto),
    decreases ops.len(),
{
    let pushed = ops.push(DeltaOp::Insert(bytes));
    reveal_with_fuel(ops_fit, 2);
    assert(pushed.first() == pushed[0]);
    if ops.len() == 0 {
        assert(pushed.drop_first() =~= Seq::<DeltaOp>::empty());
    } else {
        assert(pushed.first() == ops.first());
        assert(pushed.drop_first() =~= ops.drop_first().push(DeltaOp::Insert(bytes)));
        match ops.first() {
            DeltaOp::Copy(b, e) => lemma_fit_push_insert(ops.drop_first(), e as int, upto, bytes),
            DeltaOp::Insert(other) => lemma_fit_push_insert(ops.drop_first(), from, upto, bytes),
        }
    }
}

/// Pieces that fit begin no later than the text ends.
pub proof fn lemma_fit_bounds(ops: Seq<DeltaOp>, from: int, base_len: int)
    requires
        ops_fit(ops, from, base_len),
    ensures
        from <= base_len,
        ops_ordered(ops),
    decreases ops.len(),
{
    if ops.len() > 0 {
        match ops.first() {
            DeltaOp::Copy(beg, end) => lemma_fit_bounds(ops.drop_first(), end as int, base_len),
            DeltaOp::Insert(bytes) => lemma_fit_bounds(ops.drop_first(), from, base_len),
        }
        assert forall|i: int| 0 <= i < ops.len() implies (#[trigger] ops[i] matches DeltaOp::Copy(
            beg,
            end,
        ) ==> beg <= end) by {
            if i > 0 {
                assert(ops[i] == ops.drop_first()[i - 1]);
            }
        }
    }
}

/// One more piece adds its length to the length of the text.
pub proof fn lemma_len_push(ops: Seq<DeltaOp>, op: DeltaOp)
    ensures
        ops_len(ops.push(op)) == ops_len(ops) + op.len(),
    decreases ops.len(),
{
    reveal_with_fuel(ops_len, 2);
    assert(ops.push(op).first() == ops.push(op)[0]);
    if ops.len() == 0 {
        assert(ops.push(op).drop_first() =~= Seq::<DeltaOp>::empty());
    } else {
        assert(ops.push(op).first() == ops.first());
        assert(ops.push(op).drop_first() =~= ops.drop_first().push(op));
        lemma_len_push(ops.drop_first(), op);
    }
}

/// One more piece adds its bytes to the end of the text.
pub proof fn lemma_apply_push(ops: Seq<DeltaOp>, op: DeltaOp, base: Seq<u8>)
    ensures
        ops_apply(ops.push(op), base) == ops_apply(ops, base) + op.bytes(base),
    decreases ops.len(),
{
    reveal_with_fuel(ops_apply, 2);
    assert(ops.push(op).first() == ops.push(op)[0]);
    if ops.len() == 0 {
        assert(ops.push(op).drop_first() =~= Seq::<DeltaOp>::empty());
        assert(ops_apply(ops.push(op), base) =~= ops_apply(ops, base) + op.bytes(base));
    } else {
        assert(ops.push(op).first() == ops.first());
        assert(ops.push(op).drop_first() =~= ops.drop_first().push(op));
        lemma_apply_push(ops.drop_first(), op, base);
        assert(ops_apply(ops.push(op), base) =~= ops_apply(ops, base) + op.bytes(base));
    }
}

/// The text that pieces make is as long as the pieces add up to.
pub proof fn lemma_apply_len(ops: Seq<DeltaOp>, from: int, base: Seq<u8>)
    requires
        ops_fit(ops, from, base.len() as int),
        0 <= from,
    ensures
        ops_apply(ops, base).len() == ops_len(ops),
        0 <= ops_len(ops),
    decreases ops.len(),
{
    if ops.len() > 0 {
        match ops.first() {
            DeltaOp::Copy(beg, end) => lemma_apply_len(ops.drop_first(), end as int, base),
            DeltaOp::Insert(bytes) => lemma_apply_len(ops.drop_first(), from, base),
        }
    }
}

/// An offset is carried to an offset of the new text.
pub proof fn lemma_transform_bounds(ops: Seq<DeltaOp>, ix: usize, after: bool)
    requires
        ops_ordered(ops),
    ensures
        0 <= ops_transform(ops, ix, after) <= ops_len(ops),
        0 <= transform_offset(ops, ix, after) <= ops_len(ops),
    decreases ops.len(),
{
    if ops.len() > 0 {
        assert(ops.first() == ops[0]);
        assert(ops_ordered(ops.drop_first())) by {
            assert forall|i: int| 0 <= i < ops.drop_first().len() implies (
            #[trigger] ops.drop_first()[i] matches DeltaOp::Copy(beg, end) ==> beg <= end) by {
                assert(ops.drop_first()[i] == ops[i + 1]);
            }
        }
        lemma_transform_bounds(ops.drop_first(), ix, after);
    }
}

/// The text that aligned pieces make begins on a code point boundary.
pub proof fn lemma_apply_starts_aligned(ops: Seq<DeltaOp>, from: int, base: Seq<u8>)
    requires
        ops_fit(ops, from, base.len() as int),
        ops_aligned(ops, base),
        0 <= from,
    ensures
        is_boundary(ops_apply(ops, base), 0),
{
    if ops.len() > 0 {
        assert(ops.first() == ops[0]);
        lemma_apply_len(ops.drop_first(), match ops.first() {
            DeltaOp::Copy(beg, end) => end as int,
            DeltaOp::Insert(bytes) => from,
        }, base);
    }
}

/// Aligned pieces carry a code point boundary of the old text to a code
/// point boundary of the new text.
pub proof fn lemma_transform_aligned(
    ops: Seq<DeltaOp>,
    from: int,
    base: Seq<u8>,
    ix: usize,
    after: bool,
)
    requires
        ops_fit(ops, from, base.len() as int),
        ops_aligned(ops, base),
        0 <= from,
        is_boundary(base, ix as int),
    ensures
        is_boundary(ops_apply(ops, base), ops_transform(ops, ix, after)),
    decreases ops.len(),
{
    if ops.len() > 0 {
        let first = ops.first();
        let rest = ops.drop_first();
        assert(first == ops[0]);
        let next_from = match first {
            DeltaOp::Copy(beg, end) => end as int,
            DeltaOp::Insert(bytes) => from,
        };
        assert(ops_aligned(rest, base)) by {
            assert forall|i: int| 0 <= i < rest.len() implies match #[trigger] rest[i] {
                DeltaOp::Copy(beg, end) => is_boundary(base, beg as int) && is_boundary(
                    base,
                    end as int,
                ),
                DeltaOp::Insert(bytes) => is_boundary(bytes, 0),
            } by {
                assert(rest[i] == ops[i + 1]);
            }
        }
        lemma_transform_aligned(rest, next_from, base, ix, after);
        lemma_apply_len(rest, next_from, base);
        lemma_apply_starts_aligned(rest, next_from, base);
        lemma_fit_bounds(rest, next_from, base.len() as int);
        lemma_transform_bounds(rest, ix, after);
        let piece = first.bytes(base);
        let tail = ops_apply(rest, base);
        let whole = ops_apply(ops, base);
        assert(whole == piece + tail);
        let t = ops_transform(ops, ix, after);
        match first {
            DeltaOp::Copy(beg, end) => {
                if ix <= beg {
                    assert(whole[0] == base[beg as int]);
                } else if ix < end {
                    assert(whole[t] == base[ix as int]);
                } else if ix == end && !after {
                    if tail.len() > 0 {
                        assert(whole[t] == tail[0]);
                    }
                } else {
                    let inner = ops_transform(rest, ix, after);
                    if inner < tail.len() {
                        assert(whole[t] == tail[inner]);
                    }
                }
            },
            DeltaOp::Insert(bytes) => {
                let inner = ops_transform(rest, ix, after);
                if inner < tail.len() {
                    assert(whole[t] == tail[inner]);
                }
            },
        }
    }
}

/// How the first piece decides where an offset is carried.
pub proof fn lemma_transform_first(op: DeltaOp, rest: Seq<DeltaOp>, ix: usize, after: bool)
    ensures
        ops_transform(seq![op] + rest, ix, after) == match op {
            DeltaOp::Copy(beg, end) => if ix <= beg {
                0
            } else if ix < end || (ix == end && !after) {
                ix - beg
            } else {
                (end - beg) + ops_transform(rest, ix, after)
            },
            DeltaOp::Insert(bytes) => bytes.len() + ops_transform(rest, ix, after),
        },
{
    assert((seq![op] + rest).drop_first() =~= rest);
    assert((seq![op] + rest).first() == op);
}

/// The first piece comes first in the new text.
pub proof fn lemma_apply_first(op: DeltaOp, rest: Seq<DeltaOp>, base: Seq<u8>)
    ensures
        ops_apply(seq![op] + rest, base) == op.bytes(base) + ops_apply(rest, base),
{
    assert((seq![op] + rest).drop_first() =~= rest);
    assert((seq![op] + rest).first() == op);
}

/// A transformation from one text to another.
#[verifier::external_body]
pub struct Delta {
    pub(crate) inner: RopeDelta,
}

/// The pieces of a delta, in the order of the new text.
pub uninterp spec fn delta_ops(delta: Delta) -> Seq<DeltaOp>;

/// The length of the text that a delta applies to.
pub uninterp spec fn delta_base_len(delta: Delta) -> usize;

impl View for Delta {
    type V = Seq<DeltaOp>;

    open spec fn view(&self) -> Seq<DeltaOp> {
        delta_ops(*self)
    }
}

/// Collects the edits of one delta. The edits come in the order of the text:
/// each begins where the one before ended, or later.
#[verifier::external_body]
pub struct Builder {
    inner: DeltaBuilder<RopeInfo>,
}

/// The pieces that a builder has collected.
pub uninterp spec fn builder_ops(builder: Builder) -> Seq<DeltaOp>;

/// The length of the text that a builder's delta will apply to.
pub uninterp spec fn builder_base_len(builder: Builder) -> usize;

/// The offset of the old text up to which a builder's pieces account for it.
pub uninterp spec fn builder_last_offset(builder: Builder) -> usize;

/// `Builder::new` of xi-rope's delta module: a builder without pieces for a
/// text of `base_len` bytes.
#[verifier::external_body]
pub(crate) fn builder_new(base_len: usize) -> (builder: Builder)
    ensures
        builder_ops(builder) == Seq::<DeltaOp>::empty(),
        builder_base_len(builder) == base_len,
        builder_last_offset(builder) == 0,
{
    Builder { inner: DeltaBuilder::new(base_len) }
}

/// `Builder::delete` of xi-rope: where the range begins behind the last
/// offset, the text between is copied; the last offset becomes the end of
/// the range. It panics for a range that begins before the last offset.
#[verifier::external_body]
pub(crate) fn builder_delete(builder: &mut Builder, start: usize, end: usize)
    requires
        builder_last_offset(*old(builder)) <= start <= end,
    ensures
        builder_ops(*final(builder)) == if builder_last_offset(*old(builder)) < start {
            builder_ops(*old(builder)).push(
                DeltaOp::Copy(builder_last_offset(*old(builder)), start),
            )
        } else {
            builder_ops(*old(builder))
        },
        builder_base_len(*final(builder)) == builder_base_len(*old(builder)),
        builder_last_offset(*final(builder)) == end,
{
    builder.inner.delete(Interval::new(start, end))
}

/// `Builder::replace` of xi-rope: `delete` on the range, then an insert of
/// the rope where it is not empty.
#[verifier::external_body]
pub(crate) fn builder_replace(builder: &mut Builder, start: usize, end: usize, text: &Text)
    requires
        builder_last_offset(*old(builder)) <= start <= end,
    ensures
        builder_ops(*final(builder)) == {
            let copied = if builder_last_offset(*old(builder)) < start {
                builder_ops(*old(builder)).push(
                    DeltaOp::Copy(builder_last_offset(*old(builder)), start),
                )
            } else {
                builder_ops(*old(builder))
            };
            if text_bytes(*text).len() > 0 {
                copied.push(DeltaOp::Insert(text_bytes(*text)))
            } else {
                copied
            }
        },
        builder_base_len(*final(builder)) == builder_base_len(*old(builder)),
        builder_last_offset(*final(builder)) == end,
{
    builder.inner.replace(Interval::new(start, end), text.rope.clone())
}

/// `Builder::build` of xi-rope: the delta of the collected pieces, with a
/// copy of what is left of the text behind the last offset.
#[verifier::external_body]
pub(crate) fn builder_build(builder: Builder) -> (delta: Delta)
    ensures
        delta_ops(delta) == if builder_last_offset(builder) < builder_base_len(builder) {
            builder_ops(builder).push(
                DeltaOp::Copy(builder_last_offset(builder), builder_base_len(builder)),
            )
        } else {
            builder_ops(builder)
        },
        delta_base_len(delta) == builder_base_len(builder),
{
    Delta { inner: builder.inner.build() }
}

/// `Transformer::transform` of xi-rope, on a transformer made for the delta.
/// It adds up lengths of pieces, so their sum and the offset must fit.
#[verifier::external_body]
pub(crate) fn delta_transform(delta: &Delta, ix: usize, after: bool) -> (out: usize)
    requires
        ops_ordered(delta_ops(*delta)),
        ops_len(delta_ops(*delta)) + ix <= usize::MAX,
    ensures
        out == transform_offset(delta_ops(*delta), ix, after),
{
    xi_rope::Transformer::new(&delta.inner).transform(ix, after)
}

/// A mapping from offsets in the old text to offsets in the text that a
/// delta makes.
pub struct Transformer<'a> {
    delta: &'a Delta,
}

impl<'a> Transformer<'a> {
    /// The pieces of the delta that the transformer maps through.
    pub closed spec fn ops(&self) -> Seq<DeltaOp> {
        delta_ops(*self.delta)
    }

    /// The transformer can map offset `ix`: no copied range runs backwards,
    /// and the lengths it adds up fit the machine's integers.
    pub open spec fn accepts(&self, ix: usize) -> bool {
        ops_ordered(self.ops()) && ops_len(self.ops()) + ix <= usize::MAX
    }

    /// A transformer for `delta`.
    pub fn new(delta: &'a Delta) -> (transformer: Self)
        ensures
            transformer.ops() == delta@,
    {
        Transformer { delta }
    }

    /// Transform a single offset. `after` says whether it lands before or
    /// behind text that is inserted at that offset.
    pub fn transform(&mut self, ix: usize, after: bool) -> (out: usize)
        requires
            old(self).accepts(ix),
        ensures
            out == transform_offset(old(self).ops(), ix, after),
            final(self).ops() == old(self).ops(),
    {
        delta_transform(self.delta, ix, after)
    }
}

} // verus!
