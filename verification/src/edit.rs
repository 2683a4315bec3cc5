//! Edits: the deltas that replace ranges of a text, and what they do to the
//! text and to offsets in it.

use crate::delta::builder_base_len;
use crate::delta::builder_build;
use crate::delta::builder_delete;
use crate::delta::builder_last_offset;
use crate::delta::builder_new;
use crate::delta::builder_ops;
use crate::delta::builder_replace;
use crate::delta::delta_base_len;
use crate::delta::lemma_apply_first;
use crate::delta::lemma_fit_longer;
use crate::delta::lemma_fit_push_copy;
use crate::delta::lemma_fit_push_insert;
use crate::delta::lemma_len_push;
use crate::delta::lemma_transform_first;
use crate::delta::ops_aligned;
use crate::delta::ops_apply;
use crate::delta::ops_fit;
use crate::delta::ops_len;
use crate::delta::ops_transform;
use crate::delta::transform_offset;
use crate::delta::Delta;
use crate::delta::DeltaOp;
use crate::text::is_boundary;
use crate::text::is_continuation;
use crate::text::lemma_prev_boundary;
use crate::text::prev_boundary;
use crate::text::Text;
use vstd::prelude::*;

verus! {

/// The ranges lie in the text, one after the other, and begin and end on
/// code point boundaries.
pub open spec fn ranges_fit(ranges: Seq<(usize, usize)>, base: Seq<u8>) -> bool {
    &&& forall|i: int|
        0 <= i < ranges.len() ==> (#[trigger] ranges[i]).0 <= ranges[i].1 && is_boundary(
            base,
            ranges[i].0 as int,
        ) && is_boundary(base, ranges[i].1 as int)
    &&& forall|i: int, j: int| 0 <= i < j < ranges.len() ==> ranges[i].1 <= ranges[j].0
}

/// The pieces that replace each of the ranges by `insert`, up to the end of
/// the last range, and the offset at which that range ends.
pub open spec fn built_ops(ranges: Seq<(usize, usize)>, insert: Seq<u8>) -> (Seq<DeltaOp>, usize)
    decreases ranges.len(),
{
    if ranges.len() == 0 {
        (Seq::empty(), 0)
    } else {
        let before = built_ops(ranges.drop_last(), insert);
        let copied = if before.1 < ranges.last().0 {
            before.0.push(DeltaOp::Copy(before.1, ranges.last().0))
        } else {
            before.0
        };
        let inserted = if insert.len() > 0 {
            copied.push(DeltaOp::Insert(insert))
        } else {
            copied
        };
        (inserted, ranges.last().1)
    }
}

/// The pieces of the delta that replaces each of the ranges of a text of
/// `base_len` bytes by `insert`: what lies between the ranges is copied,
/// what lies in them is left out.
pub open spec fn replace_ops(ranges: Seq<(usize, usize)>, insert: Seq<u8>, base_len: usize) -> Seq<
    DeltaOp,
> {
    let built = built_ops(ranges, insert);
    if built.1 < base_len {
        built.0.push(DeltaOp::Copy(built.1, base_len))
    } else {
        built.0
    }
}

/// The pieces that replace ranges of a text fit it, are aligned in it, and
/// make a text that is no longer than the old one and the inserts together.
pub proof fn lemma_built_ops(ranges: Seq<(usize, usize)>, insert: Seq<u8>, base: Seq<u8>)
    requires
        ranges_fit(ranges, base),
        is_boundary(insert, 0),
        is_boundary(base, 0),
    ensures
        ({
            let built = built_ops(ranges, insert);
            &&& ops_fit(built.0, 0, built.1 as int)
            &&& ops_aligned(built.0, base)
            &&& is_boundary(base, built.1 as int)
            &&& ranges.len() > 0 ==> built.1 == ranges.last().1
            &&& 0 <= ops_len(built.0) <= built.1 + ranges.len() * insert.len()
        }),
    decreases ranges.len(),
{
    if ranges.len() > 0 {
        let earlier = ranges.drop_last();
        assert(ranges_fit(earlier, base)) by {
            assert forall|i: int| 0 <= i < earlier.len() implies (#[trigger] earlier[i]).0
                <= earlier[i].1 && is_boundary(base, earlier[i].0 as int) && is_boundary(
                base,
                earlier[i].1 as int,
            ) by {
                assert(earlier[i] == ranges[i]);
            }
            assert forall|i: int, j: int| 0 <= i < j < earlier.len() implies earlier[i].1
                <= earlier[j].0 by {
                assert(earlier[i] == ranges[i]);
                assert(earlier[j] == ranges[j]);
            }
        }
        lemma_built_ops(earlier, insert, base);
        let before = built_ops(earlier, insert);
        let range = ranges.last();
        assert(ranges[ranges.len() - 1] == range);
        if earlier.len() > 0 {
            assert(earlier.last() == ranges[ranges.len() - 2]);
        }
        assert(before.1 <= range.0);
        let copied = if before.1 < range.0 {
            before.0.push(DeltaOp::Copy(before.1, range.0))
        } else {
            before.0
        };
        if before.1 < range.0 {
            lemma_fit_push_copy(before.0, 0, before.1 as int, before.1, range.0);
            lemma_len_push(before.0, DeltaOp::Copy(before.1, range.0));
        }
        assert(ops_fit(copied, 0, range.0 as int));
        assert(ops_aligned(copied, base));
        lemma_fit_longer(copied, 0, range.0 as int, range.1 as int);
        if insert.len() > 0 {
            lemma_fit_push_insert(copied, 0, range.1 as int, insert);
            lemma_len_push(copied, DeltaOp::Insert(insert));
        }
        assert(ops_aligned(built_ops(ranges, insert).0, base));
        assert(ops_fit(built_ops(ranges, insert).0, 0, range.1 as int));
        assert(ops_len(built_ops(ranges, insert).0) <= range.1 + ranges.len() * insert.len())
            by (nonlinear_arith)
            requires
                ops_len(built_ops(ranges, insert).0) <= ops_len(before.0) + (range.0 - before.1)
                    + insert.len(),
                ops_len(before.0) <= before.1 + (ranges.len() - 1) * insert.len(),
                range.0 <= range.1,
        ;
    }
}

/// The delta that replaces ranges of a text fits the text, is aligned in
/// it, and makes a text that is no longer than the old one and the inserts
/// together.
pub proof fn lemma_replace_ops(ranges: Seq<(usize, usize)>, insert: Seq<u8>, base: Seq<u8>)
    requires
        ranges_fit(ranges, base),
        is_boundary(insert, 0),
        is_boundary(base, 0),
        base.len() <= usize::MAX,
    ensures
        ops_fit(replace_ops(ranges, insert, base.len() as usize), 0, base.len() as int),
        ops_aligned(replace_ops(ranges, insert, base.len() as usize), base),
        0 <= ops_len(replace_ops(ranges, insert, base.len() as usize)) <= base.len()
            + ranges.len() * insert.len(),
{
    lemma_built_ops(ranges, insert, base);
    let built = built_ops(ranges, insert);
    let len = base.len() as usize;
    if built.1 < len {
        lemma_fit_push_copy(built.0, 0, built.1 as int, built.1, len);
        lemma_len_push(built.0, DeltaOp::Copy(built.1, len));
    } else {
        lemma_fit_longer(built.0, 0, built.1 as int, base.len() as int);
    }
}

/// The delta that replaces each of the ranges of a text of `base_len` bytes
/// by `insert`.
pub fn build_delta(ranges: &Vec<(usize, usize)>, insert: &Text, base_len: usize) -> (delta: Delta)
    requires
        forall|i: int| 0 <= i < ranges@.len() ==> (#[trigger] ranges@[i]).0 <= ranges@[i].1,
        forall|i: int, j: int| 0 <= i < j < ranges@.len() ==> ranges@[i].1 <= ranges@[j].0,
    ensures
        delta@ == replace_ops(ranges@, insert@, base_len),
        delta_base_len(delta) == base_len,
{
    let mut builder = builder_new(base_len);
    let nothing_to_insert: bool = insert.len() == 0;
    let mut i: usize = 0;
    assert(ranges@.take(0) =~= Seq::<(usize, usize)>::empty());
    while i < ranges.len()
        invariant
            i <= ranges@.len(),
            nothing_to_insert == (insert@.len() == 0),
            forall|k: int| 0 <= k < ranges@.len() ==> (#[trigger] ranges@[k]).0 <= ranges@[k].1,
            forall|k: int, j: int| 0 <= k < j < ranges@.len() ==> ranges@[k].1 <= ranges@[j].0,
            builder_base_len(builder) == base_len,
            (builder_ops(builder), builder_last_offset(builder)) == built_ops(
                ranges@.take(i as int),
                insert@,
            ),
            i > 0 ==> builder_last_offset(builder) == ranges@[i - 1].1,
            i == 0 ==> builder_last_offset(builder) == 0,
        decreases ranges.len() - i,
    {
        let range: (usize, usize) = ranges[i];
        proof {
            assert(ranges@.take(i + 1).drop_last() =~= ranges@.take(i as int));
            assert(ranges@.take(i + 1).last() == ranges@[i as int]);
            if i > 0 {
                assert(ranges@[i - 1].1 <= ranges@[i as int].0);
            }
        }
        if nothing_to_insert {
            builder_delete(&mut builder, range.0, range.1);
        } else {
            builder_replace(&mut builder, range.0, range.1, insert);
        }
        i += 1;
    }
    assert(ranges@.take(i as int) =~= ranges@);
    builder_build(builder)
}

/// The bytes of a single code point: a first byte that continues nothing,
/// then bytes that continue it.
pub open spec fn is_code_point(bytes: Seq<u8>) -> bool {
    &&& bytes.len() >= 1
    &&& !is_continuation(bytes[0])
    &&& forall|i: int| 1 <= i < bytes.len() ==> is_continuation(#[trigger] bytes[i])
}

/// The pieces that put `insert` in place of one range of a text.
pub open spec fn single_edit(range: (usize, usize), insert: Seq<u8>, base: Seq<u8>) -> Seq<DeltaOp> {
    replace_ops(seq![range], insert, base.len() as usize)
}

/// An insert at one cursor puts the new bytes between what lies before the
/// cursor and what lies behind it, and carries a sticky cursor behind them.
pub proof fn lemma_insert_at_cursor(base: Seq<u8>, at: usize, insert: Seq<u8>)
    requires
        at <= base.len() <= usize::MAX,
    ensures
        ops_apply(single_edit((at, at), insert, base), base) == base.take(at as int) + insert
            + base.skip(at as int),
        transform_offset(single_edit((at, at), insert, base), at, true) == at + insert.len(),
{
    lemma_single_edit(base, at, at, insert);
}

/// A delete of one range leaves what lies before the range and what lies
/// behind it, and carries a cursor at its end to where it began.
pub proof fn lemma_delete_range(base: Seq<u8>, from: usize, to: usize)
    requires
        from <= to <= base.len() <= usize::MAX,
    ensures
        ops_apply(single_edit((from, to), Seq::empty(), base), base) == base.take(from as int)
            + base.skip(to as int),
        transform_offset(single_edit((from, to), Seq::empty(), base), to, true) == from,
{
    lemma_single_edit(base, from, to, Seq::empty());
    assert(base.take(from as int) + Seq::<u8>::empty() + base.skip(to as int) =~= base.take(
        from as int,
    ) + base.skip(to as int));
}

/// What one edit of one range makes of a text, and where it carries the end
/// of the range.
proof fn lemma_single_edit(base: Seq<u8>, from: usize, to: usize, insert: Seq<u8>)
    requires
        from <= to <= base.len() <= usize::MAX,
    ensures
        ops_apply(single_edit((from, to), insert, base), base) == base.take(from as int) + insert
            + base.skip(to as int),
        transform_offset(single_edit((from, to), insert, base), to, true) == from + insert.len(),
{
    let len = base.len() as usize;
    let ranges = seq![(from, to)];
    reveal_with_fuel(built_ops, 2);
    assert(ranges.drop_last() =~= Seq::<(usize, usize)>::empty());
    assert(ranges.last() == (from, to));
    let nothing = Seq::<DeltaOp>::empty();
    let tail = if to < len {
        seq![DeltaOp::Copy(to, len)] + nothing
    } else {
        nothing
    };
    let middle = if insert.len() > 0 {
        seq![DeltaOp::Insert(insert)] + tail
    } else {
        tail
    };
    let ops = if 0 < from {
        seq![DeltaOp::Copy(0, from)] + middle
    } else {
        middle
    };
    assert(single_edit((from, to), insert, base) =~= ops);
    if to < len {
        lemma_transform_first(DeltaOp::Copy(to, len), nothing, to, true);
        lemma_apply_first(DeltaOp::Copy(to, len), nothing, base);
    }
    if insert.len() > 0 {
        lemma_transform_first(DeltaOp::Insert(insert), tail, to, true);
        lemma_apply_first(DeltaOp::Insert(insert), tail, base);
    }
    if 0 < from {
        lemma_transform_first(DeltaOp::Copy(0, from), middle, to, true);
        lemma_apply_first(DeltaOp::Copy(0, from), middle, base);
    }
    assert(ops_apply(nothing, base) =~= Seq::<u8>::empty());
    assert(ops_transform(nothing, to, true) == 0);
    assert(ops_apply(ops, base) =~= base.take(from as int) + insert + base.skip(to as int));
}

/// Inserting a text at a cursor and then deleting backwards once gives what
/// inserting the text without its last code point gives: the same text,
/// with the cursor at the same offset. For a text of one code point that is
/// the buffer as it was: the text is back at its prior value and the cursor
/// at its prior offset.
pub proof fn lemma_insert_then_backspace(base: Seq<u8>, at: usize, head: Seq<u8>, last: Seq<u8>)
    requires
        is_boundary(base, 0),
        is_boundary(base, at as int),
        is_boundary(head + last, 0),
        is_code_point(last),
        base.len() + head.len() + last.len() <= usize::MAX,
    ensures
        ({
            let inserted = ops_apply(single_edit((at, at), head + last, base), base);
            let cursor = transform_offset(single_edit((at, at), head + last, base), at, true) as usize;
            let range = (prev_boundary(inserted, cursor as int) as usize, cursor);
            let shorter = ops_apply(single_edit((at, at), head, base), base);
            &&& ops_apply(single_edit(range, Seq::empty(), inserted), inserted) == shorter
            &&& transform_offset(single_edit(range, Seq::empty(), inserted), cursor, true)
                == transform_offset(single_edit((at, at), head, base), at, true)
            &&& head.len() == 0 ==> shorter == base
            &&& head.len() == 0 ==> transform_offset(
                single_edit((at, at), head, base),
                at,
                true,
            ) == at
        }),
{
    lemma_insert_at_cursor(base, at, head + last);
    lemma_insert_at_cursor(base, at, head);
    let inserted = base.take(at as int) + (head + last) + base.skip(at as int);
    let cursor = (at + head.len() + last.len()) as usize;
    let start = at + head.len();
    assert(inserted[start] == last[0]);
    assert(is_boundary(inserted, start));
    assert forall|k: int| start < k < cursor implies !is_boundary(inserted, k) by {
        assert(inserted[k] == last[k - start]);
    }
    if at + head.len() > 0 {
        assert(!is_continuation(inserted[0])) by {
            if at > 0 {
                assert(inserted[0] == base[0]);
            } else {
                assert(inserted[0] == (head + last)[0]);
            }
        }
    }
    lemma_prev_boundary(inserted, cursor as int);
    let found = prev_boundary(inserted, cursor as int);
    assert(found == start) by {
        if found < start {
            assert(!is_boundary(inserted, start));
        }
        if found > start {
            assert(!is_boundary(inserted, found));
        }
    }
    lemma_delete_range(inserted, start as usize, cursor);
    assert(inserted.take(start) + inserted.skip(cursor as int) =~= base.take(at as int) + head
        + base.skip(at as int));
    if head.len() == 0 {
        assert(base.take(at as int) + head + base.skip(at as int) =~= base);
    }
}

} // verus!
