//! The carets of a buffer.
//!
//! Terminology:
//! - *Region* refers to any region in the buffer.
//! - *Cursor* refers to any region of length 0.
//! - *Selection* refers to a region of some length that the user controls.
//! - *Caret* refers to a region that the user controls: a place where text
//!   gets inserted. Selections are carets, too.

use crate::delta::ops_len;
use crate::delta::ops_ordered;
use crate::delta::Delta;
use crate::delta::DeltaOp;
use crate::delta::Transformer;
use crate::region::Region;
use crate::region::RegionId;
use nonempty::NonEmpty;
use std::collections::HashMap;
use vstd::prelude::*;

verus! {

broadcast use vstd::std_specs::hash::group_hash_axioms;

#[verifier::external_type_specification]
#[verifier::external_body]
#[verifier::reject_recursive_types(T)]
pub struct ExNonEmpty<T>(NonEmpty<T>);

/// The regions of a non-empty list, in order.
pub uninterp spec fn nonempty_regions(list: NonEmpty<Region>) -> Seq<Region>;

/// `NonEmpty::from_vec` of the nonempty crate: the list of the items of the
/// vector in their order, and nothing for an empty vector.
#[verifier::external_body]
fn regions_from_vec(regions: Vec<Region>) -> (list: Option<NonEmpty<Region>>)
    ensures
        match list {
            Some(list) => regions@.len() > 0 && nonempty_regions(list) == regions@,
            None => regions@.len() == 0,
        },
{
    NonEmpty::from_vec(regions)
}

/// A caret: a region and the handle by which it is known.
#[derive(Debug, Clone, Copy, PartialEq, Eq, Structural)]
pub struct Caret {
    pub id: RegionId,
    pub region: Region,
}

/// The sorted carets with one more, placed behind every caret whose head
/// lies at the new caret's head or before it.
pub open spec fn insert_by_head(sorted: Seq<Caret>, caret: Caret) -> Seq<Caret>
    decreases sorted.len(),
{
    if sorted.len() == 0 {
        seq![caret]
    } else if sorted.last().region.head <= caret.region.head {
        sorted.push(caret)
    } else {
        insert_by_head(sorted.drop_last(), caret).push(sorted.last())
    }
}

/// The carets in the order of their heads. Carets with the same head keep
/// the order in which they came.
pub open spec fn sort_by_head(carets: Seq<Caret>) -> Seq<Caret>
    decreases carets.len(),
{
    if carets.len() == 0 {
        Seq::empty()
    } else {
        insert_by_head(sort_by_head(carets.drop_last()), carets.last())
    }
}

/// The carets and the primary one once every pair of neighbours that touch
/// or overlap, from position `i` on, is merged into the left one of the
/// two. After a merge the pair before it is looked at again, since the
/// merged caret may begin earlier than its left half did. Where the primary
/// caret is merged away, the caret it was merged into becomes primary.
pub open spec fn merge_pass(carets: Seq<Caret>, primary: RegionId, i: int) -> (Seq<Caret>, RegionId)
    decreases carets.len(), carets.len() - i,
{
    if i < 0 || i + 1 >= carets.len() {
        (carets, primary)
    } else if carets[i].region.end() >= carets[i + 1].region.start() {
        let merged = Caret {
            id: carets[i].id,
            region: carets[i].region.spec_merged_with(carets[i + 1].region),
        };
        merge_pass(
            carets.update(i, merged).remove(i + 1),
            if primary == carets[i + 1].id {
                carets[i].id
            } else {
                primary
            },
            if i > 0 {
                i - 1
            } else {
                0
            },
        )
    } else {
        merge_pass(carets, primary, i + 1)
    }
}

/// No two carets have the same handle.
pub open spec fn distinct_ids(carets: Seq<Caret>) -> bool {
    forall|i: int, j: int| 0 <= i < j < carets.len() ==> carets[i].id != carets[j].id
}

/// One of the carets has the handle `id`.
pub open spec fn has_id(carets: Seq<Caret>, id: RegionId) -> bool {
    exists|i: int| 0 <= i < carets.len() && carets[i].id == id
}

/// The caret at position `i` ends before the next one begins.
pub open spec fn apart(carets: Seq<Caret>, i: int) -> bool {
    carets[i].region.is_strictly_before(carets[i + 1].region)
}

/// Every caret up to position `upto` ends before the next one begins.
pub open spec fn ordered_upto(carets: Seq<Caret>, upto: int) -> bool {
    forall|i: int| 0 <= i < upto && i + 1 < carets.len() ==> #[trigger] apart(carets, i)
}

/// Every caret ends before the next one begins.
pub open spec fn ordered(carets: Seq<Caret>) -> bool {
    ordered_upto(carets, carets.len() as int)
}

/// `offset` is the head or the tail of one of the carets.
pub open spec fn has_offset(carets: Seq<Caret>, offset: usize) -> bool {
    exists|j: int|
        0 <= j < carets.len() && ((#[trigger] carets[j]).region.head == offset
            || carets[j].region.tail == offset)
}

/// The head and the tail of `caret` are each a head or tail of one of the
/// carets.
pub open spec fn caret_from(carets: Seq<Caret>, caret: Caret) -> bool {
    has_offset(carets, caret.region.head) && has_offset(carets, caret.region.tail)
}

/// Every head and tail of the carets `after` is a head or tail of one of the
/// carets `before`.
pub open spec fn offsets_from(after: Seq<Caret>, before: Seq<Caret>) -> bool {
    forall|k: int| 0 <= k < after.len() ==> #[trigger] caret_from(before, after[k])
}

/// The mathematical state of the carets of a buffer.
pub struct RegionsState {
    /// All the active carets, including the primary caret.
    pub carets: Seq<Caret>,
    /// The primary caret is the caret that remains when multi-caret mode
    /// ends.
    pub primary: RegionId,
}

impl RegionsState {
    /// There is a caret, every caret has a handle of its own, and the primary
    /// handle is that of a caret.
    pub open spec fn coherent(self) -> bool {
        &&& self.carets.len() > 0
        &&& distinct_ids(self.carets)
        &&& has_id(self.carets, self.primary)
    }

    /// What holds between any two operations: the state is coherent, and the
    /// carets are strictly ordered and do not touch.
    pub open spec fn wf(self) -> bool {
        self.coherent() && ordered(self.carets)
    }

    /// The regions of the carets, in order.
    pub open spec fn regions(self) -> Seq<Region> {
        Seq::new(self.carets.len(), |i: int| self.carets[i].region)
    }

    /// The position of the caret with handle `id`.
    pub open spec fn index_of(self, id: RegionId) -> int {
        choose|i: int| 0 <= i < self.carets.len() && self.carets[i].id == id
    }

    /// The region of the primary caret.
    pub open spec fn primary_region(self) -> Region {
        self.carets[self.index_of(self.primary)].region
    }

    /// The state after the consistency pass: the carets are sorted by their
    /// heads, then neighbours that touch or overlap are merged.
    pub open spec fn consistent(self) -> RegionsState {
        let merged = merge_pass(sort_by_head(self.carets), self.primary, 0);
        RegionsState { carets: merged.0, primary: merged.1 }
    }

    /// `after` is this state after the consistency pass. The pass leaves a
    /// well-formed state, makes up no handle, and no offset: every caret
    /// begins and ends where a caret began or ended before.
    pub open spec fn settles_to(self, after: RegionsState) -> bool {
        &&& after == self.consistent()
        &&& after.wf()
        &&& offsets_from(after.carets, self.carets)
        &&& forall|id: RegionId| has_id(after.carets, id) ==> has_id(self.carets, id)
    }

    /// The state with every caret carried through a delta.
    pub open spec fn transformed(self, ops: Seq<DeltaOp>) -> RegionsState {
        self.with_regions(
            Seq::new(self.carets.len(), |i: int| self.carets[i].region.transformed(ops)),
        )
    }

    /// The state with every selection turned into a cursor at its head.
    pub open spec fn collapsed(self) -> RegionsState {
        self.with_regions(
            Seq::new(
                self.carets.len(),
                |i: int| Region { tail: self.carets[i].region.head, ..self.carets[i].region },
            ),
        )
    }

    /// The state with the region of every caret replaced by the region at
    /// the same position in `regions`.
    pub open spec fn with_regions(self, regions: Seq<Region>) -> RegionsState {
        RegionsState {
            carets: Seq::new(
                self.carets.len(),
                |i: int| Caret { id: self.carets[i].id, region: regions[i] },
            ),
            primary: self.primary,
        }
    }

    /// The state with the region of the primary caret replaced.
    pub open spec fn with_primary_region(self, region: Region) -> RegionsState {
        RegionsState {
            carets: self.carets.update(
                self.index_of(self.primary),
                Caret { id: self.primary, region },
            ),
            primary: self.primary,
        }
    }

    /// The state with a caret of handle `id` at `region`: a new one behind
    /// the others or, where a caret has that handle already, that caret.
    pub open spec fn with_caret(self, id: RegionId, region: Region, make_primary: bool) -> RegionsState {
        RegionsState {
            carets: if has_id(self.carets, id) {
                self.carets.update(self.index_of(id), Caret { id, region })
            } else {
                self.carets.push(Caret { id, region })
            },
            primary: if make_primary {
                id
            } else {
                self.primary
            },
        }
    }

    /// The state with the primary caret alone.
    pub open spec fn only_primary(self) -> RegionsState {
        RegionsState {
            carets: seq![Caret { id: self.primary, region: self.primary_region() }],
            primary: self.primary,
        }
    }
}

/// Carets that are strictly ordered neighbour by neighbour are strictly
/// ordered pair by pair: none overlaps or touches another.
pub proof fn lemma_ordered_pairwise(carets: Seq<Caret>, i: int, j: int)
    requires
        ordered(carets),
        0 <= i < j < carets.len(),
    ensures
        carets[i].region.is_strictly_before(carets[j].region),
        carets[i].region.head < carets[j].region.head,
    decreases j - i,
{
    if i + 1 < j {
        lemma_ordered_pairwise(carets, i, j - 1);
        assert(apart(carets, j - 1));
    } else {
        assert(apart(carets, i));
    }
}

/// The consistency pass leaves a single caret as it is.
pub proof fn lemma_single_consistent(state: RegionsState)
    requires
        state.carets.len() == 1,
    ensures
        state.consistent() == state,
{
    reveal_with_fuel(sort_by_head, 2);
    assert(state.carets.drop_last() =~= Seq::<Caret>::empty());
    assert(sort_by_head(state.carets) =~= state.carets);
}

/// Inserting by head puts the caret at some position and leaves the others
/// in their order.
proof fn lemma_insert_by_head(sorted: Seq<Caret>, caret: Caret, pos: int)
    requires
        0 <= pos <= sorted.len(),
        pos > 0 ==> sorted[pos - 1].region.head <= caret.region.head,
        forall|k: int| pos <= k < sorted.len() ==> sorted[k].region.head > caret.region.head,
    ensures
        insert_by_head(sorted, caret) == sorted.insert(pos, caret),
    decreases sorted.len(),
{
    if sorted.len() == 0 {
        assert(sorted.insert(pos, caret) =~= seq![caret]);
    } else if pos == sorted.len() {
        assert(sorted.insert(pos, caret) =~= sorted.push(caret));
    } else {
        lemma_insert_by_head(sorted.drop_last(), caret, pos);
        assert(sorted.insert(pos, caret) =~= sorted.drop_last().insert(pos, caret).push(
            sorted.last(),
        ));
    }
}

/// Sort carets by their heads; carets with the same head keep their order.
fn sort_carets(carets: &Vec<Caret>) -> (sorted: Vec<Caret>)
    requires
        carets@.len() > 0,
        distinct_ids(carets@),
    ensures
        sorted@ == sort_by_head(carets@),
        sorted@.len() == carets@.len(),
        distinct_ids(sorted@),
        forall|id: RegionId| has_id(carets@, id) <==> has_id(sorted@, id),
        forall|k: int|
            0 <= k < sorted@.len() ==> exists|j: int|
                0 <= j < carets@.len() && carets@[j] == #[trigger] sorted@[k],
{
    let mut sorted: Vec<Caret> = Vec::new();
    let mut n: usize = 0;
    while n < carets.len()
        invariant
            n <= carets.len(),
            sorted@ == sort_by_head(carets@.take(n as int)),
            sorted@.len() == n,
            distinct_ids(carets@),
            distinct_ids(sorted@),
            forall|k: int| 0 <= k < n ==> has_id(sorted@, #[trigger] carets@[k].id),
            forall|k: int|
                0 <= k < sorted@.len() ==> exists|j: int|
                    0 <= j < n && carets@[j] == #[trigger] sorted@[k],
        decreases carets.len() - n,
    {
        let caret: Caret = carets[n];
        let mut pos: usize = sorted.len();
        while pos > 0 && sorted[pos - 1].region.head > caret.region.head
            invariant
                pos <= sorted.len(),
                forall|k: int| pos <= k < sorted@.len() ==> sorted@[k].region.head > caret.region.head,
            decreases pos,
        {
            pos -= 1;
        }
        proof {
            lemma_insert_by_head(sorted@, caret, pos as int);
            assert(carets@.take(n + 1).drop_last() =~= carets@.take(n as int));
        }
        let ghost before = sorted@;
        sorted.insert(pos, caret);
        proof {
            assert forall|k: int| 0 <= k < n + 1 implies has_id(
                sorted@,
                #[trigger] carets@[k].id,
            ) by {
                if k < n {
                    let j = choose|j: int| 0 <= j < before.len() && before[j].id == carets@[k].id;
                    if j < pos {
                        assert(sorted@[j].id == carets@[k].id);
                    } else {
                        assert(sorted@[j + 1].id == carets@[k].id);
                    }
                } else {
                    assert(sorted@[pos as int].id == carets@[k].id);
                }
            }
            assert forall|k: int| 0 <= k < sorted@.len() implies exists|j: int|
                0 <= j < n + 1 && carets@[j] == #[trigger] sorted@[k] by {
                if k < pos {
                    assert(sorted@[k] == before[k]);
                    let j = choose|j: int| 0 <= j < n && carets@[j] == before[k];
                    assert(carets@[j] == sorted@[k]);
                } else if k == pos {
                    assert(carets@[n as int] == sorted@[k]);
                } else {
                    assert(sorted@[k] == before[k - 1]);
                    let j = choose|j: int| 0 <= j < n && carets@[j] == before[k - 1];
                    assert(carets@[j] == sorted@[k]);
                }
            }
            assert forall|i: int, j: int| 0 <= i < j < sorted@.len() implies sorted@[i].id
                != sorted@[j].id by {
                let bi = if i < pos { i } else { i - 1 };
                let bj = if j < pos { j } else { j - 1 };
                if i == pos {
                    let o = choose|o: int| 0 <= o < n && carets@[o] == before[bj];
                } else if j == pos {
                    let o = choose|o: int| 0 <= o < n && carets@[o] == before[bi];
                } else {
                    assert(before[bi].id != before[bj].id);
                }
            }
        }
        n += 1;
    }
    proof {
        assert(carets@.take(n as int) =~= carets@);
        assert forall|id: RegionId| has_id(carets@, id) implies has_id(sorted@, id) by {
            let k = choose|k: int| 0 <= k < carets@.len() && carets@[k].id == id;
            assert(has_id(sorted@, carets@[k].id));
        }
        assert forall|id: RegionId| has_id(sorted@, id) implies has_id(carets@, id) by {
            let k = choose|k: int| 0 <= k < sorted@.len() && sorted@[k].id == id;
            let j = choose|j: int| 0 <= j < n && carets@[j] == sorted@[k];
            assert(carets@[j].id == id);
        }
    }
    sorted
}

/// Offsets that come from carets which are all among `origin` come from
/// `origin`.
proof fn lemma_offsets_through(after: Seq<Caret>, middle: Seq<Caret>, origin: Seq<Caret>)
    requires
        offsets_from(after, middle),
        forall|k: int|
            0 <= k < middle.len() ==> exists|j: int|
                0 <= j < origin.len() && origin[j] == #[trigger] middle[k],
    ensures
        offsets_from(after, origin),
{
    assert forall|k: int| 0 <= k < after.len() implies #[trigger] caret_from(origin, after[k]) by {
        assert(caret_from(middle, after[k]));
        let head = after[k].region.head;
        let tail = after[k].region.tail;
        let a = choose|j: int|
            0 <= j < middle.len() && ((#[trigger] middle[j]).region.head == head
                || middle[j].region.tail == head);
        let b = choose|j: int|
            0 <= j < middle.len() && ((#[trigger] middle[j]).region.head == tail
                || middle[j].region.tail == tail);
        let ja = choose|j: int| 0 <= j < origin.len() && origin[j] == middle[a];
        let jb = choose|j: int| 0 <= j < origin.len() && origin[j] == middle[b];
        assert(origin[ja].region.head == head || origin[ja].region.tail == head);
        assert(origin[jb].region.head == tail || origin[jb].region.tail == tail);
    }
}

/// One merge keeps what the consistency pass relies on: the handles stay
/// distinct, the primary handle stays that of a caret, the carets before the
/// merged one stay apart, and no handle or offset is made up.
proof fn lemma_merge_step(before: Seq<Caret>, i: int, primary: RegionId, origin: Seq<Caret>)
    requires
        0 <= i,
        i + 1 < before.len(),
        distinct_ids(before),
        has_id(before, primary),
        ordered_upto(before, i),
        offsets_from(before, origin),
        forall|id: RegionId| has_id(before, id) ==> has_id(origin, id),
    ensures
        ({
            let merged = Caret {
                id: before[i].id,
                region: before[i].region.spec_merged_with(before[i + 1].region),
            };
            let now = before.update(i, merged).remove(i + 1);
            let now_primary = if primary == before[i + 1].id {
                before[i].id
            } else {
                primary
            };
            &&& now.len() == before.len() - 1
            &&& distinct_ids(now)
            &&& has_id(now, now_primary)
            &&& ordered_upto(now, i - 1)
            &&& offsets_from(now, origin)
            &&& forall|id: RegionId| has_id(now, id) ==> has_id(origin, id)
        }),
{
    let merged = Caret {
        id: before[i].id,
        region: before[i].region.spec_merged_with(before[i + 1].region),
    };
    let now = before.update(i, merged).remove(i + 1);
    let now_primary = if primary == before[i + 1].id {
        before[i].id
    } else {
        primary
    };
    assert forall|x: int, y: int| 0 <= x < y < now.len() implies now[x].id != now[y].id by {
        let bx = if x <= i { x } else { x + 1 };
        let by = if y <= i { y } else { y + 1 };
        assert(before[bx].id != before[by].id);
    }
    assert(has_id(now, now_primary)) by {
        if primary == before[i + 1].id {
            assert(now[i].id == now_primary);
        } else {
            let j = choose|j: int| 0 <= j < before.len() && before[j].id == primary;
            if j <= i {
                assert(now[j].id == now_primary);
            } else {
                assert(now[j - 1].id == now_primary);
            }
        }
    }
    assert forall|id: RegionId| has_id(now, id) implies has_id(origin, id) by {
        let j = choose|j: int| 0 <= j < now.len() && now[j].id == id;
        let bj = if j <= i { j } else { j + 1 };
        assert(before[bj].id == id);
        assert(has_id(before, id));
    }
    assert forall|k: int| 0 <= k < now.len() implies #[trigger] caret_from(origin, now[k]) by {
        if k == i {
            assert(caret_from(origin, before[i]));
            assert(caret_from(origin, before[i + 1]));
        } else {
            let bk = if k < i { k } else { k + 1 };
            assert(now[k] == before[bk]);
            assert(caret_from(origin, before[bk]));
        }
    }
    assert forall|k: int| 0 <= k < i - 1 && k + 1 < now.len() implies #[trigger] apart(now, k) by {
        assert(apart(before, k));
    }
}

/// Merge every pair of neighbours that touch or overlap. Returns the handle
/// of the primary caret, which changes where the primary caret is merged
/// into another.
fn merge_carets(carets: &mut Vec<Caret>, primary: RegionId) -> (new_primary: RegionId)
    requires
        old(carets)@.len() > 0,
        distinct_ids(old(carets)@),
        has_id(old(carets)@, primary),
    ensures
        (final(carets)@, new_primary) == merge_pass(old(carets)@, primary, 0),
        final(carets)@.len() > 0,
        distinct_ids(final(carets)@),
        has_id(final(carets)@, new_primary),
        ordered(final(carets)@),
        forall|id: RegionId| has_id(final(carets)@, id) ==> has_id(old(carets)@, id),
        offsets_from(final(carets)@, old(carets)@),
{
    let ghost target = merge_pass(carets@, primary, 0);
    let mut primary: RegionId = primary;
    let mut i: usize = 0;
    while i < carets.len() - 1
        invariant
            0 < carets@.len() <= old(carets)@.len(),
            i < carets@.len(),
            distinct_ids(carets@),
            has_id(carets@, primary),
            ordered_upto(carets@, i as int),
            merge_pass(carets@, primary, i as int) == target,
            forall|id: RegionId| has_id(carets@, id) ==> has_id(old(carets)@, id),
            offsets_from(carets@, old(carets)@),
        decreases carets@.len(), carets@.len() - i,
    {
        let a: Caret = carets[i];
        let b: Caret = carets[i + 1];
        if a.region.range().end >= b.region.range().start {
            let merged = Caret { id: a.id, region: a.region.merged_with(&b.region) };
            let ghost before = carets@;
            let ghost primary_before = primary;
            carets.set(i, merged);
            carets.remove(i + 1);
            if primary == b.id {
                primary = a.id;
            }
            proof {
                assert(carets@ =~= before.update(i as int, merged).remove(i + 1));
                lemma_merge_step(before, i as int, primary_before, old(carets)@);
            }
            if i > 0 {
                i -= 1;
            }
        } else {
            assert(apart(carets@, i as int));
            i += 1;
        }
    }
    primary
}

/// Stores all the active carets of a buffer. The carets are kept ordered and
/// apart from one another: after every change, carets that touch or overlap
/// are merged.
#[derive(Debug)]
pub struct BufferRegions {
    regions: HashMap<u128, Region>,
    /// All the active carets, including the primary caret, in the order of
    /// their offsets. Every handle stored here maps to a region.
    carets: Vec<RegionId>,
    /// The primary caret is the caret that remains when multi-caret mode
    /// ends.
    primary_caret_id: RegionId,
}

impl View for BufferRegions {
    type V = RegionsState;

    closed spec fn view(&self) -> RegionsState {
        RegionsState {
            carets: Seq::new(
                self.carets@.len(),
                |i: int| Caret { id: self.carets@[i], region: self.regions@[self.carets@[i].0] },
            ),
            primary: self.primary_caret_id,
        }
    }
}

impl Default for BufferRegions {
    /// One cursor at the start of the text.
    fn default() -> (regions: Self)
        ensures
            regions.wf(),
            regions@.carets.len() == 1,
            regions@.carets[0].region == Region::sticky_cursor(0),
            regions@.primary == regions@.carets[0].id,
    {
        let id = RegionId::gen();
        let mut entries: Vec<Caret> = Vec::new();
        entries.push(Caret { id, region: Region::sticky_cursor(0) });
        proof {
            assert(entries@[0].id == id);
            reveal_with_fuel(sort_by_head, 2);
            assert(entries@.drop_last() =~= Seq::<Caret>::empty());
            assert(sort_by_head(entries@) =~= entries@);
        }
        Self::from_entries(entries, id)
    }
}

impl BufferRegions {
    /// Every caret has a region, and the state is well-formed.
    pub closed spec fn wf(&self) -> bool {
        &&& self@.wf()
        &&& forall|i: int|
            0 <= i < self.carets@.len() ==> self.regions@.contains_key(
                (#[trigger] self.carets@[i]).0,
            )
    }

    /// Well-formed regions have a well-formed state: there is a caret, and
    /// the carets are strictly ordered and apart from one another.
    pub proof fn lemma_wf(&self)
        requires
            self.wf(),
        ensures
            self@.wf(),
    {
    }

    /// The carets with their handles, in order.
    fn entries(&self) -> (entries: Vec<Caret>)
        requires
            self.wf(),
        ensures
            entries@ == self@.carets,
    {
        let mut entries: Vec<Caret> = Vec::new();
        let mut i: usize = 0;
        while i < self.carets.len()
            invariant
                self.wf(),
                i <= self.carets@.len(),
                entries@.len() == i,
                forall|k: int| 0 <= k < i ==> entries@[k] == self@.carets[k],
            decreases self.carets.len() - i,
        {
            let id: RegionId = self.carets[i];
            assert(self.regions@.contains_key(self.carets@[i as int].0));
            let region = self.regions.get(&id.0);
            match region {
                Some(region) => entries.push(Caret { id, region: *region }),
                None => {},
            }
            i += 1;
        }
        assert(entries@ =~= self@.carets);
        entries
    }

    /// The regions that hold `carets` after the consistency pass.
    fn from_entries(carets: Vec<Caret>, primary: RegionId) -> (regions: Self)
        requires
            (RegionsState { carets: carets@, primary }).coherent(),
        ensures
            (RegionsState { carets: carets@, primary }).settles_to(regions@),
            regions.wf(),
    {
        let mut sorted: Vec<Caret> = sort_carets(&carets);
        let ghost sorted_before = sorted@;
        let primary: RegionId = merge_carets(&mut sorted, primary);
        proof {
            lemma_offsets_through(sorted@, sorted_before, carets@);
        }
        let mut regions: HashMap<u128, Region> = HashMap::new();
        let mut ids: Vec<RegionId> = Vec::new();
        let mut i: usize = 0;
        while i < sorted.len()
            invariant
                i <= sorted@.len(),
                distinct_ids(sorted@),
                ids@.len() == i,
                forall|k: int| 0 <= k < i ==> ids@[k] == sorted@[k].id,
                forall|k: int|
                    0 <= k < i ==> regions@.contains_key((#[trigger] sorted@[k]).id.0)
                        && regions@[sorted@[k].id.0] == sorted@[k].region,
            decreases sorted.len() - i,
        {
            let caret: Caret = sorted[i];
            regions.insert(caret.id.0, caret.region);
            ids.push(caret.id);
            assert forall|k: int| 0 <= k < i + 1 implies regions@.contains_key(
                (#[trigger] sorted@[k]).id.0,
            ) && regions@[sorted@[k].id.0] == sorted@[k].region by {
                if k < i {
                    assert(sorted@[k].id != sorted@[i as int].id);
                }
            }
            i += 1;
        }
        let result = BufferRegions { regions, carets: ids, primary_caret_id: primary };
        assert(result@.carets =~= sorted@);
        result
    }

    /// Return all carets in this buffer, ordered and non-overlapping.
    pub fn carets(&self) -> (carets: NonEmpty<Region>)
        requires
            self.wf(),
        ensures
            nonempty_regions(carets) == self@.regions(),
    {
        match regions_from_vec(self.caret_regions()) {
            Some(list) => list,
            None => vstd::pervasive::unreached(),
        }
    }

    /// The regions of all carets in this buffer, ordered and
    /// non-overlapping.
    pub fn caret_regions(&self) -> (regions: Vec<Region>)
        requires
            self.wf(),
        ensures
            regions@ == self@.regions(),
            regions@.len() > 0,
    {
        let entries = self.entries();
        let mut regions: Vec<Region> = Vec::new();
        let mut i: usize = 0;
        while i < entries.len()
            invariant
                i <= entries@.len(),
                regions@.len() == i,
                forall|k: int| 0 <= k < i ==> regions@[k] == entries@[k].region,
            decreases entries.len() - i,
        {
            regions.push(entries[i].region);
            i += 1;
        }
        assert(regions@ =~= self@.regions());
        regions
    }

    /// The region of the primary caret.
    pub fn primary_caret(&self) -> (region: Region)
        requires
            self.wf(),
        ensures
            region == self@.primary_region(),
    {
        let entries = self.entries();
        let mut i: usize = 0;
        while i < entries.len()
            invariant
                i <= entries@.len(),
                entries@ == self@.carets,
                self@.wf(),
                forall|k: int| 0 <= k < i ==> entries@[k].id != self@.primary,
            decreases entries.len() - i,
        {
            if entries[i].id == self.primary_caret_id {
                assert(self@.index_of(self@.primary) == i) by {
                    let j = self@.index_of(self@.primary);
                    if j != i {
                        assert(entries@[j].id == entries@[i as int].id);
                    }
                }
                return entries[i].region;
            }
            i += 1;
        }
        proof {
            let j = self@.index_of(self@.primary);
            assert(entries@[j].id == self@.primary);
        }
        vstd::pervasive::unreached()
    }

    /// Apply `f` to every caret, then merge carets that touch or overlap.
    pub fn update_carets<F: Fn(RegionId, Region) -> Region>(&mut self, f: F)
        requires
            old(self).wf(),
            forall|i: int|
                0 <= i < old(self)@.carets.len() ==> f.requires(
                    ((#[trigger] old(self)@.carets[i]).id, old(self)@.carets[i].region),
                ),
        ensures
            final(self).wf(),
            exists|regions: Seq<Region>|
                {
                    &&& regions.len() == old(self)@.carets.len()
                    &&& forall|i: int|
                        0 <= i < regions.len() ==> f.ensures(
                            (old(self)@.carets[i].id, old(self)@.carets[i].region),
                            #[trigger] regions[i],
                        )
                    &&& old(self)@.with_regions(regions).settles_to(final(self)@)
                },
    {
        let entries = self.entries();
        let mut updated: Vec<Caret> = Vec::new();
        let ghost mut regions: Seq<Region> = Seq::empty();
        let mut i: usize = 0;
        while i < entries.len()
            invariant
                i <= entries@.len(),
                entries@ == old(self)@.carets,
                updated@.len() == i,
                regions.len() == i,
                forall|k: int|
                    0 <= k < entries@.len() ==> f.requires(
                        ((#[trigger] entries@[k]).id, entries@[k].region),
                    ),
                forall|k: int|
                    0 <= k < i ==> (#[trigger] updated@[k]) == (Caret {
                        id: entries@[k].id,
                        region: regions[k],
                    }),
                forall|k: int|
                    0 <= k < i ==> f.ensures(
                        (entries@[k].id, entries@[k].region),
                        #[trigger] regions[k],
                    ),
            decreases entries.len() - i,
        {
            let caret: Caret = entries[i];
            assert(f.requires((entries@[i as int].id, entries@[i as int].region)));
            let region: Region = f(caret.id, caret.region);
            updated.push(Caret { id: caret.id, region });
            proof {
                regions = regions.push(region);
            }
            i += 1;
        }
        proof {
            assert(updated@ =~= old(self)@.with_regions(regions).carets);
            assert forall|x: int, y: int| 0 <= x < y < updated@.len() implies updated@[x].id
                != updated@[y].id by {
                assert(entries@[x].id != entries@[y].id);
            }
            let j = old(self)@.index_of(old(self)@.primary);
            assert(updated@[j].id == old(self)@.primary);
        }
        *self = Self::from_entries(updated, self.primary_caret_id);
    }

    /// Add a caret with a handle of its own. The caret may immediately get
    /// merged into another one.
    pub fn add_caret(&mut self, make_primary: bool, region: Region)
        requires
            old(self).wf(),
        ensures
            final(self).wf(),
            exists|id: RegionId|
                old(self)@.with_caret(id, region, make_primary).settles_to(final(self)@),
    {
        let id = RegionId::gen();
        self.add_caret_with_id(id, make_primary, region);
    }

    /// Add a caret under the handle `id`. Where a caret has that handle
    /// already, that caret is moved to `region` instead.
    pub fn add_caret_with_id(&mut self, id: RegionId, make_primary: bool, region: Region)
        requires
            old(self).wf(),
        ensures
            final(self).wf(),
            old(self)@.with_caret(id, region, make_primary).settles_to(final(self)@),
    {
        let mut entries = self.entries();
        let ghost before = entries@;
        let found = Self::position_of(&entries, id);
        match found {
            Some(i) => {
                assert(old(self)@.index_of(id) == i) by {
                    let j = old(self)@.index_of(id);
                    if j != i {
                        assert(before[j].id == before[i as int].id);
                    }
                }
                entries.set(i, Caret { id, region });
            },
            None => {
                entries.push(Caret { id, region });
            },
        }
        let primary: RegionId = if make_primary { id } else { self.primary_caret_id };
        proof {
            let now = entries@;
            assert forall|x: int, y: int| 0 <= x < y < now.len() implies now[x].id
                != now[y].id by {
                if y < before.len() {
                    assert(before[x].id != before[y].id);
                }
            }
            if make_primary {
                if found is Some {
                    assert(now[found->0 as int].id == id);
                } else {
                    assert(now[now.len() - 1].id == id);
                }
            } else {
                let j = old(self)@.index_of(old(self)@.primary);
                assert(now[j].id == primary);
            }
        }
        *self = Self::from_entries(entries, primary);
    }

    /// The position of the caret with handle `id`, if there is one.
    fn position_of(entries: &Vec<Caret>, id: RegionId) -> (found: Option<usize>)
        ensures
            match found {
                Some(i) => i < entries@.len() && entries@[i as int].id == id,
                None => !has_id(entries@, id),
            },
    {
        let mut i: usize = 0;
        while i < entries.len()
            invariant
                i <= entries@.len(),
                forall|k: int| 0 <= k < i ==> entries@[k].id != id,
            decreases entries.len() - i,
        {
            if entries[i].id == id {
                return Some(i);
            }
            i += 1;
        }
        None
    }

    /// Directly overwrite the primary caret or selection.
    pub fn set_primary_caret(&mut self, region: Region)
        requires
            old(self).wf(),
        ensures
            final(self).wf(),
            old(self)@.with_primary_region(region).settles_to(final(self)@),
    {
        let mut entries = self.entries();
        let ghost before = entries@;
        let id: RegionId = self.primary_caret_id;
        match Self::position_of(&entries, id) {
            Some(i) => {
                assert(old(self)@.index_of(id) == i) by {
                    let j = old(self)@.index_of(id);
                    if j != i {
                        assert(before[j].id == before[i as int].id);
                    }
                }
                entries.set(i, Caret { id, region });
                proof {
                    let now = entries@;
                    assert forall|x: int, y: int| 0 <= x < y < now.len() implies now[x].id
                        != now[y].id by {
                        assert(before[x].id != before[y].id);
                    }
                    assert(now[i as int].id == id);
                }
                *self = Self::from_entries(entries, id);
            },
            None => {
                proof {
                    let j = old(self)@.index_of(id);
                    assert(before[j].id == id);
                }
            },
        }
    }

    /// Turn every selection into a cursor at its head.
    pub fn collapse_selections(&mut self)
        requires
            old(self).wf(),
        ensures
            final(self).wf(),
            old(self)@.collapsed().settles_to(final(self)@),
    {
        let collapse = |id: RegionId, caret: Region| -> (out: Region)
            ensures
                out == (Region { tail: caret.head, ..caret }),
            { Region { tail: caret.head, ..caret } };
        self.update_carets(collapse);
        proof {
            let regions = choose|regions: Seq<Region>|
                {
                    &&& regions.len() == old(self)@.carets.len()
                    &&& forall|i: int|
                        0 <= i < regions.len() ==> collapse.ensures(
                            (old(self)@.carets[i].id, old(self)@.carets[i].region),
                            #[trigger] regions[i],
                        )
                    &&& old(self)@.with_regions(regions).settles_to(final(self)@)
                };
            assert(old(self)@.with_regions(regions).carets =~= old(self)@.collapsed().carets);
        }
    }

    /// Discard every caret except the primary one.
    pub fn collapse_carets_into_primary(&mut self)
        requires
            old(self).wf(),
        ensures
            final(self).wf(),
            final(self)@ == old(self)@.only_primary(),
    {
        let region = self.primary_caret();
        let id: RegionId = self.primary_caret_id;
        let mut entries: Vec<Caret> = Vec::new();
        entries.push(Caret { id, region });
        proof {
            assert(entries@ =~= old(self)@.only_primary().carets);
            assert(entries@[0].id == id);
            reveal_with_fuel(sort_by_head, 2);
            assert(entries@.drop_last() =~= Seq::<Caret>::empty());
            assert(sort_by_head(entries@) =~= entries@);
        }
        *self = Self::from_entries(entries, id);
    }

    /// Carry every caret over to the text that the transformer's delta
    /// makes, then merge carets that touch or overlap.
    pub fn apply_transformer(&mut self, transformer: &mut Transformer)
        requires
            old(self).wf(),
            forall|i: int|
                0 <= i < old(self)@.carets.len() ==> old(transformer).accepts(
                    (#[trigger] old(self)@.carets[i]).region.head,
                ) && old(transformer).accepts(old(self)@.carets[i].region.tail),
        ensures
            final(self).wf(),
            old(self)@.transformed(old(transformer).ops()).settles_to(final(self)@),
            final(transformer).ops() == old(transformer).ops(),
    {
        let entries = self.entries();
        let ghost ops = transformer.ops();
        let mut moved: Vec<Caret> = Vec::new();
        let mut i: usize = 0;
        while i < entries.len()
            invariant
                i <= entries@.len(),
                entries@ == old(self)@.carets,
                transformer.ops() == ops,
                ops == old(transformer).ops(),
                forall|k: int|
                    0 <= k < entries@.len() ==> old(transformer).accepts(
                        (#[trigger] entries@[k]).region.head,
                    ) && old(transformer).accepts(entries@[k].region.tail),
                moved@.len() == i,
                forall|k: int|
                    0 <= k < i ==> (#[trigger] moved@[k]) == (Caret {
                        id: entries@[k].id,
                        region: entries@[k].region.transformed(ops),
                    }),
            decreases entries.len() - i,
        {
            let caret: Caret = entries[i];
            let mut region: Region = caret.region;
            assert(old(transformer).accepts(entries@[i as int].region.head));
            region.apply_transformer(transformer);
            moved.push(Caret { id: caret.id, region });
            i += 1;
        }
        proof {
            assert(moved@ =~= old(self)@.transformed(ops).carets);
            assert forall|x: int, y: int| 0 <= x < y < moved@.len() implies moved@[x].id
                != moved@[y].id by {
                assert(entries@[x].id != entries@[y].id);
            }
            let j = old(self)@.index_of(old(self)@.primary);
            assert(moved@[j].id == old(self)@.primary);
        }
        *self = Self::from_entries(moved, self.primary_caret_id);
    }

    /// Carry every caret over to the text that a delta makes, then merge
    /// carets that touch or overlap.
    pub fn apply_delta(&mut self, delta: &Delta)
        requires
            old(self).wf(),
            ops_ordered(delta@),
            forall|i: int|
                0 <= i < old(self)@.carets.len() ==> ops_len(delta@) + (
                #[trigger] old(self)@.carets[i]).region.head <= usize::MAX && ops_len(delta@)
                    + old(self)@.carets[i].region.tail <= usize::MAX,
        ensures
            final(self).wf(),
            old(self)@.transformed(delta@).settles_to(final(self)@),
    {
        let mut transformer = Transformer::new(delta);
        self.apply_transformer(&mut transformer);
    }

    /// Apply `f` to every region, then merge carets that touch or overlap.
    /// Every region of a buffer is a caret.
    pub fn update_regions<F: Fn(RegionId, Region) -> Region>(&mut self, f: F)
        requires
            old(self).wf(),
            forall|i: int|
                0 <= i < old(self)@.carets.len() ==> f.requires(
                    ((#[trigger] old(self)@.carets[i]).id, old(self)@.carets[i].region),
                ),
        ensures
            final(self).wf(),
            exists|regions: Seq<Region>|
                {
                    &&& regions.len() == old(self)@.carets.len()
                    &&& forall|i: int|
                        0 <= i < regions.len() ==> f.ensures(
                            (old(self)@.carets[i].id, old(self)@.carets[i].region),
                            #[trigger] regions[i],
                        )
                    &&& old(self)@.with_regions(regions).settles_to(final(self)@)
                },
    {
        self.update_carets(f)
    }
}

} // verus!
