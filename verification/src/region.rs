//! Regions: cursors and selections that move with the text around them.

use crate::delta::transform_offset;
use crate::delta::Transformer;
use core::ops::Range;
use uuid::Uuid;
use vstd::prelude::*;

verus! {

/// A stable handle to a region. It stays valid when other regions are merged
/// or removed.
#[derive(Debug, Clone, Copy, PartialEq, Eq, Structural, Hash)]
pub struct RegionId(pub(crate) u128);

/// The bits are those of a random UUID: they carry the version 4 and the
/// variant of RFC 4122, and nothing is said of the others.
pub open spec fn is_random_uuid(bits: u128) -> bool {
    (bits >> 76) & 0xf == 4 && (bits >> 62) & 0x3 == 2
}

/// `Uuid::new_v4` of the uuid crate, as the 128 bits it is made of. The bits
/// are random, but for the version and the variant that it sets.
#[verifier::external_body]
fn random_uuid_bits() -> (bits: u128)
    ensures
        is_random_uuid(bits),
{
    Uuid::new_v4().as_u128()
}

impl RegionId {
    /// A new identifier, drawn at random: the bits of a random UUID.
    pub fn gen() -> (id: RegionId)
        ensures
            is_random_uuid(id.spec_bits()),
    {
        RegionId(random_uuid_bits())
    }

    /// The 128 bits of the identifier.
    pub closed spec fn spec_bits(self) -> u128 {
        self.0
    }

    /// The identifier of the given 128 bits.
    pub fn from_bits(bits: u128) -> (id: RegionId)
        ensures
            id.spec_bits() == bits,
    {
        RegionId(bits)
    }

    /// The 128 bits of the identifier.
    pub fn bits(&self) -> (bits: u128)
        ensures
            bits == self.spec_bits(),
    {
        self.0
    }
}

/// What an offset at the exact point of an insertion does.
#[derive(Debug, Clone, Copy, PartialEq, Eq, Structural)]
pub enum Stickyness {
    /// The offset moves with the inserted text and ends up behind it.
    Sticky,
    /// The offset stays before the inserted text.
    NonSticky,
}

impl Default for Stickyness {
    fn default() -> (s: Self)
        ensures
            s == Stickyness::Sticky,
    {
        Stickyness::Sticky
    }
}

/// A region represents a range in a buffer that moves when the text around
/// it moves: a cursor, a selection, or any other position within a text.
///
/// `head` and `tail` are offsets into the text and need not be ordered. The
/// `head` is the end that the user moves when extending a selection, the
/// `tail` is the anchor. A region `<2..4>` spans the bytes at index 2 and 3.
#[derive(Debug, Clone, Copy, PartialEq, Eq, Structural)]
pub struct Region {
    pub head: usize,
    pub tail: usize,
    pub stickyness: Stickyness,
    /// The column that vertical motion aims for, kept while the region moves
    /// through lines that are shorter.
    pub preferred_column: Option<usize>,
}

impl Default for Region {
    fn default() -> (r: Self)
        ensures
            r == Region::sticky_cursor(0),
    {
        Region::sticky_cursor(0)
    }
}

impl Region {
    /// The smaller of head and tail.
    pub open spec fn start(self) -> usize {
        if self.head <= self.tail {
            self.head
        } else {
            self.tail
        }
    }

    /// The larger of head and tail.
    pub open spec fn end(self) -> usize {
        if self.head <= self.tail {
            self.tail
        } else {
            self.head
        }
    }

    /// The region ends before `other` begins, without touching it.
    pub open spec fn is_strictly_before(self, other: Region) -> bool {
        self.end() < other.start()
    }

    /// The region with its head and tail carried through a delta.
    pub open spec fn transformed(self, ops: Seq<crate::delta::DeltaOp>) -> Region {
        let after = self.stickyness == Stickyness::Sticky;
        Region {
            head: transform_offset(ops, self.head, after) as usize,
            tail: transform_offset(ops, self.tail, after) as usize,
            ..self
        }
    }

    #[verifier::when_used_as_spec(spec_sticky_cursor)]
    pub fn sticky_cursor(offset: usize) -> (r: Self)
        ensures
            r == Self::spec_sticky_cursor(offset),
    {
        Self { head: offset, tail: offset, stickyness: Stickyness::Sticky, preferred_column: None }
    }

    pub open spec fn spec_sticky_cursor(offset: usize) -> Self {
        Region { head: offset, tail: offset, stickyness: Stickyness::Sticky, preferred_column: None }
    }

    /// A sticky selection from `tail` to `head`.
    pub fn sticky(head: usize, tail: usize) -> (r: Self)
        ensures
            r == (Region { head, tail, stickyness: Stickyness::Sticky, preferred_column: None }),
    {
        Self { head, tail, stickyness: Stickyness::Sticky, preferred_column: None }
    }

    /// Carry head and tail over to the text that the transformer's delta
    /// makes. A sticky region moves behind text inserted at its offsets.
    pub fn apply_transformer(&mut self, transformer: &mut Transformer)
        requires
            old(transformer).accepts(old(self).head),
            old(transformer).accepts(old(self).tail),
        ensures
            *final(self) == old(self).transformed(old(transformer).ops()),
            final(transformer).ops() == old(transformer).ops(),
    {
        let after: bool = matches!(self.stickyness, Stickyness::Sticky);
        self.head = transformer.transform(self.head, after);
        self.tail = transformer.transform(self.tail, after);
    }

    /// The head and tail in order of offset.
    pub fn range(&self) -> (r: Range<usize>)
        ensures
            r.start == self.start(),
            r.end == self.end(),
    {
        if self.head <= self.tail {
            self.head..self.tail
        } else {
            self.tail..self.head
        }
    }

    /// The region that spans this one and `other`. It keeps what this one
    /// has besides its offsets, and the direction in which this one points.
    pub fn merged_with(&self, other: &Region) -> (r: Region)
        ensures
            r == self.spec_merged_with(*other),
    {
        let a = self.range();
        let b = other.range();
        let start: usize = if a.start <= b.start { a.start } else { b.start };
        let end: usize = if a.end >= b.end { a.end } else { b.end };
        if self.head >= self.tail {
            Region { head: end, tail: start, stickyness: self.stickyness, preferred_column: self.preferred_column }
        } else {
            Region { head: start, tail: end, stickyness: self.stickyness, preferred_column: self.preferred_column }
        }
    }

    pub open spec fn spec_merged_with(self, other: Region) -> Region {
        let start = if self.start() <= other.start() { self.start() } else { other.start() };
        let end = if self.end() >= other.end() { self.end() } else { other.end() };
        if self.head >= self.tail {
            Region { head: end, tail: start, ..self }
        } else {
            Region { head: start, tail: end, ..self }
        }
    }
}

} // verus!
