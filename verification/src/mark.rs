//! Marks: single positions that move with the text around them.

use crate::delta::transform_offset;
use crate::delta::Transformer;
use vstd::prelude::*;

verus! {

/// A stable handle to a mark.
#[derive(Debug, Clone, Copy, PartialEq, Eq, Structural, Hash)]
pub struct MarkId(pub(crate) u128);

impl MarkId {
    /// The 128 bits of the handle.
    pub closed spec fn spec_bits(self) -> u128 {
        self.0
    }

    /// The handle of the given 128 bits.
    pub fn from_bits(bits: u128) -> (id: MarkId)
        ensures
            id.spec_bits() == bits,
    {
        MarkId(bits)
    }
}

/// What a mark at the exact point of an insertion does.
#[derive(Debug, Clone, Copy, PartialEq, Eq, Structural)]
pub enum MarkKind {
    /// The mark moves with the inserted text and ends up behind it.
    Sticky,
    /// The mark stays before the inserted text.
    NonSticky,
}

impl Default for MarkKind {
    fn default() -> (k: Self)
        ensures
            k == MarkKind::Sticky,
    {
        MarkKind::Sticky
    }
}

/// A mark represents a known position in a buffer that moves when the text
/// around it moves.
#[derive(Debug, Clone, Copy, PartialEq, Eq, Structural)]
pub struct Mark {
    pub offset: usize,
    pub kind: MarkKind,
}

impl Default for Mark {
    fn default() -> (m: Self)
        ensures
            m == (Mark { offset: 0, kind: MarkKind::Sticky }),
    {
        Mark { offset: 0, kind: MarkKind::Sticky }
    }
}

impl Mark {
    pub fn sticky(offset: usize) -> (m: Self)
        ensures
            m == (Mark { offset, kind: MarkKind::Sticky }),
    {
        Self { offset, kind: MarkKind::Sticky }
    }

    pub fn non_sticky(offset: usize) -> (m: Self)
        ensures
            m == (Mark { offset, kind: MarkKind::NonSticky }),
    {
        Self { offset, kind: MarkKind::NonSticky }
    }

    /// Carry the mark over to the text that the transformer's delta makes.
    pub fn apply_transformer(&mut self, transformer: &mut Transformer)
        requires
            old(transformer).accepts(old(self).offset),
        ensures
            final(self).kind == old(self).kind,
            final(self).offset == transform_offset(
                old(transformer).ops(),
                old(self).offset,
                old(self).kind == MarkKind::Sticky,
            ),
            final(transformer).ops() == old(transformer).ops(),
    {
        let after: bool = matches!(self.kind, MarkKind::Sticky);
        self.offset = transformer.transform(self.offset, after);
    }
}

} // verus!
