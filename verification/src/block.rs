//! Byte ranges inside a single file.

use vstd::prelude::*;

verus! {

/// A half-open byte range `[offset, offset + size)` inside one file.
#[derive(Debug, Clone, Copy, PartialEq, Eq, Structural)]
pub struct FileBlock {
    pub offset: u64,
    pub size: u64,
}

impl FileBlock {
    /// The first byte position after the block.
    pub open spec fn end(self) -> int {
        self.offset + self.size
    }

    /// `self` covers every byte of `other`, both taken in the same file.
    pub open spec fn covers(self, other: FileBlock) -> bool {
        self.offset <= other.offset && self.end() >= other.end()
    }

    /// Whether `self` covers `other`. Both blocks are read as ranges of the
    /// same file; which file that is plays no part.
    pub fn contains(&self, other: &Self) -> (covered: bool)
        ensures
            covered == self.covers(*other),
    {
        let self_end: u128 = self.offset as u128 + self.size as u128;
        let other_end: u128 = other.offset as u128 + other.size as u128;
        self.offset <= other.offset && self_end >= other_end
    }
}

/// Every block covers itself.
pub proof fn lemma_covers_reflexive(x: FileBlock)
    ensures
        x.covers(x),
{
}

/// Two blocks that cover each other are the same block.
pub proof fn lemma_covers_antisymmetric(a: FileBlock, b: FileBlock)
    requires
        a.covers(b),
        b.covers(a),
    ensures
        a == b,
{
}

} // verus!
