use vstd::prelude::*;

verus! {

/// What a unit of work does to its range of the destination.
#[derive(Debug, Clone, Copy, PartialEq, Eq, Structural)]
pub enum WorkKind {
    /// Copy the source bytes.
    Copy,
    /// Make the bytes zero.
    Zero,
    /// Deallocate the bytes, leaving them reading as zero.
    Discard,
}

/// One block-sized unit of a copy: a range and what to do with it.
#[derive(Debug, Clone, Copy, PartialEq, Eq, Structural)]
pub struct WorkItem {
    pub offset: u64,
    pub length: usize,
    pub kind: WorkKind,
}

impl WorkItem {
    pub fn new(offset: u64, length: usize, kind: WorkKind) -> (w: WorkItem)
        ensures
            w == (WorkItem { offset, length, kind }),
    {
        WorkItem { offset, length, kind }
    }

    pub fn offset(&self) -> (o: u64)
        ensures
            o == self.offset,
    {
        self.offset
    }

    pub fn length(&self) -> (l: usize)
        ensures
            l == self.length,
    {
        self.length
    }

    pub fn kind(&self) -> (k: WorkKind)
        ensures
            k == self.kind,
    {
        self.kind
    }
}

} // verus!
