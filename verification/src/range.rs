use vstd::prelude::*;

use crate::error::{Error, Result};

verus! {

/// A byte range `[offset, offset + length)` on a disk whose end fits in `u64`.
#[derive(Debug, Clone, Copy, PartialEq, Eq, Hash, Structural)]
pub struct DiskRange {
    offset: u64,
    length: u64,
}

impl DiskRange {
    #[verifier::type_invariant]
    spec fn end_fits(self) -> bool {
        self.offset + self.length <= u64::MAX
    }

    /// Builds the range, refusing one whose end overflows `u64`.
    pub fn new(offset: u64, length: u64) -> (r: Result<DiskRange>)
        ensures
            offset + length <= u64::MAX ==> (r matches Ok(range) && range.offset() == offset
                && range.length() == length && range == DiskRange::spec_new(offset, length)),
            offset + length > u64::MAX ==> (r matches Err(Error::RangeOverflow { offset: o, length: l })
                && o == offset && l == length),
    {
        match offset.checked_add(length) {
            Some(_) => Ok(DiskRange { offset, length }),
            None => Err(Error::RangeOverflow { offset, length }),
        }
    }

    /// The range `[offset, offset + length)`.
    pub closed spec fn spec_new(offset: u64, length: u64) -> DiskRange {
        DiskRange { offset, length }
    }

    /// A range is its offset and its length.
    pub proof fn lemma_spec_new(offset: u64, length: u64)
        ensures
            DiskRange::spec_new(offset, length).spec_offset() == offset,
            DiskRange::spec_new(offset, length).spec_length() == length,
    {
    }

    pub closed spec fn spec_offset(&self) -> u64 {
        self.offset
    }

    pub closed spec fn spec_length(&self) -> u64 {
        self.length
    }

    /// First byte of the range.
    #[verifier::when_used_as_spec(spec_offset)]
    pub fn offset(&self) -> (o: u64)
        ensures
            o == self.spec_offset(),
            self.spec_offset() + self.spec_length() <= u64::MAX,
    {
        proof {
            use_type_invariant(self);
        }
        self.offset
    }

    /// Number of bytes in the range.
    #[verifier::when_used_as_spec(spec_length)]
    pub fn length(&self) -> (l: u64)
        ensures
            l == self.spec_length(),
            self.spec_offset() + self.spec_length() <= u64::MAX,
    {
        proof {
            use_type_invariant(self);
        }
        self.length
    }

    /// One past the last byte of the range.
    pub fn end(&self) -> (e: u64)
        ensures
            e == self.offset() + self.length(),
    {
        proof {
            use_type_invariant(self);
        }
        self.offset + self.length
    }
}

} // verus!
