use vstd::prelude::*;

use crate::error::{Error, Result};
use crate::range::DiskRange;

verus! {

/// What a region of a disk holds.
#[derive(Debug, Clone, Copy, PartialEq, Eq, Hash, Structural)]
pub enum ExtentKind {
    /// Allocated bytes that must be copied.
    Data,
    /// Allocated bytes that read as zero.
    Zero,
    /// Unallocated bytes, which read as zero.
    Hole,
}

/// A non-empty, typed region of a disk.
#[derive(Debug, Clone, Copy, PartialEq, Eq, Hash, Structural)]
pub struct Extent {
    range: DiskRange,
    kind: ExtentKind,
}

impl Extent {
    #[verifier::type_invariant]
    spec fn non_empty(self) -> bool {
        self.range.length() > 0
    }

    /// The extent of `kind` over `[offset, offset + length)`.
    pub closed spec fn spec_new(offset: u64, length: u64, kind: ExtentKind) -> Extent {
        Extent { range: DiskRange::spec_new(offset, length), kind }
    }

    /// An extent is its offset, its length and its kind.
    pub proof fn lemma_spec_new(offset: u64, length: u64, kind: ExtentKind)
        ensures
            Extent::spec_new(offset, length, kind).spec_offset() == offset,
            Extent::spec_new(offset, length, kind).spec_length() == length,
            Extent::spec_new(offset, length, kind).spec_kind() == kind,
    {
        DiskRange::lemma_spec_new(offset, length);
    }

    pub closed spec fn spec_range(&self) -> DiskRange {
        self.range
    }

    pub closed spec fn spec_kind(&self) -> ExtentKind {
        self.kind
    }

    pub open spec fn spec_offset(&self) -> u64 {
        self.spec_range().offset()
    }

    pub open spec fn spec_length(&self) -> u64 {
        self.spec_range().length()
    }

    /// One past the last byte, as a mathematical integer.
    pub open spec fn spec_end(&self) -> int {
        self.spec_offset() + self.spec_length()
    }

    /// Builds an extent; a zero length is refused as corrupt metadata, an
    /// end past `u64::MAX` as a range overflow.
    pub fn new(offset: u64, length: u64, kind: ExtentKind) -> (r: Result<Extent>)
        ensures
            length == 0 ==> r matches Err(Error::CorruptMetadata(_)),
            length > 0 && offset + length > u64::MAX ==> (r matches Err(
                Error::RangeOverflow { offset: o, length: l },
            ) && o == offset && l == length),
            length > 0 && offset + length <= u64::MAX ==> (r matches Ok(e) && e.offset() == offset
                && e.length() == length && e.kind() == kind && e == Extent::spec_new(
                offset,
                length,
                kind,
            )),
    {
        if length == 0 {
            return Err(Error::CorruptMetadata("extent length cannot be zero".to_owned()));
        }
        let range = DiskRange::new(offset, length)?;
        Ok(Extent { range, kind })
    }

    /// The byte range the extent covers.
    #[verifier::when_used_as_spec(spec_range)]
    pub fn range(&self) -> (r: DiskRange)
        ensures
            r == self.spec_range(),
    {
        self.range
    }

    #[verifier::when_used_as_spec(spec_offset)]
    pub fn offset(&self) -> (o: u64)
        ensures
            o == self.spec_offset(),
            self.spec_length() > 0,
            self.spec_end() <= u64::MAX,
    {
        proof {
            use_type_invariant(self);
        }
        self.range.offset()
    }

    #[verifier::when_used_as_spec(spec_length)]
    pub fn length(&self) -> (l: u64)
        ensures
            l == self.spec_length(),
            l > 0,
            self.spec_end() <= u64::MAX,
    {
        proof {
            use_type_invariant(self);
        }
        self.range.length()
    }

    /// One past the last byte of the extent.
    pub fn end(&self) -> (e: u64)
        ensures
            e == self.spec_end(),
            self.spec_length() > 0,
    {
        proof {
            use_type_invariant(self);
        }
        self.range.end()
    }

    #[verifier::when_used_as_spec(spec_kind)]
    pub fn kind(&self) -> (k: ExtentKind)
        ensures
            k == self.spec_kind(),
    {
        self.kind
    }
}

} // verus!
