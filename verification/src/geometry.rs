use vstd::prelude::*;

use crate::error::{Error, Result};

verus! {

/// Size and block sizes of a disk.  Both block sizes are positive and the
/// physical block size is a multiple of the logical one.
#[derive(Debug, Clone, Copy, PartialEq, Eq, Structural)]
pub struct DiskGeometry {
    size: u64,
    logical_block_size: u32,
    physical_block_size: u32,
}

impl DiskGeometry {
    #[verifier::type_invariant]
    spec fn block_sizes_valid(self) -> bool {
        &&& self.logical_block_size > 0
        &&& self.physical_block_size > 0
        &&& self.physical_block_size % self.logical_block_size == 0
    }

    /// The geometry with these fields (meaningful for valid block sizes).
    pub closed spec fn spec_new(size: u64, logical_block_size: u32, physical_block_size: u32) -> DiskGeometry {
        DiskGeometry { size, logical_block_size, physical_block_size }
    }

    /// What the getters report of `spec_new`.
    pub proof fn lemma_spec_new(size: u64, logical_block_size: u32, physical_block_size: u32)
        ensures
            DiskGeometry::spec_new(size, logical_block_size, physical_block_size).size() == size,
            DiskGeometry::spec_new(size, logical_block_size, physical_block_size).logical_block_size()
                == logical_block_size,
            DiskGeometry::spec_new(size, logical_block_size, physical_block_size).physical_block_size()
                == physical_block_size,
    {
    }

    pub closed spec fn spec_size(&self) -> u64 {
        self.size
    }

    pub closed spec fn spec_logical_block_size(&self) -> u32 {
        self.logical_block_size
    }

    pub closed spec fn spec_physical_block_size(&self) -> u32 {
        self.physical_block_size
    }

    /// Builds a geometry.  A zero block size, or a physical block size that
    /// is not a multiple of the logical one, is an invalid alignment.
    pub fn new(size: u64, logical_block_size: u32, physical_block_size: u32) -> (r: Result<
        DiskGeometry,
    >)
        ensures
            logical_block_size == 0 ==> (r matches Err(
                Error::InvalidAlignment { value: v, alignment: a },
            ) && v == 0 && a == 1),
            logical_block_size > 0 && physical_block_size == 0 ==> (r matches Err(
                Error::InvalidAlignment { value: v, alignment: a },
            ) && v == 0 && a == 1),
            logical_block_size > 0 && physical_block_size > 0 && physical_block_size
                % logical_block_size != 0 ==> (r matches Err(
                Error::InvalidAlignment { value: v, alignment: a },
            ) && v == physical_block_size && a == logical_block_size),
            logical_block_size > 0 && physical_block_size > 0 && physical_block_size
                % logical_block_size == 0 ==> (r matches Ok(g) && g == DiskGeometry::spec_new(
                size,
                logical_block_size,
                physical_block_size,
            ) && g.size() == size
                && g.logical_block_size() == logical_block_size && g.physical_block_size()
                == physical_block_size),
    {
        if logical_block_size == 0 {
            return Err(
                Error::InvalidAlignment { value: logical_block_size as u64, alignment: 1 },
            );
        }
        if physical_block_size == 0 {
            return Err(
                Error::InvalidAlignment { value: physical_block_size as u64, alignment: 1 },
            );
        }
        if physical_block_size % logical_block_size != 0 {
            return Err(
                Error::InvalidAlignment {
                    value: physical_block_size as u64,
                    alignment: logical_block_size as u64,
                },
            );
        }
        Ok(DiskGeometry { size, logical_block_size, physical_block_size })
    }

    /// Disk size in bytes.
    #[verifier::when_used_as_spec(spec_size)]
    pub fn size(&self) -> (s: u64)
        ensures
            s == self.spec_size(),
    {
        self.size
    }

    #[verifier::when_used_as_spec(spec_logical_block_size)]
    pub fn logical_block_size(&self) -> (s: u32)
        ensures
            s == self.spec_logical_block_size(),
            s > 0,
    {
        proof {
            use_type_invariant(self);
        }
        self.logical_block_size
    }

    #[verifier::when_used_as_spec(spec_physical_block_size)]
    pub fn physical_block_size(&self) -> (s: u32)
        ensures
            s == self.spec_physical_block_size(),
            s > 0,
            s % self.spec_logical_block_size() == 0,
    {
        proof {
            use_type_invariant(self);
        }
        self.physical_block_size
    }
}

} // verus!
