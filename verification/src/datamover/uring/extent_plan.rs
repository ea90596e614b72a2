use vstd::prelude::*;

use crate::datamover::extent_validation::{tiles, validate_extents};
use crate::error::{Error, Result};
use crate::extent::{Extent, ExtentKind};

verus! {

/// A checked extent map for native execution: the extents tile
/// `[0, disk_size)` in order.
#[derive(Debug, Clone, PartialEq, Eq)]
pub struct NativeExtentPlan {
    extents: Vec<Extent>,
    disk_size: u64,
}

/// Every extent of `extents` is data.
pub open spec fn all_data(extents: Seq<Extent>) -> bool {
    forall|i: int| 0 <= i < extents.len() ==> #[trigger] extents[i].spec_kind() == ExtentKind::Data
}

impl NativeExtentPlan {
    pub closed spec fn spec_extents(&self) -> Seq<Extent> {
        self.extents@
    }

    pub closed spec fn spec_disk_size(&self) -> u64 {
        self.disk_size
    }

    /// Well formed: the extents tile the disk.
    pub closed spec fn wf(&self) -> bool {
        tiles(self.extents@, self.disk_size as int)
    }

    /// A plan of `extents` over a disk of `disk_size` bytes; a map that does
    /// not tile the disk is corrupt metadata.
    pub fn new(extents: Vec<Extent>, disk_size: u64) -> (r: Result<NativeExtentPlan>)
        ensures
            r is Ok <==> tiles(extents@, disk_size as int),
            r is Err ==> r matches Err(Error::CorruptMetadata(_)),
            r matches Ok(p) ==> p.wf() && p.spec_extents() == extents@ && p.disk_size()
                == disk_size,
    {
        validate_extents(extents.as_slice(), disk_size)?;
        Ok(NativeExtentPlan { extents, disk_size })
    }

    pub fn extents(&self) -> (e: &[Extent])
        ensures
            e@ == self.spec_extents(),
    {
        self.extents.as_slice()
    }

    #[verifier::when_used_as_spec(spec_disk_size)]
    pub fn disk_size(&self) -> (s: u64)
        ensures
            s == self.spec_disk_size(),
    {
        self.disk_size
    }

    pub fn len(&self) -> (n: usize)
        ensures
            n == self.spec_extents().len(),
    {
        self.extents.len()
    }

    pub fn is_empty(&self) -> (b: bool)
        ensures
            b == (self.spec_extents().len() == 0),
    {
        self.extents.len() == 0
    }

    /// Whether every extent is data, so the whole plan can be read and
    /// written as it is.
    pub fn is_data_only(&self) -> (b: bool)
        ensures
            b == all_data(self.spec_extents()),
    {
        let mut i: usize = 0;
        while i < self.extents.len()
            invariant
                i <= self.extents@.len(),
                forall|k: int| 0 <= k < i ==> #[trigger] self.extents@[k].spec_kind() == ExtentKind::Data,
            decreases self.extents@.len() - i,
        {
            if self.extents[i].kind() != ExtentKind::Data {
                return false;
            }
            i = i + 1;
        }
        true
    }
}

} // verus!
