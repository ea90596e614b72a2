use vstd::prelude::*;

use crate::error::{numbers_message, Error, Result};
use crate::extent::Extent;

verus! {

/// `extents` cover `[0, disk_size)` exactly once, in order: each extent is
/// non-empty and starts where the previous one ended, the first at zero and
/// the last ending at `disk_size`.  A zero-sized disk has no extents.
pub open spec fn tiles(extents: Seq<Extent>, disk_size: int) -> bool {
    &&& forall|i: int| 0 <= i < extents.len() ==> #[trigger] extents[i].spec_length() > 0
    &&& forall|i: int|
        0 <= i < extents.len() ==> #[trigger] extents[i].spec_offset() == if i == 0 {
            0
        } else {
            extents[i - 1].spec_end()
        }
    &&& if extents.len() == 0 {
        disk_size == 0
    } else {
        extents[extents.len() - 1].spec_end() == disk_size
    }
}

/// In a tiling map every extent ends at or before the disk end, after the
/// ends of those before it.
pub proof fn lemma_tiles_ends(extents: Seq<Extent>, disk_size: int)
    requires
        tiles(extents, disk_size),
    ensures
        forall|i: int, j: int|
            0 <= i <= j < extents.len() ==> #[trigger] extents[i].spec_end()
                <= #[trigger] extents[j].spec_end(),
        forall|i: int| 0 <= i < extents.len() ==> #[trigger] extents[i].spec_end() <= disk_size,
{
    assert forall|i: int, j: int| 0 <= i <= j < extents.len() implies #[trigger] extents[i].spec_end()
        <= #[trigger] extents[j].spec_end() by {
        lemma_ends_grow(extents, disk_size, i, j);
    }
    assert forall|i: int| 0 <= i < extents.len() implies #[trigger] extents[i].spec_end()
        <= disk_size by {
        lemma_ends_grow(extents, disk_size, i, extents.len() - 1);
    }
}

proof fn lemma_ends_grow(extents: Seq<Extent>, disk_size: int, i: int, j: int)
    requires
        tiles(extents, disk_size),
        0 <= i <= j < extents.len(),
    ensures
        extents[i].spec_end() <= extents[j].spec_end(),
    decreases j - i,
{
    if i < j {
        lemma_ends_grow(extents, disk_size, i, j - 1);
        assert(extents[j].spec_offset() == extents[j - 1].spec_end());
        assert(extents[j].spec_length() > 0);
    }
}

/// Checks that an extent map covers `[0, disk_size)` exactly, in order; any
/// other map is corrupt metadata.
pub fn validate_extents(extents: &[Extent], disk_size: u64) -> (r: Result<()>)
    ensures
        r is Ok <==> tiles(extents@, disk_size as int),
        r is Err ==> r matches Err(Error::CorruptMetadata(_)),
{
    if disk_size == 0 {
        if extents.len() == 0 {
            return Ok(());
        }
        // The first extent is not empty, so the map cannot tile an empty
        // disk; its length getter says so.
        let _first_length = extents[0].length();
        return Err(Error::CorruptMetadata("zero-sized disk returned extents".to_owned()));
    }
    if extents.len() == 0 {
        return Err(Error::CorruptMetadata("non-empty disk returned no extents".to_owned()));
    }
    let mut expected_offset: u64 = 0;
    let mut i: usize = 0;
    while i < extents.len()
        invariant
            0 <= i <= extents@.len(),
            extents@.len() > 0,
            disk_size > 0,
            expected_offset <= disk_size,
            i == 0 ==> expected_offset == 0,
            i > 0 ==> expected_offset == extents@[i - 1].spec_end(),
            forall|k: int| 0 <= k < i ==> #[trigger] extents@[k].spec_length() > 0,
            forall|k: int|
                0 <= k < i ==> #[trigger] extents@[k].spec_offset() == if k == 0 {
                    0
                } else {
                    extents@[k - 1].spec_end()
                },
        decreases extents@.len() - i,
    {
        let extent = &extents[i];
        let offset = extent.offset();
        if offset != expected_offset {
            return Err(
                Error::CorruptMetadata(
                    numbers_message(
                        "invalid extent map: expected offset ",
                        expected_offset,
                        ", got ",
                        offset,
                    ),
                ),
            );
        }
        let end = extent.end();
        if end > disk_size {
            proof {
                if tiles(extents@, disk_size as int) {
                    lemma_tiles_ends(extents@, disk_size as int);
                    assert(extents@[i as int].spec_end() <= disk_size);
                }
            }
            return Err(
                Error::CorruptMetadata(
                    numbers_message("extent exceeds disk size: end=", end, ", size=", disk_size),
                ),
            );
        }
        expected_offset = end;
        i = i + 1;
    }
    if expected_offset != disk_size {
        return Err(
            Error::CorruptMetadata(
                numbers_message(
                    "extent map ends at ",
                    expected_offset,
                    ", disk size is ",
                    disk_size,
                ),
            ),
        );
    }
    Ok(())
}

} // verus!
