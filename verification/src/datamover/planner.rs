use vstd::prelude::*;

use crate::datamover::work::{WorkItem, WorkKind};
use crate::error::{Error, Result};
use crate::extent::{Extent, ExtentKind};

verus! {

/// The work that an extent of a given kind calls for.
pub open spec fn work_kind_of(kind: ExtentKind) -> WorkKind {
    match kind {
        ExtentKind::Data => WorkKind::Copy,
        ExtentKind::Zero => WorkKind::Zero,
        ExtentKind::Hole => WorkKind::Discard,
    }
}

/// `items` cut `[start, end)` into consecutive pieces of `block_size`
/// bytes, the last possibly shorter, all of `kind`.
pub open spec fn splits(
    items: Seq<WorkItem>,
    start: int,
    end: int,
    block_size: int,
    kind: WorkKind,
) -> bool {
    &&& forall|i: int| 0 <= i < items.len() ==> #[trigger] items[i].kind == kind
    &&& forall|i: int|
        0 <= i < items.len() ==> #[trigger] items[i].offset == if i == 0 {
            start
        } else {
            items[i - 1].offset + items[i - 1].length
        }
    &&& forall|i: int|
        0 <= i < items.len() ==> #[trigger] items[i].length == if end - items[i].offset
            < block_size {
            end - items[i].offset
        } else {
            block_size
        }
    &&& forall|i: int| 0 <= i < items.len() ==> items[i].offset < end
    &&& if items.len() == 0 {
        start >= end
    } else {
        items[items.len() - 1].offset + items[items.len() - 1].length == end
    }
}

/// Cuts an extent into block-sized work items of the matching kind.
pub fn plan_extent(extent: Extent, block_size: usize) -> (r: Result<Vec<WorkItem>>)
    requires
        block_size > 0,
    ensures
        extent.spec_length() > 0,
        r matches Ok(items) && splits(
            items@,
            extent.spec_offset() as int,
            extent.spec_end(),
            block_size as int,
            work_kind_of(extent.spec_kind()),
        ),
{
    let kind = match extent.kind() {
        ExtentKind::Data => WorkKind::Copy,
        ExtentKind::Zero => WorkKind::Zero,
        ExtentKind::Hole => WorkKind::Discard,
    };
    let mut items: Vec<WorkItem> = Vec::new();
    let mut offset = extent.offset();
    let end = extent.end();
    while offset < end
        invariant
            extent.spec_offset() <= offset <= end,
            end == extent.spec_end(),
            block_size > 0,
            kind == work_kind_of(extent.spec_kind()),
            items@.len() == 0 ==> offset == extent.spec_offset(),
            items@.len() > 0 ==> offset == items@[items@.len() - 1].offset + items@[items@.len()
                - 1].length,
            forall|i: int| 0 <= i < items@.len() ==> #[trigger] items@[i].kind == kind,
            forall|i: int|
                0 <= i < items@.len() ==> #[trigger] items@[i].offset == if i == 0 {
                    extent.spec_offset() as int
                } else {
                    items@[i - 1].offset + items@[i - 1].length
                },
            forall|i: int|
                0 <= i < items@.len() ==> #[trigger] items@[i].length == if end - items@[i].offset
                    < block_size {
                    end - items@[i].offset
                } else {
                    block_size as int
                },
            forall|i: int| 0 <= i < items@.len() ==> items@[i].offset < end,
        decreases end - offset,
    {
        let remaining = end - offset;
        let length_u64 = if remaining < block_size as u64 {
            remaining
        } else {
            block_size as u64
        };
        let length = length_u64 as usize;
        items.push(WorkItem::new(offset, length, kind));
        offset = match offset.checked_add(length_u64) {
            Some(next) => next,
            None => {
                return Err(Error::RangeOverflow { offset, length: length_u64 });
            },
        };
    }
    Ok(items)
}

} // verus!
