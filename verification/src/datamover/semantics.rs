use vstd::prelude::*;

use crate::block_device::{splice, zeros};
use crate::capabilities::Capabilities;
use crate::datamover::extent_validation::tiles;
use crate::datamover::planner::{splits, work_kind_of};
use crate::datamover::work::{WorkItem, WorkKind};
use crate::extent::{Extent, ExtentKind};

verus! {

/// What the destination should hold where extent `e` lies, given the
/// source contents `s`: the source bytes for data, zeros otherwise.
pub open spec fn extent_image(s: Seq<u8>, e: Extent) -> Seq<u8> {
    if e.spec_kind() == ExtentKind::Data {
        s.subrange(e.spec_offset() as int, e.spec_end())
    } else {
        zeros(e.spec_length() as nat)
    }
}

/// Destination contents `d` after extent `e` of source contents `s` is
/// carried over.
pub open spec fn apply_extent(d: Seq<u8>, s: Seq<u8>, e: Extent) -> Seq<u8> {
    splice(d, e.spec_offset() as int, extent_image(s, e))
}

/// Destination contents `d` after every extent of `extents`, in order, is
/// carried over.
pub open spec fn apply_extents(d: Seq<u8>, s: Seq<u8>, extents: Seq<Extent>) -> Seq<u8>
    decreases extents.len(),
{
    if extents.len() == 0 {
        d
    } else {
        apply_extent(apply_extents(d, s, extents.drop_last()), s, extents.last())
    }
}

/// Number of transfers of at most `block_size` bytes that move `length`
/// bytes.
pub open spec fn chunks(length: int, block_size: int) -> int
    decreases length,
{
    if length <= 0 || block_size <= 0 {
        0
    } else if length <= block_size {
        1
    } else {
        1 + chunks(length - block_size, block_size)
    }
}

pub proof fn lemma_chunks_bounds(length: int, block_size: int)
    requires
        block_size > 0,
        length >= 0,
    ensures
        0 <= chunks(length, block_size) <= length,
    decreases length,
{
    if length > block_size {
        lemma_chunks_bounds(length - block_size, block_size);
    }
}

/// Whether the destination can zero a range without writing data.
pub open spec fn zeroes_directly(kind: ExtentKind, caps: Capabilities) -> bool {
    match kind {
        ExtentKind::Data => false,
        ExtentKind::Zero => caps.write_zero,
        ExtentKind::Hole => caps.discard || caps.write_zero,
    }
}

/// Bytes read from the source for extent `e`.
pub open spec fn read_bytes_of(e: Extent) -> int {
    if e.spec_kind() == ExtentKind::Data {
        e.spec_length() as int
    } else {
        0
    }
}

/// Bytes written with ordinary writes for extent `e`: data, and zeros the
/// destination cannot produce otherwise.
pub open spec fn written_bytes_of(e: Extent, caps: Capabilities) -> int {
    if zeroes_directly(e.spec_kind(), caps) {
        0
    } else {
        e.spec_length() as int
    }
}

/// Bytes zeroed with the destination's `write_zero` for extent `e`.
pub open spec fn zeroed_bytes_of(e: Extent, caps: Capabilities) -> int {
    match e.spec_kind() {
        ExtentKind::Data => 0,
        ExtentKind::Zero => if caps.write_zero {
            e.spec_length() as int
        } else {
            0
        },
        ExtentKind::Hole => if !caps.discard && caps.write_zero {
            e.spec_length() as int
        } else {
            0
        },
    }
}

/// Bytes discarded with the destination's `discard` for extent `e`.
pub open spec fn discarded_bytes_of(e: Extent, caps: Capabilities) -> int {
    if e.spec_kind() == ExtentKind::Hole && caps.discard {
        e.spec_length() as int
    } else {
        0
    }
}

/// Block transfers (ordinary writes) for extent `e`.
pub open spec fn blocks_of(e: Extent, caps: Capabilities, block_size: int) -> int {
    if zeroes_directly(e.spec_kind(), caps) {
        0
    } else {
        chunks(e.spec_length() as int, block_size)
    }
}

/// The five counters of a copy, for extents copied so far.
pub struct Counts {
    pub read: int,
    pub written: int,
    pub zeroed: int,
    pub discarded: int,
    pub blocks: int,
}

/// The counters that copying extent `e` adds.
pub open spec fn counts_of(e: Extent, caps: Capabilities, block_size: int) -> Counts {
    Counts {
        read: read_bytes_of(e),
        written: written_bytes_of(e, caps),
        zeroed: zeroed_bytes_of(e, caps),
        discarded: discarded_bytes_of(e, caps),
        blocks: blocks_of(e, caps, block_size),
    }
}

pub open spec fn add_counts(a: Counts, b: Counts) -> Counts {
    Counts {
        read: a.read + b.read,
        written: a.written + b.written,
        zeroed: a.zeroed + b.zeroed,
        discarded: a.discarded + b.discarded,
        blocks: a.blocks + b.blocks,
    }
}

pub open spec fn no_counts() -> Counts {
    Counts { read: 0, written: 0, zeroed: 0, discarded: 0, blocks: 0 }
}

/// The counters of copying all of `extents`.
pub open spec fn counts_of_extents(extents: Seq<Extent>, caps: Capabilities, block_size: int) -> Counts
    decreases extents.len(),
{
    if extents.len() == 0 {
        no_counts()
    } else {
        add_counts(
            counts_of_extents(extents.drop_last(), caps, block_size),
            counts_of(extents.last(), caps, block_size),
        )
    }
}

/// Each counter of `c` is between zero and `bound`.
pub open spec fn counts_within(c: Counts, bound: int) -> bool {
    &&& 0 <= c.read <= bound
    &&& 0 <= c.written <= bound
    &&& 0 <= c.zeroed <= bound
    &&& 0 <= c.discarded <= bound
    &&& 0 <= c.blocks <= bound
}

/// The counters of one extent are each at most its length.
pub proof fn lemma_counts_of_bounded(e: Extent, caps: Capabilities, block_size: int)
    requires
        block_size > 0,
    ensures
        counts_within(counts_of(e, caps, block_size), e.spec_length() as int),
{
    lemma_chunks_bounds(e.spec_length() as int, block_size);
}

/// In a tiling map the counters of the first `k` extents are each at most
/// the end of the `k`-th extent.
pub proof fn lemma_counts_prefix_bounded(
    extents: Seq<Extent>,
    disk_size: int,
    caps: Capabilities,
    block_size: int,
    k: int,
)
    requires
        tiles(extents, disk_size),
        block_size > 0,
        0 <= k <= extents.len(),
    ensures
        counts_within(
            counts_of_extents(extents.take(k), caps, block_size),
            if k == 0 {
                0
            } else {
                extents[k - 1].spec_end()
            },
        ),
    decreases k,
{
    if k > 0 {
        lemma_counts_prefix_bounded(extents, disk_size, caps, block_size, k - 1);
        assert(extents.take(k).drop_last() =~= extents.take(k - 1));
        lemma_counts_of_bounded(extents[k - 1], caps, block_size);
        assert(extents[k - 1].spec_offset() == if k - 1 == 0 {
            0
        } else {
            extents[k - 2].spec_end()
        });
    }
}

/// Each counter of `a` is at most the same counter of `b`, and at least
/// zero.
pub open spec fn counts_between(a: Counts, b: Counts) -> bool {
    &&& 0 <= a.read <= b.read
    &&& 0 <= a.written <= b.written
    &&& 0 <= a.zeroed <= b.zeroed
    &&& 0 <= a.discarded <= b.discarded
    &&& 0 <= a.blocks <= b.blocks
}

/// The counters of the first `k` extents are at most those of all of them.
pub proof fn lemma_extent_counts_prefix(
    extents: Seq<Extent>,
    caps: Capabilities,
    block_size: int,
    k: int,
)
    requires
        block_size > 0,
        0 <= k <= extents.len(),
    ensures
        counts_between(
            counts_of_extents(extents.take(k), caps, block_size),
            counts_of_extents(extents, caps, block_size),
        ),
    decreases extents.len(),
{
    if k == extents.len() {
        assert(extents.take(k) =~= extents);
        lemma_extent_counts_nonnegative(extents, caps, block_size);
    } else {
        lemma_extent_counts_prefix(extents.drop_last(), caps, block_size, k);
        assert(extents.drop_last().take(k) =~= extents.take(k));
        lemma_counts_of_bounded(extents.last(), caps, block_size);
    }
}

proof fn lemma_extent_counts_nonnegative(extents: Seq<Extent>, caps: Capabilities, block_size: int)
    requires
        block_size > 0,
    ensures
        counts_between(no_counts(), counts_of_extents(extents, caps, block_size)),
    decreases extents.len(),
{
    if extents.len() > 0 {
        lemma_extent_counts_nonnegative(extents.drop_last(), caps, block_size);
        lemma_counts_of_bounded(extents.last(), caps, block_size);
    }
}

/// Each counter of a copy of `extents` is at most the bytes they cover,
/// however they lie.
pub proof fn lemma_counts_within_accounted(extents: Seq<Extent>, caps: Capabilities, block_size: int)
    requires
        block_size > 0,
    ensures
        counts_within(
            counts_of_extents(extents, caps, block_size),
            crate::datamover::plan::accounted_bytes(extents),
        ),
    decreases extents.len(),
{
    if extents.len() > 0 {
        lemma_counts_within_accounted(extents.drop_last(), caps, block_size);
        lemma_counts_of_bounded(extents.last(), caps, block_size);
        crate::datamover::plan::lemma_bytes_of_kind_prefix(extents, ExtentKind::Data, extents.len() - 1);
    }
}

/// What the destination should hold over `[a, b)` for work of `kind`, given
/// the source contents `s`.
pub open spec fn range_image(s: Seq<u8>, kind: WorkKind, a: int, b: int) -> Seq<u8> {
    if kind == WorkKind::Copy {
        s.subrange(a, b)
    } else {
        zeros((b - a) as nat)
    }
}

/// What the destination should hold where work item `w` lies.
pub open spec fn work_image(s: Seq<u8>, w: WorkItem) -> Seq<u8> {
    range_image(s, w.kind, w.offset as int, w.offset + w.length)
}

/// Destination contents `d` after work item `w`.
pub open spec fn apply_work(d: Seq<u8>, s: Seq<u8>, w: WorkItem) -> Seq<u8> {
    splice(d, w.offset as int, work_image(s, w))
}

/// Destination contents `d` after every item of `work`, in order.
pub open spec fn apply_works(d: Seq<u8>, s: Seq<u8>, work: Seq<WorkItem>) -> Seq<u8>
    decreases work.len(),
{
    if work.len() == 0 {
        d
    } else {
        apply_work(apply_works(d, s, work.drop_last()), s, work.last())
    }
}

/// The counters that carrying out work item `w` adds: a copy or a zero
/// write is one block transfer.
pub open spec fn counts_of_work(w: WorkItem, caps: Capabilities) -> Counts {
    let length = w.length as int;
    match w.kind {
        WorkKind::Copy => Counts { read: length, written: length, zeroed: 0, discarded: 0, blocks: 1 },
        WorkKind::Zero => if caps.write_zero {
            Counts { read: 0, written: 0, zeroed: length, discarded: 0, blocks: 0 }
        } else {
            Counts { read: 0, written: length, zeroed: 0, discarded: 0, blocks: 1 }
        },
        WorkKind::Discard => if caps.discard {
            Counts { read: 0, written: 0, zeroed: 0, discarded: length, blocks: 0 }
        } else if caps.write_zero {
            Counts { read: 0, written: 0, zeroed: length, discarded: 0, blocks: 0 }
        } else {
            Counts { read: 0, written: length, zeroed: 0, discarded: 0, blocks: 1 }
        },
    }
}

/// The counters of carrying out all of `work`.
pub open spec fn counts_of_works(work: Seq<WorkItem>, caps: Capabilities) -> Counts
    decreases work.len(),
{
    if work.len() == 0 {
        no_counts()
    } else {
        add_counts(counts_of_works(work.drop_last(), caps), counts_of_work(work.last(), caps))
    }
}

/// The counters of a range `[a, end)` of an extent of `kind` carried over
/// in `n` transfers.
pub open spec fn range_counts(kind: ExtentKind, caps: Capabilities, length: int, n: int) -> Counts {
    if kind == ExtentKind::Data {
        Counts { read: length, written: length, zeroed: 0, discarded: 0, blocks: n }
    } else if zeroes_directly(kind, caps) {
        if kind == ExtentKind::Hole && caps.discard {
            Counts { read: 0, written: 0, zeroed: 0, discarded: length, blocks: 0 }
        } else {
            Counts { read: 0, written: 0, zeroed: length, discarded: 0, blocks: 0 }
        }
    } else {
        Counts { read: 0, written: length, zeroed: 0, discarded: 0, blocks: n }
    }
}

/// Carrying out the block-sized pieces of an extent, in order, does what
/// carrying out the extent does, and counts the same.
pub proof fn lemma_split_extent(
    e: Extent,
    items: Seq<WorkItem>,
    block_size: int,
    caps: Capabilities,
    d: Seq<u8>,
    s: Seq<u8>,
)
    requires
        block_size > 0,
        e.spec_length() > 0,
        e.spec_end() <= s.len(),
        splits(items, e.spec_offset() as int, e.spec_end(), block_size, work_kind_of(e.spec_kind())),
    ensures
        apply_works(d, s, items) == apply_extent(d, s, e),
        counts_of_works(items, caps) == counts_of(e, caps, block_size),
{
    let a = e.spec_offset() as int;
    let b = e.spec_end();
    let kind = work_kind_of(e.spec_kind());
    let n = items.len() as int;
    lemma_split_offsets(items, a, b, block_size, kind, n);
    lemma_split_contents(items, a, b, block_size, kind, d, s, n);
    lemma_split_counts(items, a, b, block_size, e.spec_kind(), caps, n);
    assert(items.take(n) =~= items);
    assert(piece_end(items, a, n) == b);
    assert(chunks(0, block_size) == 0);
    if e.spec_kind() == ExtentKind::Data {
        assert(range_image(s, kind, a, b) == extent_image(s, e));
    } else {
        assert(range_image(s, kind, a, b) =~= extent_image(s, e));
    }
}

/// Carrying out the block-sized pieces of an extent counts what carrying
/// out the extent counts, wherever the extent lies.
pub proof fn lemma_split_counts_only(
    e: Extent,
    items: Seq<WorkItem>,
    block_size: int,
    caps: Capabilities,
)
    requires
        block_size > 0,
        e.spec_length() > 0,
        splits(items, e.spec_offset() as int, e.spec_end(), block_size, work_kind_of(e.spec_kind())),
    ensures
        counts_of_works(items, caps) == counts_of(e, caps, block_size),
{
    let a = e.spec_offset() as int;
    let b = e.spec_end();
    let n = items.len() as int;
    lemma_split_offsets(items, a, b, block_size, work_kind_of(e.spec_kind()), n);
    lemma_split_counts(items, a, b, block_size, e.spec_kind(), caps, n);
    assert(items.take(n) =~= items);
    assert(chunks(0, block_size) == 0);
}

/// Where the first `k` pieces of a split starting at `a` end.
pub open spec fn piece_end(items: Seq<WorkItem>, a: int, k: int) -> int {
    if k == 0 {
        a
    } else {
        items[k - 1].offset + items[k - 1].length
    }
}

proof fn lemma_split_offsets(
    items: Seq<WorkItem>,
    a: int,
    b: int,
    block_size: int,
    kind: WorkKind,
    k: int,
)
    requires
        block_size > 0,
        a < b,
        splits(items, a, b, block_size, kind),
        0 <= k <= items.len(),
    ensures
        a <= piece_end(items, a, k) <= b,
        k + chunks(b - piece_end(items, a, k), block_size) == chunks(b - a, block_size),
        k < items.len() ==> items[k].offset == piece_end(items, a, k),
    decreases k,
{
    if k > 0 {
        lemma_split_offsets(items, a, b, block_size, kind, k - 1);
        let prev = piece_end(items, a, k - 1);
        let w = items[k - 1];
        assert(w.offset == prev);
        assert(w.offset < b);
        if b - prev <= block_size {
            assert(chunks(b - prev, block_size) == 1);
            assert(piece_end(items, a, k) == b);
            assert(chunks(0, block_size) == 0);
        } else {
            assert(chunks(b - prev, block_size) == 1 + chunks(b - prev - block_size, block_size));
        }
    }
}

#[verifier::spinoff_prover]
#[verifier::rlimit(30)]
proof fn lemma_split_contents(
    items: Seq<WorkItem>,
    a: int,
    b: int,
    block_size: int,
    kind: WorkKind,
    d: Seq<u8>,
    s: Seq<u8>,
    k: int,
)
    requires
        block_size > 0,
        0 <= a < b,
        b <= s.len(),
        splits(items, a, b, block_size, kind),
        0 <= k <= items.len(),
    ensures
        apply_works(d, s, items.take(k)) == splice(
            d,
            a,
            range_image(s, kind, a, piece_end(items, a, k)),
        ),
    decreases k,
{
    if k == 0 {
        assert(items.take(0) =~= Seq::<WorkItem>::empty());
        assert(splice(d, a, range_image(s, kind, a, a)) =~= d);
    } else {
        lemma_split_contents(items, a, b, block_size, kind, d, s, k - 1);
        lemma_split_offsets(items, a, b, block_size, kind, k);
        lemma_split_offsets(items, a, b, block_size, kind, k - 1);
        let prev = piece_end(items, a, k - 1);
        let w = items[k - 1];
        assert(items.take(k).drop_last() =~= items.take(k - 1));
        assert(items.take(k).last() == w);
        assert(w.kind == kind);
        lemma_splice_adjacent_ranges(d, a, range_image(s, kind, a, prev), work_image(s, w));
        assert(range_image(s, kind, a, prev) + work_image(s, w) =~= range_image(
            s,
            kind,
            a,
            piece_end(items, a, k),
        ));
    }
}

proof fn lemma_range_counts_step(
    ekind: ExtentKind,
    caps: Capabilities,
    length: int,
    n: int,
    w: WorkItem,
)
    requires
        w.kind == work_kind_of(ekind),
    ensures
        add_counts(range_counts(ekind, caps, length, n), counts_of_work(w, caps)) == range_counts(
            ekind,
            caps,
            length + w.length,
            n + 1,
        ),
{
}

proof fn lemma_split_counts(
    items: Seq<WorkItem>,
    a: int,
    b: int,
    block_size: int,
    ekind: ExtentKind,
    caps: Capabilities,
    k: int,
)
    requires
        block_size > 0,
        a < b,
        splits(items, a, b, block_size, work_kind_of(ekind)),
        0 <= k <= items.len(),
    ensures
        counts_of_works(items.take(k), caps) == range_counts(
            ekind,
            caps,
            piece_end(items, a, k) - a,
            k,
        ),
    decreases k,
{
    if k == 0 {
        assert(items.take(0) =~= Seq::<WorkItem>::empty());
    } else {
        lemma_split_counts(items, a, b, block_size, ekind, caps, k - 1);
        lemma_split_offsets(items, a, b, block_size, work_kind_of(ekind), k - 1);
        let w = items[k - 1];
        let before = counts_of_works(items.take(k - 1), caps);
        assert(items.take(k).drop_last() =~= items.take(k - 1));
        assert(items.take(k).last() == w);
        assert(counts_of_works(items.take(k), caps) == add_counts(before, counts_of_work(w, caps)));
        assert(w.kind == work_kind_of(ekind));
        assert(piece_end(items, a, k) - a == (piece_end(items, a, k - 1) - a) + w.length);
        lemma_range_counts_step(ekind, caps, piece_end(items, a, k - 1) - a, k - 1, w);
    }
}

/// Writing `x` at `a` and then `y` right after it is writing `x + y` at `a`.
pub proof fn lemma_splice_adjacent_ranges(d: Seq<u8>, a: int, x: Seq<u8>, y: Seq<u8>)
    requires
        0 <= a,
    ensures
        splice(splice(d, a, x), a + x.len(), y) == splice(d, a, x + y),
{
    assert(splice(splice(d, a, x), a + x.len(), y) =~= splice(d, a, x + y));
}

/// Carrying out `first` and then `second` is carrying out `first + second`.
pub proof fn lemma_apply_works_concat(
    d: Seq<u8>,
    s: Seq<u8>,
    first: Seq<WorkItem>,
    second: Seq<WorkItem>,
    caps: Capabilities,
)
    ensures
        apply_works(apply_works(d, s, first), s, second) == apply_works(d, s, first + second),
        add_counts(counts_of_works(first, caps), counts_of_works(second, caps)) == counts_of_works(
            first + second,
            caps,
        ),
    decreases second.len(),
{
    if second.len() == 0 {
        assert(first + second =~= first);
    } else {
        lemma_apply_works_concat(d, s, first, second.drop_last(), caps);
        assert((first + second).drop_last() =~= first + second.drop_last());
        assert((first + second).last() == second.last());
    }
}

} // verus!
