use vstd::prelude::*;

use crate::block_device::{splice, zeros};
use crate::capabilities::Capabilities;
use crate::datamover::extent_validation::tiles;
use crate::datamover::mover::copied;
use crate::datamover::plan::{accounted_bytes, bytes_of_kind, lemma_tiles_accounted};
use crate::datamover::semantics::{
    apply_extents, counts_of_extents, extent_image, lemma_splice_adjacent_ranges,
};
use crate::datamover::stats::CopyStats;
use crate::extent::{Extent, ExtentKind};

verus! {

/// The map describes `source` faithfully: every extent that is not data
/// reads as zeros.
pub open spec fn faithful(extents: Seq<Extent>, source: Seq<u8>) -> bool {
    forall|i: int|
        0 <= i < extents.len() && #[trigger] extents[i].spec_kind() != ExtentKind::Data
            ==> source.subrange(extents[i].spec_offset() as int, extents[i].spec_end()) == zeros(
            extents[i].spec_length() as nat,
        )
}

/// Carrying over a faithful tiling map of the first `size` bytes of
/// `source` leaves the destination holding those bytes at its start and
/// everything after them as it was.
pub proof fn lemma_copy_reproduces_source(
    extents: Seq<Extent>,
    source: Seq<u8>,
    size: int,
    before: Seq<u8>,
)
    requires
        tiles(extents, size),
        faithful(extents, source),
        size <= source.len(),
        size <= before.len(),
    ensures
        apply_extents(before, source, extents) == splice(before, 0, source.subrange(0, size)),
{
    lemma_prefix_reproduces(extents, source, size, before, extents.len() as int);
    assert(extents.take(extents.len() as int) =~= extents);
    if extents.len() == 0 {
        assert(splice(before, 0, source.subrange(0, 0)) =~= before);
    }
}

proof fn lemma_prefix_reproduces(
    extents: Seq<Extent>,
    source: Seq<u8>,
    size: int,
    before: Seq<u8>,
    k: int,
)
    requires
        tiles(extents, size),
        faithful(extents, source),
        size <= source.len(),
        size <= before.len(),
        0 <= k <= extents.len(),
    ensures
        ({
            let end = if k == 0 {
                0
            } else {
                extents[k - 1].spec_end()
            };
            &&& 0 <= end <= size
            &&& apply_extents(before, source, extents.take(k)) == splice(
                before,
                0,
                source.subrange(0, end),
            )
        }),
    decreases k,
{
    crate::datamover::extent_validation::lemma_tiles_ends(extents, size);
    if k == 0 {
        assert(extents.take(0) =~= Seq::<Extent>::empty());
        assert(splice(before, 0, source.subrange(0, 0)) =~= before);
    } else {
        lemma_prefix_reproduces(extents, source, size, before, k - 1);
        let e = extents[k - 1];
        let start = if k - 1 == 0 {
            0
        } else {
            extents[k - 2].spec_end()
        };
        assert(e.spec_offset() == start);
        assert(extents.take(k).drop_last() =~= extents.take(k - 1));
        assert(extents.take(k).last() == e);
        assert(extent_image(source, e) == source.subrange(start, e.spec_end()));
        lemma_splice_adjacent_ranges(
            before,
            0,
            source.subrange(0, start),
            source.subrange(start, e.spec_end()),
        );
        assert(source.subrange(0, start) + source.subrange(start, e.spec_end()) =~= source.subrange(
            0,
            e.spec_end(),
        ));
    }
}

/// A copy of a faithful map leaves the destination holding the source's
/// bytes at its start and everything after them as it was.
pub proof fn lemma_copied_reproduces_source(
    extents: Seq<Extent>,
    source: Seq<u8>,
    size: int,
    before: Seq<u8>,
    after: Seq<u8>,
    caps: Capabilities,
    block_size: int,
    stats: CopyStats,
)
    requires
        copied(extents, source, size, before, after, caps, block_size, stats),
        faithful(extents, source),
        size <= source.len(),
        size <= before.len(),
    ensures
        after == splice(before, 0, source.subrange(0, size)),
{
    lemma_copy_reproduces_source(extents, source, size, before);
}

/// Two copies of the same map onto the same destination contents, one with
/// workers and one without or with any other number of them, end with the
/// same destination and report the same counters.
pub proof fn lemma_copied_determined(
    extents: Seq<Extent>,
    source: Seq<u8>,
    size: int,
    before: Seq<u8>,
    after1: Seq<u8>,
    after2: Seq<u8>,
    caps: Capabilities,
    block_size: int,
    stats1: CopyStats,
    stats2: CopyStats,
)
    requires
        copied(extents, source, size, before, after1, caps, block_size, stats1),
        copied(extents, source, size, before, after2, caps, block_size, stats2),
    ensures
        after1 == after2,
        stats1.bytes_read() == stats2.bytes_read(),
        stats1.bytes_written() == stats2.bytes_written(),
        stats1.bytes_zeroed() == stats2.bytes_zeroed(),
        stats1.bytes_discarded() == stats2.bytes_discarded(),
        stats1.blocks_copied() == stats2.blocks_copied(),
        stats1.extents_processed() == stats2.extents_processed(),
{
}

/// A copy of a tiling map reads exactly the data bytes, and puts every byte
/// of the disk on the destination exactly once: written, zeroed or
/// discarded.
pub proof fn lemma_copy_accounts_every_byte(
    extents: Seq<Extent>,
    size: int,
    caps: Capabilities,
    block_size: int,
)
    requires
        tiles(extents, size),
    ensures
        counts_of_extents(extents, caps, block_size).read == bytes_of_kind(
            extents,
            ExtentKind::Data,
        ),
        counts_of_extents(extents, caps, block_size).written + counts_of_extents(
            extents,
            caps,
            block_size,
        ).zeroed + counts_of_extents(extents, caps, block_size).discarded == size,
{
    lemma_counts_cover(extents, caps, block_size);
    lemma_tiles_accounted(extents, size);
}

proof fn lemma_counts_cover(extents: Seq<Extent>, caps: Capabilities, block_size: int)
    ensures
        counts_of_extents(extents, caps, block_size).read == bytes_of_kind(
            extents,
            ExtentKind::Data,
        ),
        counts_of_extents(extents, caps, block_size).written + counts_of_extents(
            extents,
            caps,
            block_size,
        ).zeroed + counts_of_extents(extents, caps, block_size).discarded == accounted_bytes(
            extents,
        ),
    decreases extents.len(),
{
    if extents.len() > 0 {
        lemma_counts_cover(extents.drop_last(), caps, block_size);
    }
}

} // verus!
