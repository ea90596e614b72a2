use vstd::prelude::*;

use core::time::Duration;
use std::time::Instant;

use crate::block_device::{splice, zeros, BlockDevice};
use crate::buffer::max_buffer_len;
use crate::buffer_pool::BufferPool;
use crate::capabilities::Capabilities;
use crate::datamover::concurrent::{execute, runnable};
use crate::datamover::execution::{ExecutionBackend, ExecutionStrategy, IoUringExecutionOptions};
use crate::datamover::extent_validation::{lemma_tiles_ends, tiles, validate_extents};
use crate::datamover::linux_backend::{LinuxFdBackend, LinuxFdCapabilities};
use crate::datamover::options::CopyOptions;
use crate::datamover::plan::{
    extent_fingerprint, fingerprint, fnv_u64, kind_code, lemma_tiles_accounted, summary_outcome,
    CopyPlan, FINGERPRINT_OFFSET_BASIS,
};
use crate::datamover::planner::{plan_extent, splits, work_kind_of};
use crate::datamover::semantics::{
    add_counts, apply_extent, apply_extents, apply_works, chunks, counts_of, counts_of_extents,
    counts_of_works, counts_within, lemma_apply_works_concat, lemma_chunks_bounds,
    lemma_counts_prefix_bounded, lemma_counts_within_accounted, lemma_extent_counts_prefix,
    lemma_splice_adjacent_ranges, lemma_split_counts_only, lemma_split_extent, zeroes_directly,
    Counts,
};
use crate::datamover::stats::{CopyReport, CopyStats};
use crate::datamover::uring::compatibility::{
    evaluate_compatibility, larger, lemma_pair_alignment_is_largest, pair_alignment,
};
use crate::datamover::uring::extent_plan::NativeExtentPlan;
use crate::datamover::work::WorkItem;
use crate::power_of_two::is_power_of_two;
use crate::error::{hex_numbers_message, numbers_message, Error, Result};
use crate::extent::{Extent, ExtentKind};
use crate::raw::RawDisk;
use crate::virtual_disk::VirtualDisk;

verus! {

#[verifier::external_type_specification]
#[verifier::external_body]
pub struct ExInstant(std::time::Instant);

/// The current time.  Wraps `Instant::now`; nothing is stated of it.
#[verifier::external_body]
fn now() -> Instant {
    Instant::now()
}

/// Time passed since `started`.  Wraps `Instant::elapsed`; nothing is
/// stated of it.
#[verifier::external_body]
fn elapsed_since(started: &Instant) -> Duration {
    started.elapsed()
}

/// `stats` reports the counters `c` and `extents` extents.
pub open spec fn reports(stats: CopyStats, c: Counts, extents: int) -> bool {
    &&& stats.bytes_read() == c.read
    &&& stats.bytes_written() == c.written
    &&& stats.bytes_zeroed() == c.zeroed
    &&& stats.bytes_discarded() == c.discarded
    &&& stats.blocks_copied() == c.blocks
    &&& stats.extents_processed() == extents
}

/// A copy that carried `extents`, a map of the `size` source bytes
/// `source`, over to a destination with capabilities `caps`, in blocks of
/// `block_size`: the destination went from `before` to `after`, and
/// `stats` counts what was done.
pub open spec fn copied(
    extents: Seq<Extent>,
    source: Seq<u8>,
    size: int,
    before: Seq<u8>,
    after: Seq<u8>,
    caps: Capabilities,
    block_size: int,
    stats: CopyStats,
) -> bool {
    &&& tiles(extents, size)
    &&& after == apply_extents(before, source, extents)
    &&& reports(stats, counts_of_extents(extents, caps, block_size), extents.len() as int)
}

/// Every extent of `extents` ends within `size` bytes.
pub open spec fn within(extents: Seq<Extent>, size: int) -> bool {
    forall|i: int| 0 <= i < extents.len() ==> #[trigger] extents[i].spec_end() <= size
}

/// Running counters of a copy in progress.
pub struct MutableStats {
    pub bytes_read: u64,
    pub bytes_written: u64,
    pub bytes_zeroed: u64,
    pub bytes_discarded: u64,
    pub blocks_copied: u64,
    pub extents_processed: u64,
}

/// The five transfer counters of `s`.
pub open spec fn counts(s: MutableStats) -> Counts {
    Counts {
        read: s.bytes_read as int,
        written: s.bytes_written as int,
        zeroed: s.bytes_zeroed as int,
        discarded: s.bytes_discarded as int,
        blocks: s.blocks_copied as int,
    }
}

/// Adding `c` to the counters of `s` stays within `u64`.
pub open spec fn room_for(s: MutableStats, c: Counts) -> bool {
    counts_within(add_counts(counts(s), c), u64::MAX as int)
}

/// Appending the block-sized pieces of the `i`-th extent to the work for
/// the extents before it gives the work for the first `i + 1` extents: it
/// does what they do, where they lie in the source, and counts what they
/// count.
proof fn lemma_extend_work(
    d0: Seq<u8>,
    src: Seq<u8>,
    caps: Capabilities,
    block_size: int,
    extents: Seq<Extent>,
    i: int,
    before: Seq<WorkItem>,
    pieces: Seq<WorkItem>,
    inside: bool,
)
    requires
        block_size > 0,
        0 <= i < extents.len(),
        inside == within(extents, src.len() as int),
        forall|j: int| 0 <= j < before.len() ==> 0 < #[trigger] before[j].length <= block_size,
        inside ==> apply_works(d0, src, before) == apply_extents(d0, src, extents.take(i)),
        counts_of_works(before, caps) == counts_of_extents(extents.take(i), caps, block_size),
        splits(
            pieces,
            extents[i].spec_offset() as int,
            extents[i].spec_end(),
            block_size,
            work_kind_of(extents[i].spec_kind()),
        ),
        extents[i].spec_length() > 0,
    ensures
        forall|j: int|
            0 <= j < (before + pieces).len() ==> 0 < #[trigger] (before + pieces)[j].length
                <= block_size,
        inside ==> apply_works(d0, src, before + pieces) == apply_extents(
            d0,
            src,
            extents.take(i + 1),
        ),
        counts_of_works(before + pieces, caps) == counts_of_extents(
            extents.take(i + 1),
            caps,
            block_size,
        ),
{
    let extent = extents[i];
    lemma_apply_works_concat(d0, src, before, pieces, caps);
    if inside {
        assert(extents[i].spec_end() <= src.len());
        lemma_split_extent(extent, pieces, block_size, caps, apply_works(d0, src, before), src);
    } else {
        lemma_split_counts_only(extent, pieces, block_size, caps);
    }
    assert(extents.take(i + 1).drop_last() =~= extents.take(i));
    assert(extents.take(i + 1).last() == extent);
    assert forall|j: int| 0 <= j < (before + pieces).len() implies 0 < #[trigger] (before
        + pieces)[j].length <= block_size by {
        if j >= before.len() {
            assert(pieces[j - before.len()].offset < extent.spec_end());
        }
    }
}

/// How a checked plan is to be executed.
pub enum PlanExecution {
    /// Through the portable, threaded path.
    Threaded,
    /// Natively through io_uring, with these options and this checked map.
    Native { options: IoUringExecutionOptions, plan: NativeExtentPlan },
}

/// A plan still fits a raw source of `source_size` bytes, a destination of
/// `destination_size` bytes and a mover with `block_size`: same size, room
/// enough, same block size, and the fingerprint of the source's current
/// map.
pub open spec fn plan_matches(plan: &CopyPlan, source_size: u64, destination_size: u64, block_size: usize) -> bool {
    &&& source_size == plan.spec_summary().logical_bytes()
    &&& destination_size >= plan.spec_summary().logical_bytes()
    &&& plan.block_size() == block_size
    &&& plan.extent_fingerprint() == raw_map_fingerprint(source_size)
}

/// The io_uring options of a native strategy.
pub open spec fn native_options(strategy: ExecutionStrategy) -> Option<IoUringExecutionOptions> {
    match strategy {
        ExecutionStrategy::Threaded => None,
        ExecutionStrategy::IoUring(o) => Some(o),
        ExecutionStrategy::Auto(o) => Some(o),
    }
}

/// The backend a strategy plans with, for a pair io_uring can serve.
pub open spec fn backend_for(strategy: ExecutionStrategy) -> ExecutionBackend {
    match strategy {
        ExecutionStrategy::Threaded => ExecutionBackend::Threaded,
        _ => ExecutionBackend::IoUring,
    }
}

/// The alignment a strategy plans with: the configured one for threaded
/// copies, the largest of the pair's alignments and the configured one for
/// native ones.
pub open spec fn alignment_for(
    strategy: ExecutionStrategy,
    configured: usize,
    source: LinuxFdCapabilities,
    destination: LinuxFdCapabilities,
) -> usize {
    match strategy {
        ExecutionStrategy::Threaded => configured,
        _ => larger(pair_alignment(source, destination), configured),
    }
}

/// A native plan's alignment is the largest of the configured buffer
/// alignment and the pair's four alignments: at least each of them, and
/// equal to the configured one or the pair's.  It is exactly the alignment
/// that `prepare_execution` asks of a native plan for the same pair and
/// configuration, so what `plan_with_destination` plans natively passes
/// that check.  A threaded plan keeps the configured alignment.
pub proof fn lemma_planned_alignment(
    strategy: ExecutionStrategy,
    configured: usize,
    source: LinuxFdCapabilities,
    destination: LinuxFdCapabilities,
)
    ensures
        native_options(strategy) is None ==> alignment_for(
            strategy,
            configured,
            source,
            destination,
        ) == configured,
        native_options(strategy) is Some ==> {
            let a = alignment_for(strategy, configured, source, destination);
            &&& a >= configured
            &&& a >= source.memory_alignment()
            &&& a >= source.offset_alignment()
            &&& a >= destination.memory_alignment()
            &&& a >= destination.offset_alignment()
            &&& (a == configured || a == pair_alignment(source, destination))
            &&& a == larger(pair_alignment(source, destination), configured)
        },
{
    lemma_pair_alignment_is_largest(source, destination);
}

/// The fingerprint of the extent map a raw disk of `size` bytes reports:
/// one data extent over the disk, or none for an empty disk.
pub open spec fn raw_map_fingerprint(size: u64) -> u64 {
    if size == 0 {
        FINGERPRINT_OFFSET_BASIS
    } else {
        fnv_u64(fnv_u64(fnv_u64(FINGERPRINT_OFFSET_BASIS, 0), size), kind_code(ExtentKind::Data))
    }
}

fn max_usize(a: usize, b: usize) -> (m: usize)
    ensures
        m == larger(a, b),
{
    if a >= b {
        a
    } else {
        b
    }
}

/// Copies data, zeroes and holes of a source disk onto a destination disk.
pub struct DataMover {
    options: CopyOptions,
    execution_strategy: ExecutionStrategy,
}

impl DataMover {
    pub closed spec fn spec_options(&self) -> CopyOptions {
        self.options
    }

    pub closed spec fn spec_execution_strategy(&self) -> ExecutionStrategy {
        self.execution_strategy
    }

    /// A mover with these options and the threaded strategy.
    pub fn new(options: CopyOptions) -> (m: DataMover)
        ensures
            m.spec_options() == options,
            m.execution_strategy() == ExecutionStrategy::Threaded,
    {
        DataMover { options, execution_strategy: ExecutionStrategy::Threaded }
    }

    pub fn with_execution_strategy(options: CopyOptions, execution_strategy: ExecutionStrategy) -> (m:
        DataMover)
        ensures
            m.spec_options() == options,
            m.execution_strategy() == execution_strategy,
    {
        DataMover { options, execution_strategy }
    }

    #[verifier::when_used_as_spec(spec_execution_strategy)]
    pub fn execution_strategy(&self) -> (s: ExecutionStrategy)
        ensures
            s == self.spec_execution_strategy(),
    {
        self.execution_strategy
    }

    /// Copies a data extent block by block through `buffer`.
    fn copy_data_extent<S, D>(
        &self,
        source: &S,
        destination: &mut D,
        extent: Extent,
        buffer: &mut [u8],
        stats: &mut MutableStats,
    ) -> (r: Result<()>) where S: VirtualDisk, D: VirtualDisk
        requires
            old(buffer)@.len() >= self.spec_options().block_size(),
            extent.spec_kind() == ExtentKind::Data,
            room_for(
                *old(stats),
                counts_of(extent, old(destination).spec_capabilities(), self.spec_options().block_size() as int),
            ),
        ensures
            final(buffer)@.len() == old(buffer)@.len(),
            final(destination).spec_geometry() == old(destination).spec_geometry(),
            final(destination).spec_capabilities() == old(destination).spec_capabilities(),
            final(stats).extents_processed == old(stats).extents_processed,
            r is Ok ==> {
                &&& final(destination).spec_contents() == apply_extent(
                    old(destination).spec_contents(),
                    source.spec_contents(),
                    extent,
                )
                &&& counts(*final(stats)) == add_counts(
                    counts(*old(stats)),
                    counts_of(
                        extent,
                        old(destination).spec_capabilities(),
                        self.spec_options().block_size() as int,
                    ),
                )
            },
    {
        let block_size = self.options.block_size();
        let mut offset = extent.offset();
        let end = extent.end();
        let ghost start = offset as int;
        let ghost d0 = destination.spec_contents();
        let ghost s0 = *stats;
        let ghost total = buffer@.len();
        let ghost caps = destination.spec_capabilities();
        let ghost geometry = destination.spec_geometry();
        proof {
            lemma_chunks_bounds(extent.spec_length() as int, block_size as int);
        }
        while offset < end
            invariant
                start <= offset <= end,
                start == extent.spec_offset(),
                end == extent.spec_end(),
                buffer@.len() == total,
                total >= block_size,
                block_size == self.spec_options().block_size(),
                block_size > 0,
                destination.spec_geometry() == geometry,
                destination.spec_capabilities() == caps,
                d0 == old(destination).spec_contents(),
                caps == old(destination).spec_capabilities(),
                geometry == old(destination).spec_geometry(),
                total == old(buffer)@.len(),
                s0 == *old(stats),
                extent.spec_kind() == ExtentKind::Data,
                room_for(s0, counts_of(extent, caps, block_size as int)),
                offset == start ==> destination.spec_contents() == d0,
                offset > start ==> offset <= source.spec_contents().len() && offset <= d0.len()
                    && destination.spec_contents() == splice(
                    d0,
                    start,
                    source.spec_contents().subrange(start, offset as int),
                ),
                stats.bytes_read == s0.bytes_read + (offset - start),
                stats.bytes_written == s0.bytes_written + (offset - start),
                stats.bytes_zeroed == s0.bytes_zeroed,
                stats.bytes_discarded == s0.bytes_discarded,
                stats.extents_processed == s0.extents_processed,
                stats.blocks_copied + chunks(end - offset, block_size as int) == s0.blocks_copied
                    + chunks(end - start, block_size as int),
            decreases end - offset,
        {
            let remaining = end - offset;
            let request_u64 = if remaining < block_size as u64 {
                remaining
            } else {
                block_size as u64
            };
            let request = request_u64 as usize;
            let ghost before = destination.spec_contents();
            let (head, tail) = buffer.split_at_mut(request);
            let ghost tail_v = tail@;
            let read = source.read_exact_at(offset, head);
            if let Err(e) = read {
                return Err(e);
            }
            let written = destination.write_all_at(offset, head);
            let ghost head_v = head@;
            if let Err(e) = written {
                return Err(e);
            }
            proof {
                assert(buffer@ == head_v + tail_v);
                if offset > start {
                    lemma_splice_adjacent_ranges(
                        d0,
                        start,
                        source.spec_contents().subrange(start, offset as int),
                        head_v,
                    );
                    assert(source.spec_contents().subrange(start, offset as int) + head_v
                        =~= source.spec_contents().subrange(start, offset + request));
                }
                lemma_chunks_bounds(end - offset - request, block_size as int);
                if request < end - offset {
                    assert(chunks(end - offset, block_size as int) == 1 + chunks(
                        end - offset - request,
                        block_size as int,
                    ));
                } else {
                    assert(chunks(end - offset, block_size as int) == 1);
                }
            }
            offset = match offset.checked_add(request_u64) {
                Some(next) => next,
                None => {
                    return Err(Error::RangeOverflow { offset, length: request_u64 });
                },
            };
            stats.bytes_read = stats.bytes_read + request_u64;
            stats.bytes_written = stats.bytes_written + request_u64;
            stats.blocks_copied = stats.blocks_copied + 1;
        }
        Ok(())
    }

    /// Writes zeros over an extent block by block, for a destination that
    /// cannot zero or discard by itself.
    fn write_zero_fallback<D>(
        &self,
        destination: &mut D,
        extent: Extent,
        buffer: &mut [u8],
        stats: &mut MutableStats,
    ) -> (r: Result<()>) where D: VirtualDisk
        requires
            old(buffer)@.len() >= self.spec_options().block_size(),
            extent.spec_kind() != ExtentKind::Data,
            !zeroes_directly(extent.spec_kind(), old(destination).spec_capabilities()),
            room_for(
                *old(stats),
                counts_of(extent, old(destination).spec_capabilities(), self.spec_options().block_size() as int),
            ),
        ensures
            final(buffer)@.len() == old(buffer)@.len(),
            final(destination).spec_geometry() == old(destination).spec_geometry(),
            final(destination).spec_capabilities() == old(destination).spec_capabilities(),
            final(stats).extents_processed == old(stats).extents_processed,
            r is Ok ==> {
                &&& final(destination).spec_contents() == apply_extent(
                    old(destination).spec_contents(),
                    Seq::<u8>::empty(),
                    extent,
                )
                &&& counts(*final(stats)) == add_counts(
                    counts(*old(stats)),
                    counts_of(
                        extent,
                        old(destination).spec_capabilities(),
                        self.spec_options().block_size() as int,
                    ),
                )
            },
    {
        let block_size = self.options.block_size();
        let total_len = buffer.len();
        let mut i: usize = 0;
        while i < total_len
            invariant
                buffer@.len() == total_len,
                i <= total_len,
                forall|j: int| 0 <= j < i ==> buffer@[j] == 0u8,
            decreases total_len - i,
        {
            buffer[i] = 0;
            i = i + 1;
        }
        let mut offset = extent.offset();
        let end = extent.end();
        let ghost start = offset as int;
        let ghost d0 = destination.spec_contents();
        let ghost s0 = *stats;
        let ghost caps = destination.spec_capabilities();
        let ghost geometry = destination.spec_geometry();
        proof {
            lemma_chunks_bounds(extent.spec_length() as int, block_size as int);
        }
        while offset < end
            invariant
                start <= offset <= end,
                start == extent.spec_offset(),
                end == extent.spec_end(),
                buffer@.len() == total_len,
                total_len == old(buffer)@.len(),
                total_len >= block_size,
                forall|j: int| 0 <= j < total_len ==> buffer@[j] == 0u8,
                block_size == self.spec_options().block_size(),
                block_size > 0,
                destination.spec_geometry() == geometry,
                destination.spec_capabilities() == caps,
                d0 == old(destination).spec_contents(),
                caps == old(destination).spec_capabilities(),
                geometry == old(destination).spec_geometry(),
                s0 == *old(stats),
                extent.spec_kind() != ExtentKind::Data,
                !zeroes_directly(extent.spec_kind(), caps),
                room_for(s0, counts_of(extent, caps, block_size as int)),
                offset == start ==> destination.spec_contents() == d0,
                offset > start ==> offset <= d0.len() && destination.spec_contents() == splice(
                    d0,
                    start,
                    zeros((offset - start) as nat),
                ),
                stats.bytes_read == s0.bytes_read,
                stats.bytes_written == s0.bytes_written + (offset - start),
                stats.bytes_zeroed == s0.bytes_zeroed,
                stats.bytes_discarded == s0.bytes_discarded,
                stats.extents_processed == s0.extents_processed,
                stats.blocks_copied + chunks(end - offset, block_size as int) == s0.blocks_copied
                    + chunks(end - start, block_size as int),
            decreases end - offset,
        {
            let remaining = end - offset;
            let request_u64 = if remaining < block_size as u64 {
                remaining
            } else {
                block_size as u64
            };
            let request = request_u64 as usize;
            let chunk = vstd::slice::slice_subrange(&*buffer, 0, request);
            let written = destination.write_all_at(offset, chunk);
            if let Err(e) = written {
                return Err(e);
            }
            proof {
                assert(chunk@ =~= zeros(request as nat));
                if offset > start {
                    lemma_splice_adjacent_ranges(d0, start, zeros((offset - start) as nat), chunk@);
                    assert(zeros((offset - start) as nat) + chunk@ =~= zeros(
                        (offset + request - start) as nat,
                    ));
                }
                lemma_chunks_bounds(end - offset - request, block_size as int);
                if request < end - offset {
                    assert(chunks(end - offset, block_size as int) == 1 + chunks(
                        end - offset - request,
                        block_size as int,
                    ));
                } else {
                    assert(chunks(end - offset, block_size as int) == 1);
                }
            }
            offset = match offset.checked_add(request_u64) {
                Some(next) => next,
                None => {
                    return Err(Error::RangeOverflow { offset, length: request_u64 });
                },
            };
            stats.bytes_written = stats.bytes_written + request_u64;
            stats.blocks_copied = stats.blocks_copied + 1;
        }
        Ok(())
    }

    /// Makes a zero extent zero on the destination: with `write_zero` where
    /// the destination has it, by writing zeros otherwise.
    fn zero_extent<D>(
        &self,
        destination: &mut D,
        extent: Extent,
        buffer: &mut [u8],
        stats: &mut MutableStats,
    ) -> (r: Result<()>) where D: VirtualDisk
        requires
            old(buffer)@.len() >= self.spec_options().block_size(),
            extent.spec_kind() == ExtentKind::Zero,
            room_for(
                *old(stats),
                counts_of(extent, old(destination).spec_capabilities(), self.spec_options().block_size() as int),
            ),
        ensures
            final(buffer)@.len() == old(buffer)@.len(),
            final(destination).spec_geometry() == old(destination).spec_geometry(),
            final(destination).spec_capabilities() == old(destination).spec_capabilities(),
            final(stats).extents_processed == old(stats).extents_processed,
            r is Ok ==> {
                &&& final(destination).spec_contents() == apply_extent(
                    old(destination).spec_contents(),
                    Seq::<u8>::empty(),
                    extent,
                )
                &&& counts(*final(stats)) == add_counts(
                    counts(*old(stats)),
                    counts_of(
                        extent,
                        old(destination).spec_capabilities(),
                        self.spec_options().block_size() as int,
                    ),
                )
            },
    {
        let length = extent.length();
        if destination.capabilities().contains(Capabilities::write_zero()) {
            destination.write_zero_at(extent.offset(), length)?;
            stats.bytes_zeroed = stats.bytes_zeroed + length;
            return Ok(());
        }
        self.write_zero_fallback(destination, extent, buffer, stats)
    }

    /// Makes a hole read as zero on the destination: discarded where the
    /// destination can discard, zeroed where it can zero, written with
    /// zeros otherwise.
    fn hole_extent<D>(
        &self,
        destination: &mut D,
        extent: Extent,
        buffer: &mut [u8],
        stats: &mut MutableStats,
    ) -> (r: Result<()>) where D: VirtualDisk
        requires
            old(buffer)@.len() >= self.spec_options().block_size(),
            extent.spec_kind() == ExtentKind::Hole,
            room_for(
                *old(stats),
                counts_of(extent, old(destination).spec_capabilities(), self.spec_options().block_size() as int),
            ),
        ensures
            final(buffer)@.len() == old(buffer)@.len(),
            final(destination).spec_geometry() == old(destination).spec_geometry(),
            final(destination).spec_capabilities() == old(destination).spec_capabilities(),
            final(stats).extents_processed == old(stats).extents_processed,
            r is Ok ==> {
                &&& final(destination).spec_contents() == apply_extent(
                    old(destination).spec_contents(),
                    Seq::<u8>::empty(),
                    extent,
                )
                &&& counts(*final(stats)) == add_counts(
                    counts(*old(stats)),
                    counts_of(
                        extent,
                        old(destination).spec_capabilities(),
                        self.spec_options().block_size() as int,
                    ),
                )
            },
    {
        let length = extent.length();
        let capabilities = destination.capabilities();
        if capabilities.contains(Capabilities::discard()) {
            destination.discard(extent.offset(), length)?;
            stats.bytes_discarded = stats.bytes_discarded + length;
            return Ok(());
        }
        if capabilities.contains(Capabilities::write_zero()) {
            destination.write_zero_at(extent.offset(), length)?;
            stats.bytes_zeroed = stats.bytes_zeroed + length;
            return Ok(());
        }
        self.write_zero_fallback(destination, extent, buffer, stats)
    }

    /// Carries one extent over to the destination.
    fn process_extent<S, D>(
        &self,
        source: &S,
        destination: &mut D,
        extent: Extent,
        buffer: &mut [u8],
        stats: &mut MutableStats,
    ) -> (r: Result<()>) where S: VirtualDisk, D: VirtualDisk
        requires
            old(buffer)@.len() >= self.spec_options().block_size(),
            room_for(
                *old(stats),
                counts_of(extent, old(destination).spec_capabilities(), self.spec_options().block_size() as int),
            ),
        ensures
            final(buffer)@.len() == old(buffer)@.len(),
            final(destination).spec_geometry() == old(destination).spec_geometry(),
            final(destination).spec_capabilities() == old(destination).spec_capabilities(),
            final(stats).extents_processed == old(stats).extents_processed,
            r is Ok ==> {
                &&& final(destination).spec_contents() == apply_extent(
                    old(destination).spec_contents(),
                    source.spec_contents(),
                    extent,
                )
                &&& counts(*final(stats)) == add_counts(
                    counts(*old(stats)),
                    counts_of(
                        extent,
                        old(destination).spec_capabilities(),
                        self.spec_options().block_size() as int,
                    ),
                )
            },
    {
        match extent.kind() {
            ExtentKind::Data => self.copy_data_extent(source, destination, extent, buffer, stats),
            ExtentKind::Zero => self.zero_extent(destination, extent, buffer, stats),
            ExtentKind::Hole => self.hole_extent(destination, extent, buffer, stats),
        }
    }

    /// Copies `source` onto `destination`, extent by extent.
    ///
    /// The destination must be at least as large as the source.  The
    /// source's extent map must cover it exactly; data is copied, zero and
    /// hole extents become zeros on the destination.  With a concurrency
    /// above one the extents are cut into block-sized work for that many
    /// workers.  The destination is flushed at the end.
    #[verifier::rlimit(50)]
    #[verifier::spinoff_prover]
    pub fn copy<S, D>(&self, source: &S, destination: &mut D) -> (r: Result<CopyStats>) where
        S: VirtualDisk,
        D: VirtualDisk,
        ensures
            final(destination).spec_geometry() == old(destination).spec_geometry(),
            final(destination).spec_capabilities() == old(destination).spec_capabilities(),
            old(destination).spec_geometry().size() < source.spec_geometry().size() ==> (
            r matches Err(Error::OutOfBounds { offset: o, length: l, size: s }) && o == 0 && l
                == source.spec_geometry().size() && s == old(destination).spec_geometry().size()
                && final(destination).spec_contents() == old(destination).spec_contents()),
            r is Ok ==> self.spec_options().block_size() <= max_buffer_len(
                self.spec_options().buffer_alignment(),
            ),
            old(destination).spec_geometry().size() >= source.spec_geometry().size()
                && source.spec_extents(0, source.spec_geometry().size()) is None ==> (r is Err
                && final(destination).spec_contents() == old(destination).spec_contents()),
            old(destination).spec_geometry().size() >= source.spec_geometry().size() && (source.spec_extents(
                0,
                source.spec_geometry().size(),
            ) matches Some(map) && !tiles(map, source.spec_geometry().size() as int)) ==> (r matches Err(
                Error::CorruptMetadata(_),
            ) && final(destination).spec_contents() == old(destination).spec_contents()),
            r matches Ok(stats) ==> (source.spec_extents(0, source.spec_geometry().size()) matches Some(
                map,
            ) && copied(
                map,
                source.spec_contents(),
                source.spec_geometry().size() as int,
                old(destination).spec_contents(),
                final(destination).spec_contents(),
                old(destination).spec_capabilities(),
                self.spec_options().block_size() as int,
                stats,
            )),
    {
        let source_size = source.size();
        let destination_size = destination.size();
        if destination_size < source_size {
            return Err(
                Error::OutOfBounds { offset: 0, length: source_size, size: destination_size },
            );
        }
        let started = now();
        let extents = source.extents(0, source_size)?;
        validate_extents(extents.as_slice(), source_size)?;
        let ghost caps = destination.spec_capabilities();
        let ghost d0 = destination.spec_contents();
        let ghost map = extents@;
        let block_size = self.options.block_size();
        proof {
            source.lemma_contents_size();
            lemma_tiles_ends(extents@, source_size as int);
            lemma_counts_prefix_bounded(
                extents@,
                source_size as int,
                caps,
                block_size as int,
                extents@.len() as int,
            );
            assert(extents@.take(extents@.len() as int) =~= extents@);
            assert(within(extents@, source.spec_contents().len() as int));
        }
        let r = if self.options.concurrency() > 1 {
            self.copy_concurrent(source, destination, extents, started)
        } else {
            self.copy_sequential(
                source,
                destination,
                extents.as_slice(),
                self.options.buffer_alignment(),
                started,
            )
        };
        proof {
            if let Ok(stats) = r {
                assert(copied(
                    map,
                    source.spec_contents(),
                    source_size as int,
                    d0,
                    destination.spec_contents(),
                    caps,
                    block_size as int,
                    stats,
                ));
            }
        }
        r
    }

    /// Carries `extents` over one after the other through one pooled buffer
    /// of aligned to `alignment`, then flushes the destination.
    fn copy_sequential<S, D>(
        &self,
        source: &S,
        destination: &mut D,
        extents: &[Extent],
        alignment: usize,
        started: Instant,
    ) -> (r: Result<CopyStats>) where S: VirtualDisk, D: VirtualDisk
        requires
            counts_within(
                counts_of_extents(
                    extents@,
                    old(destination).spec_capabilities(),
                    self.spec_options().block_size() as int,
                ),
                u64::MAX as int,
            ),
        ensures
            final(destination).spec_geometry() == old(destination).spec_geometry(),
            final(destination).spec_capabilities() == old(destination).spec_capabilities(),
            !is_power_of_two(alignment as nat) ==> (r matches Err(
                Error::InvalidBufferAlignment { alignment: a },
            ) && a == alignment && final(destination).spec_contents() == old(destination).spec_contents()),
            is_power_of_two(alignment as nat) && self.spec_options().block_size() > max_buffer_len(
                alignment,
            ) ==> (r matches Err(Error::BufferAllocation { size: s, alignment: a }) && s
                == self.spec_options().block_size() && a == alignment && final(destination).spec_contents() == old(destination).spec_contents()),
            r is Ok ==> self.spec_options().block_size() <= max_buffer_len(alignment),
            r matches Ok(stats) ==> {
                &&& final(destination).spec_contents() == apply_extents(
                    old(destination).spec_contents(),
                    source.spec_contents(),
                    extents@,
                )
                &&& reports(
                    stats,
                    counts_of_extents(
                        extents@,
                        old(destination).spec_capabilities(),
                        self.spec_options().block_size() as int,
                    ),
                    extents@.len() as int,
                )
            },
    {
        let mut pool = BufferPool::new(
            self.options.buffer_count(),
            self.options.block_size(),
            alignment,
        )?;
        let mut guard = pool.acquire();
        let buffer = guard.as_mut_slice();
        let block_size = self.options.block_size();
        let ghost d0 = destination.spec_contents();
        let ghost caps = destination.spec_capabilities();
        let ghost geometry = destination.spec_geometry();
        let ghost buffer_len = buffer@.len();
        let mut stats = MutableStats {
            bytes_read: 0,
            bytes_written: 0,
            bytes_zeroed: 0,
            bytes_discarded: 0,
            blocks_copied: 0,
            extents_processed: 0,
        };
        let mut i: usize = 0;
        proof {
            assert(extents@.take(0) =~= Seq::<Extent>::empty());
        }
        while i < extents.len()
            invariant
                0 <= i <= extents@.len(),
                buffer@.len() == buffer_len,
                is_power_of_two(alignment as nat),
                block_size <= max_buffer_len(alignment),
                buffer_len >= block_size,
                block_size == self.spec_options().block_size(),
                block_size > 0,
                d0 == old(destination).spec_contents(),
                caps == old(destination).spec_capabilities(),
                geometry == old(destination).spec_geometry(),
                destination.spec_geometry() == geometry,
                destination.spec_capabilities() == caps,
                counts_within(counts_of_extents(extents@, caps, block_size as int), u64::MAX as int),
                destination.spec_contents() == apply_extents(
                    d0,
                    source.spec_contents(),
                    extents@.take(i as int),
                ),
                counts(stats) == counts_of_extents(extents@.take(i as int), caps, block_size as int),
                stats.extents_processed == i,
            decreases extents@.len() - i,
        {
            let extent = extents[i];
            proof {
                lemma_extent_counts_prefix(extents@, caps, block_size as int, i + 1);
                assert(extents@.take(i + 1).drop_last() =~= extents@.take(i as int));
            }
            self.process_extent(source, destination, extent, buffer, &mut stats)?;
            stats.extents_processed = stats.extents_processed + 1;
            i = i + 1;
        }
        destination.flush()?;
        proof {
            assert(extents@.take(extents@.len() as int) =~= extents@);
        }
        Ok(
            CopyStats::new(
                stats.bytes_read,
                stats.bytes_written,
                stats.bytes_zeroed,
                stats.bytes_discarded,
                stats.blocks_copied,
                stats.extents_processed,
                elapsed_since(&started),
            ),
        )
    }

    /// Copies `extents` of `source` onto `destination` with the configured
    /// number of workers: every extent is cut into block-sized work items,
    /// which the workers carry out in order from one queue.  The
    /// destination is flushed at the end.
    #[verifier::rlimit(40)]
    fn copy_concurrent<S, D>(
        &self,
        source: &S,
        destination: &mut D,
        extents: Vec<Extent>,
        started: Instant,
    ) -> (r: Result<CopyStats>) where S: VirtualDisk, D: VirtualDisk
        requires
            counts_within(
                counts_of_extents(
                    extents@,
                    old(destination).spec_capabilities(),
                    self.spec_options().block_size() as int,
                ),
                u64::MAX as int,
            ),
        ensures
            final(destination).spec_geometry() == old(destination).spec_geometry(),
            final(destination).spec_capabilities() == old(destination).spec_capabilities(),
            self.spec_options().block_size() > max_buffer_len(
                self.spec_options().buffer_alignment(),
            ) ==> (r matches Err(Error::BufferAllocation { size: s, alignment: a }) && s
                == self.spec_options().block_size() && a == self.spec_options().buffer_alignment()
                && final(destination).spec_contents() == old(destination).spec_contents()),
            r is Ok ==> self.spec_options().block_size() <= max_buffer_len(
                self.spec_options().buffer_alignment(),
            ),
            r matches Ok(stats) ==> {
                &&& reports(
                    stats,
                    counts_of_extents(
                        extents@,
                        old(destination).spec_capabilities(),
                        self.spec_options().block_size() as int,
                    ),
                    extents@.len() as int,
                )
                &&& within(extents@, source.spec_contents().len() as int) ==> final(destination).spec_contents() == apply_extents(
                    old(destination).spec_contents(),
                    source.spec_contents(),
                    extents@,
                )
            },
    {
        let mut pool = BufferPool::new(
            self.options.buffer_count(),
            self.options.block_size(),
            self.options.buffer_alignment(),
        )?;
        let block_size = self.options.block_size();
        let ghost src = source.spec_contents();
        let ghost d0 = destination.spec_contents();
        let ghost caps = destination.spec_capabilities();
        let ghost inside = within(extents@, src.len() as int);
        proof {
            assert(extents@.take(0) =~= Seq::<Extent>::empty());
        }
        let mut work: Vec<WorkItem> = Vec::new();
        let mut i: usize = 0;
        while i < extents.len()
            invariant
                i <= extents@.len(),
                inside == within(extents@, src.len() as int),
                block_size == self.spec_options().block_size(),
                block_size > 0,
                forall|j: int| 0 <= j < work@.len() ==> 0 < #[trigger] work@[j].length <= block_size,
                inside ==> apply_works(d0, src, work@) == apply_extents(d0, src, extents@.take(i as int)),
                counts_of_works(work@, caps) == counts_of_extents(
                    extents@.take(i as int),
                    caps,
                    block_size as int,
                ),
            decreases extents@.len() - i,
        {
            let extent = extents[i];
            let mut items = plan_extent(extent, block_size)?;
            proof {
                lemma_extend_work(
                    d0,
                    src,
                    caps,
                    block_size as int,
                    extents@,
                    i as int,
                    work@,
                    items@,
                    inside,
                );
            }
            work.append(&mut items);
            i = i + 1;
        }
        proof {
            assert(extents@.take(extents@.len() as int) =~= extents@);
            assert(runnable(work@, pool.buffer_size(), caps));
        }
        let stats = execute(source, destination, work, self.options.concurrency(), &mut pool)?;
        destination.flush()?;
        Ok(
            CopyStats::new(
                stats.bytes_read,
                stats.bytes_written,
                stats.bytes_zeroed,
                stats.bytes_discarded,
                stats.blocks_copied,
                extents.len() as u64,
                elapsed_since(&started),
            ),
        )
    }

    /// Plans a copy of `source`: reads and checks its extent map, and
    /// records it for the threaded backend with this mover's block size and
    /// alignment.
    pub fn plan<S>(&self, source: &S) -> (r: Result<CopyPlan>) where S: VirtualDisk
        ensures
            source.spec_extents(0, source.spec_geometry().size()) is None ==> r is Err,
            (source.spec_extents(0, source.spec_geometry().size()) matches Some(map) && !tiles(
                map,
                source.spec_geometry().size() as int,
            )) ==> (r matches Err(Error::CorruptMetadata(_))),
            (source.spec_extents(0, source.spec_geometry().size()) matches Some(map) && tiles(
                map,
                source.spec_geometry().size() as int,
            )) ==> r is Ok,
            r matches Ok(p) ==> {
                &&& source.spec_extents(0, source.spec_geometry().size()) == Some(p.spec_extents())
                &&& tiles(p.spec_extents(), source.spec_geometry().size() as int)
                &&& summary_outcome(
                    source.spec_geometry().size(),
                    p.spec_extents(),
                    Ok(p.spec_summary()),
                )
                &&& p.extent_fingerprint() == fingerprint(p.spec_extents())
                &&& p.backend() == ExecutionBackend::Threaded
                &&& p.block_size() == self.spec_options().block_size()
                &&& p.alignment() == self.spec_options().buffer_alignment()
            },
    {
        let source_size = source.size();
        let extents = source.extents(0, source_size)?;
        validate_extents(extents.as_slice(), source_size)?;
        proof {
            lemma_tiles_accounted(extents@, source_size as int);
        }
        CopyPlan::new(
            source_size,
            extents,
            ExecutionBackend::Threaded,
            self.options.block_size(),
            self.options.buffer_alignment(),
        )
    }

    /// Plans a copy of `source` onto `destination`, choosing the backend by
    /// the execution strategy: threaded with the configured alignment, or
    /// io_uring with the largest of the pair's alignments and the
    /// configured one.  A destination smaller than the source is refused.
    pub fn plan_with_destination<S, D>(&self, source: &RawDisk<S>, destination: &RawDisk<D>) -> (r:
        Result<CopyPlan>) where S: BlockDevice + LinuxFdBackend, D: BlockDevice + LinuxFdBackend
        ensures
            destination.spec_geometry().size() < source.spec_geometry().size() ==> (r matches Err(
                Error::OutOfBounds { offset: o, length: l, size: s },
            ) && o == 0 && l == source.spec_geometry().size() && s
                == destination.spec_geometry().size()),
            destination.spec_geometry().size() >= source.spec_geometry().size() ==> r is Ok,
            r matches Ok(p) ==> {
                &&& source.spec_extents(0, source.spec_geometry().size()) == Some(p.spec_extents())
                &&& tiles(p.spec_extents(), source.spec_geometry().size() as int)
                &&& p.extent_fingerprint() == fingerprint(p.spec_extents())
                &&& p.block_size() == self.spec_options().block_size()
                &&& p.backend() == backend_for(self.execution_strategy())
                &&& p.alignment() == alignment_for(
                    self.execution_strategy(),
                    self.spec_options().buffer_alignment(),
                    source.spec_device().spec_linux_fd_capabilities(),
                    destination.spec_device().spec_linux_fd_capabilities(),
                )
                &&& native_options(self.execution_strategy()) is None ==> p.alignment()
                    == self.spec_options().buffer_alignment()
                &&& native_options(self.execution_strategy()) is Some ==> {
                    &&& p.alignment() >= self.spec_options().buffer_alignment()
                    &&& p.alignment() >= source.spec_device().spec_linux_fd_capabilities().memory_alignment()
                    &&& p.alignment() >= source.spec_device().spec_linux_fd_capabilities().offset_alignment()
                    &&& p.alignment() >= destination.spec_device().spec_linux_fd_capabilities().memory_alignment()
                    &&& p.alignment() >= destination.spec_device().spec_linux_fd_capabilities().offset_alignment()
                }
            },
    {
        let source_size = source.size();
        let destination_size = destination.size();
        if destination_size < source_size {
            return Err(
                Error::OutOfBounds { offset: 0, length: source_size, size: destination_size },
            );
        }
        let extents = source.extents(0, source_size)?;
        validate_extents(extents.as_slice(), source_size)?;
        proof {
            lemma_tiles_accounted(extents@, source_size as int);
        }
        let compatibility = evaluate_compatibility(source.device(), destination.device());
        let (backend, alignment) = match self.execution_strategy {
            ExecutionStrategy::Threaded => (ExecutionBackend::Threaded, self.options.buffer_alignment()),
            ExecutionStrategy::IoUring(_) => {
                if !compatibility.compatible() {
                    return Err(Error::NativeExecutionUnsupported);
                }
                (
                    ExecutionBackend::IoUring,
                    max_usize(compatibility.alignment(), self.options.buffer_alignment()),
                )
            },
            ExecutionStrategy::Auto(_) => {
                if compatibility.compatible() {
                    (
                        ExecutionBackend::IoUring,
                        max_usize(compatibility.alignment(), self.options.buffer_alignment()),
                    )
                } else {
                    (ExecutionBackend::Threaded, self.options.buffer_alignment())
                }
            },
        };
        CopyPlan::new(source_size, extents, backend, self.options.block_size(), alignment)
    }

    /// The block size, alignment and io_uring options a native copy between
    /// `source` and `destination` runs with; refused when the strategy is
    /// threaded.
    pub fn native_copy_parameters<S, D>(&self, source: &S, destination: &D) -> (r: Result<
        (usize, usize, IoUringExecutionOptions),
    >) where S: LinuxFdBackend, D: LinuxFdBackend
        ensures
            self.execution_strategy() == ExecutionStrategy::Threaded ==> r matches Err(
                Error::NativeExecutionNotSelected,
            ),
            native_options(self.execution_strategy()) matches Some(o) ==> (r matches Ok(
                (block_size, alignment, options),
            ) && options == o && block_size == self.spec_options().block_size() && alignment == larger(
                pair_alignment(
                    source.spec_linux_fd_capabilities(),
                    destination.spec_linux_fd_capabilities(),
                ),
                self.spec_options().buffer_alignment(),
            )),
    {
        match self.execution_strategy {
            ExecutionStrategy::Threaded => Err(Error::NativeExecutionNotSelected),
            ExecutionStrategy::IoUring(execution_options) | ExecutionStrategy::Auto(
                execution_options,
            ) => {
                let compatibility = evaluate_compatibility(source, destination);
                if !compatibility.compatible() {
                    return Err(Error::NativeExecutionUnsupported);
                }
                let alignment = max_usize(compatibility.alignment(), self.options.buffer_alignment());
                Ok((self.options.block_size(), alignment, execution_options))
            },
        }
    }

    /// Checks that `plan` still fits the pair and this mover before it is
    /// executed, and says how: the source must still have the planned size
    /// and the same extent structure (by fingerprint), the destination must
    /// be large enough, and the block size and alignment must match.  A
    /// native plan also needs an io_uring strategy and a map that tiles the
    /// disk.
    pub fn prepare_execution<S, D>(
        &self,
        plan: &CopyPlan,
        source: &RawDisk<S>,
        destination: &RawDisk<D>,
    ) -> (r: Result<PlanExecution>) where
        S: BlockDevice + LinuxFdBackend,
        D: BlockDevice + LinuxFdBackend,
        ensures
            source.spec_geometry().size() != plan.spec_summary().logical_bytes() ==> r matches Err(
                Error::CorruptMetadata(_),
            ),
            source.spec_geometry().size() == plan.spec_summary().logical_bytes()
                && destination.spec_geometry().size() < plan.spec_summary().logical_bytes() ==> (
            r matches Err(Error::OutOfBounds { offset: o, length: l, size: s }) && o == 0 && l
                == plan.spec_summary().logical_bytes() && s == destination.spec_geometry().size()),
            r is Ok ==> {
                &&& source.spec_geometry().size() == plan.spec_summary().logical_bytes()
                &&& destination.spec_geometry().size() >= plan.spec_summary().logical_bytes()
                &&& plan.block_size() == self.spec_options().block_size()
                &&& plan.extent_fingerprint() == raw_map_fingerprint(source.spec_geometry().size())
            },
            plan_matches(plan, source.spec_geometry().size(), destination.spec_geometry().size(), self.spec_options().block_size()) ==> {
                &&& plan.backend() == ExecutionBackend::Threaded && plan.alignment()
                    == self.spec_options().buffer_alignment() ==> (r matches Ok(PlanExecution::Threaded))
                &&& plan.backend() == ExecutionBackend::Threaded && plan.alignment()
                    != self.spec_options().buffer_alignment() ==> (r matches Err(Error::CorruptMetadata(_)))
                &&& plan.backend() == ExecutionBackend::IoUring && native_options(self.execution_strategy()) is None
                    ==> (r matches Err(Error::NativeExecutionNotSelected))
                &&& plan.backend() == ExecutionBackend::IoUring && native_options(self.execution_strategy()) is Some
                    && !tiles(plan.spec_extents(), plan.spec_summary().logical_bytes() as int)
                    ==> (r matches Err(Error::CorruptMetadata(_)))
                &&& plan.backend() == ExecutionBackend::IoUring && native_options(self.execution_strategy()) is Some
                    && tiles(plan.spec_extents(), plan.spec_summary().logical_bytes() as int)
                    ==> (r is Ok <==> plan.alignment() == larger(
                        pair_alignment(
                            source.spec_device().spec_linux_fd_capabilities(),
                            destination.spec_device().spec_linux_fd_capabilities(),
                        ),
                        self.spec_options().buffer_alignment(),
                    ))
            },
            source.spec_geometry().size() == plan.spec_summary().logical_bytes()
                && destination.spec_geometry().size() >= plan.spec_summary().logical_bytes()
                && !(plan.block_size() == self.spec_options().block_size()
                && plan.extent_fingerprint() == raw_map_fingerprint(source.spec_geometry().size()))
                ==> r matches Err(Error::CorruptMetadata(_)),
            r matches Ok(PlanExecution::Threaded) ==> plan.backend() == ExecutionBackend::Threaded
                && plan.alignment() == self.spec_options().buffer_alignment(),
            r matches Ok(PlanExecution::Native { options, plan: native }) ==> {
                &&& plan.backend() == ExecutionBackend::IoUring
                &&& native_options(self.execution_strategy()) == Some(options)
                &&& native.spec_extents() == plan.spec_extents()
                &&& native.disk_size() == plan.spec_summary().logical_bytes()
                &&& native.wf()
                &&& plan.alignment() == larger(
                    pair_alignment(
                        source.spec_device().spec_linux_fd_capabilities(),
                        destination.spec_device().spec_linux_fd_capabilities(),
                    ),
                    self.spec_options().buffer_alignment(),
                )
            },
    {
        let source_size = source.size();
        let destination_size = destination.size();
        if source_size != plan.logical_bytes() {
            return Err(
                Error::CorruptMetadata(
                    numbers_message(
                        "copy plan source size mismatch: plan=",
                        plan.logical_bytes(),
                        ", source=",
                        source_size,
                    ),
                ),
            );
        }
        if destination_size < plan.logical_bytes() {
            return Err(
                Error::OutOfBounds { offset: 0, length: plan.logical_bytes(), size: destination_size },
            );
        }
        if plan.block_size() != self.options.block_size() {
            return Err(
                Error::CorruptMetadata(
                    numbers_message(
                        "copy plan block size mismatch: plan=",
                        plan.block_size() as u64,
                        ", mover=",
                        self.options.block_size() as u64,
                    ),
                ),
            );
        }
        let current_extents = source.extents(0, source_size)?;
        validate_extents(current_extents.as_slice(), source_size)?;
        let current_fingerprint = extent_fingerprint(current_extents.as_slice());
        proof {
            if source_size > 0 {
                assert(current_extents@.drop_last() =~= Seq::<Extent>::empty());
                assert(fingerprint(current_extents@.drop_last()) == FINGERPRINT_OFFSET_BASIS);
                assert(fingerprint(current_extents@) == raw_map_fingerprint(source_size));
            } else {
                assert(fingerprint(current_extents@) == raw_map_fingerprint(source_size));
            }
        }
        if current_fingerprint != plan.extent_fingerprint() {
            return Err(
                Error::CorruptMetadata(
                    hex_numbers_message(
                        "copy plan extent map changed: planned=",
                        plan.extent_fingerprint(),
                        ", current=",
                        current_fingerprint,
                    ),
                ),
            );
        }
        match plan.backend() {
            ExecutionBackend::Threaded => {
                if plan.alignment() != self.options.buffer_alignment() {
                    return Err(
                        Error::CorruptMetadata(
                            numbers_message(
                                "copy plan alignment mismatch: plan=",
                                plan.alignment() as u64,
                                ", mover=",
                                self.options.buffer_alignment() as u64,
                            ),
                        ),
                    );
                }
                Ok(PlanExecution::Threaded)
            },
            ExecutionBackend::IoUring => {
                let execution_options = match self.execution_strategy {
                    ExecutionStrategy::IoUring(options) | ExecutionStrategy::Auto(options) => options,
                    ExecutionStrategy::Threaded => {
                        return Err(Error::NativeExecutionNotSelected);
                    },
                };
                let native_plan = NativeExtentPlan::new(
                    vstd::slice::slice_to_vec(plan.extents()),
                    plan.logical_bytes(),
                )?;
                let compatibility = evaluate_compatibility(source.device(), destination.device());
                if !compatibility.compatible() {
                    return Err(Error::NativeExecutionUnsupported);
                }
                let runtime_alignment = max_usize(
                    compatibility.alignment(),
                    self.options.buffer_alignment(),
                );
                if runtime_alignment != plan.alignment() {
                    return Err(
                        Error::CorruptMetadata(
                            numbers_message(
                                "copy plan alignment mismatch: plan=",
                                plan.alignment() as u64,
                                ", runtime=",
                                runtime_alignment as u64,
                            ),
                        ),
                    );
                }
                Ok(PlanExecution::Native { options: execution_options, plan: native_plan })
            },
        }
    }

    /// Executes a threaded plan whose block size is this mover's: the
    /// plan's extents are carried over as `copy` carries a map, with the
    /// plan's alignment.
    pub fn execute_threaded_plan<S, D>(
        &self,
        plan: &CopyPlan,
        source: &RawDisk<S>,
        destination: &mut RawDisk<D>,
    ) -> (r: Result<CopyReport>) where
        S: BlockDevice + LinuxFdBackend,
        D: BlockDevice + LinuxFdBackend,
        requires
            plan.block_size() == self.spec_options().block_size(),
        ensures
            final(destination).spec_geometry() == old(destination).spec_geometry(),
            final(destination).spec_capabilities() == old(destination).spec_capabilities(),
            self.spec_options().concurrency() > 1 && self.spec_options().block_size()
                > max_buffer_len(self.spec_options().buffer_alignment()) ==> (r matches Err(
                Error::BufferAllocation { size: s, alignment: a },
            ) && s == self.spec_options().block_size() && a
                == self.spec_options().buffer_alignment() && final(destination).spec_contents()
                == old(destination).spec_contents()),
            self.spec_options().concurrency() <= 1 && !is_power_of_two(plan.alignment() as nat)
                ==> (r matches Err(Error::InvalidBufferAlignment { alignment: a }) && a
                == plan.alignment() && final(destination).spec_contents() == old(destination).spec_contents()),
            self.spec_options().concurrency() <= 1 && is_power_of_two(plan.alignment() as nat)
                && self.spec_options().block_size() > max_buffer_len(plan.alignment()) ==> (
            r matches Err(Error::BufferAllocation { size: s, alignment: a }) && s
                == self.spec_options().block_size() && a == plan.alignment() && final(destination).spec_contents() == old(destination).spec_contents()),
            r matches Ok(report) ==> {
                &&& report.backend() == ExecutionBackend::Threaded
                &&& reports(
                    report.spec_stats(),
                    counts_of_extents(
                        plan.spec_extents(),
                        old(destination).spec_capabilities(),
                        self.spec_options().block_size() as int,
                    ),
                    plan.spec_extents().len() as int,
                )
                &&& within(plan.spec_extents(), source.spec_contents().len() as int) ==> final(destination).spec_contents() == apply_extents(
                    old(destination).spec_contents(),
                    source.spec_contents(),
                    plan.spec_extents(),
                )
            },
    {
        let started = now();
        let extents = plan.extents();
        let block_size = self.options.block_size();
        proof {
            lemma_counts_within_accounted(
                extents@,
                destination.spec_capabilities(),
                block_size as int,
            );
        }
        if self.options.concurrency() > 1 {
            let stats = self.copy_concurrent(
                source,
                destination,
                vstd::slice::slice_to_vec(extents),
                started,
            )?;
            return Ok(CopyReport::new(ExecutionBackend::Threaded, stats));
        }
        let stats = self.copy_sequential(source, destination, extents, plan.alignment(), started)?;
        Ok(CopyReport::new(ExecutionBackend::Threaded, stats))
    }
}

} // verus!
