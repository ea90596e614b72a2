use vstd::prelude::*;

use std::collections::VecDeque;

use crate::buffer_pool::BufferPool;
use crate::capabilities::Capabilities;
use crate::datamover::semantics::{
    add_counts, apply_work, apply_works, counts_of_work, counts_of_works, counts_within,
    lemma_apply_works_concat, no_counts, Counts,
};
use crate::datamover::work::{WorkItem, WorkKind};
use crate::error::Result;
use crate::virtual_disk::VirtualDisk;

verus! {

/// Counters of the work one worker carried out.
#[derive(Debug, Clone, Copy, PartialEq, Eq, Structural)]
pub struct WorkerStats {
    pub bytes_read: u64,
    pub bytes_written: u64,
    pub bytes_zeroed: u64,
    pub bytes_discarded: u64,
    pub blocks_copied: u64,
}

impl WorkerStats {
    /// All counters zero.
    pub fn zero() -> (s: WorkerStats)
        ensures
            worker_counts(s) == no_counts(),
    {
        WorkerStats {
            bytes_read: 0,
            bytes_written: 0,
            bytes_zeroed: 0,
            bytes_discarded: 0,
            blocks_copied: 0,
        }
    }
}

/// The counters of `s`.
pub open spec fn worker_counts(s: WorkerStats) -> Counts {
    Counts {
        read: s.bytes_read as int,
        written: s.bytes_written as int,
        zeroed: s.bytes_zeroed as int,
        discarded: s.bytes_discarded as int,
        blocks: s.blocks_copied as int,
    }
}

/// Each counter of `c` is at least zero.
pub open spec fn counts_nonnegative(c: Counts) -> bool {
    &&& c.read >= 0
    &&& c.written >= 0
    &&& c.zeroed >= 0
    &&& c.discarded >= 0
    &&& c.blocks >= 0
}

/// Each counter of `a` is at most the same counter of `b`.
pub open spec fn counts_le(a: Counts, b: Counts) -> bool {
    &&& a.read <= b.read
    &&& a.written <= b.written
    &&& a.zeroed <= b.zeroed
    &&& a.discarded <= b.discarded
    &&& a.blocks <= b.blocks
}

/// What `execute` may be handed: items of `1..=buffer_size` bytes whose
/// counters fit in `u64`.
pub open spec fn runnable(work: Seq<WorkItem>, buffer_size: usize, caps: Capabilities) -> bool {
    &&& forall|i: int| 0 <= i < work.len() ==> 0 < #[trigger] work[i].length <= buffer_size
    &&& counts_within(counts_of_works(work, caps), u64::MAX as int)
}

/// Work counters are never negative.
pub proof fn lemma_counts_of_works_nonnegative(work: Seq<WorkItem>, caps: Capabilities)
    ensures
        counts_nonnegative(counts_of_works(work, caps)),
    decreases work.len(),
{
    if work.len() > 0 {
        lemma_counts_of_works_nonnegative(work.drop_last(), caps);
    }
}

/// The rest of a runnable queue is runnable.
proof fn lemma_runnable_suffix(
    work: Seq<WorkItem>,
    buffer_size: usize,
    caps: Capabilities,
    k: int,
)
    requires
        runnable(work, buffer_size, caps),
        0 <= k <= work.len(),
    ensures
        runnable(work.subrange(k, work.len() as int), buffer_size, caps),
        counts_le(
            counts_of_works(work.subrange(k, work.len() as int), caps),
            counts_of_works(work, caps),
        ),
{
    let first = work.subrange(0, k);
    let rest = work.subrange(k, work.len() as int);
    lemma_apply_works_concat(Seq::<u8>::empty(), Seq::<u8>::empty(), first, rest, caps);
    assert(first + rest =~= work);
    lemma_counts_of_works_nonnegative(first, caps);
    lemma_counts_of_works_nonnegative(rest, caps);
    assert forall|i: int| 0 <= i < rest.len() implies 0 < #[trigger] rest[i].length
        <= buffer_size by {
        assert(rest[i] == work[k + i]);
    }
}

/// Writes zeros over a work item through a pooled buffer, for a destination
/// that cannot zero or discard by itself.
fn write_zero_fallback<D>(
    destination: &mut D,
    work: WorkItem,
    pool: &mut BufferPool,
    stats: &mut WorkerStats,
) -> (r: Result<()>) where D: VirtualDisk
    requires
        old(pool).wf(),
        old(pool).spec_available() > 0,
        0 < work.length <= old(pool).buffer_size(),
        old(stats).bytes_written + work.length <= u64::MAX,
        old(stats).blocks_copied + 1 <= u64::MAX,
    ensures
        final(pool).wf(),
        final(pool).spec_available() == old(pool).spec_available(),
        final(pool).capacity() == old(pool).capacity(),
        final(pool).buffer_size() == old(pool).buffer_size(),
        final(pool).alignment() == old(pool).alignment(),
        final(destination).spec_geometry() == old(destination).spec_geometry(),
        final(destination).spec_capabilities() == old(destination).spec_capabilities(),
        r is Ok ==> {
            &&& final(destination).spec_contents() == crate::block_device::splice(
                old(destination).spec_contents(),
                work.offset as int,
                crate::block_device::zeros(work.length as nat),
            )
            &&& *final(stats) == (WorkerStats {
                bytes_written: (old(stats).bytes_written + work.length) as u64,
                blocks_copied: (old(stats).blocks_copied + 1) as u64,
                ..*old(stats)
            })
        },
{
    let mut guard = pool.acquire();
    let length = work.length();
    let slice = guard.as_mut_slice();
    let (head, tail) = slice.split_at_mut(length);
    let ghost tail_v = tail@;
    let mut i: usize = 0;
    while i < length
        invariant
            head@.len() == length,
            i <= length,
            forall|j: int| 0 <= j < i ==> head@[j] == 0u8,
        decreases length - i,
    {
        head[i] = 0;
        i = i + 1;
    }
    let ghost head_v = head@;
    let written = destination.write_all_at(work.offset(), head);
    proof {
        assert(head_v =~= crate::block_device::zeros(length as nat));
        assert(guard@ == head_v + tail_v);
    }
    pool.release(guard);
    written?;
    stats.bytes_written = stats.bytes_written + length as u64;
    stats.blocks_copied = stats.blocks_copied + 1;
    Ok(())
}

/// The counters of the first `k` items are at most those of all of them.
proof fn lemma_prefix_counts_le(work: Seq<WorkItem>, caps: Capabilities, k: int)
    requires
        0 <= k <= work.len(),
    ensures
        counts_le(counts_of_works(work.take(k), caps), counts_of_works(work, caps)),
        counts_nonnegative(counts_of_works(work.take(k), caps)),
{
    let rest = work.subrange(k, work.len() as int);
    lemma_apply_works_concat(Seq::<u8>::empty(), Seq::<u8>::empty(), work.take(k), rest, caps);
    assert(work.take(k) + rest =~= work);
    lemma_counts_of_works_nonnegative(work.take(k), caps);
    lemma_counts_of_works_nonnegative(rest, caps);
}

/// Zeroes a work item: with `write_zero` where the destination has it, by
/// writing zeros otherwise.
fn zero_work<D>(
    destination: &mut D,
    work: WorkItem,
    pool: &mut BufferPool,
    stats: &mut WorkerStats,
) -> (r: Result<()>) where D: VirtualDisk
    requires
        old(pool).wf(),
        old(pool).spec_available() > 0,
        0 < work.length <= old(pool).buffer_size(),
        work.kind == WorkKind::Zero,
        counts_within(
            add_counts(
                worker_counts(*old(stats)),
                counts_of_work(work, old(destination).spec_capabilities()),
            ),
            u64::MAX as int,
        ),
    ensures
        final(pool).wf(),
        final(pool).spec_available() == old(pool).spec_available(),
        final(pool).capacity() == old(pool).capacity(),
        final(pool).buffer_size() == old(pool).buffer_size(),
        final(pool).alignment() == old(pool).alignment(),
        final(destination).spec_geometry() == old(destination).spec_geometry(),
        final(destination).spec_capabilities() == old(destination).spec_capabilities(),
        r is Ok ==> {
            &&& final(destination).spec_contents() == apply_work(
                old(destination).spec_contents(),
                Seq::<u8>::empty(),
                work,
            )
            &&& worker_counts(*final(stats)) == add_counts(
                worker_counts(*old(stats)),
                counts_of_work(work, old(destination).spec_capabilities()),
            )
        },
{
    let length = work.length() as u64;
    if destination.capabilities().contains(Capabilities::write_zero()) {
        destination.write_zero_at(work.offset(), length)?;
        stats.bytes_zeroed = stats.bytes_zeroed + length;
        return Ok(());
    }
    write_zero_fallback(destination, work, pool, stats)
}

/// Discards a work item: with `discard` where the destination has it, with
/// `write_zero` where it has that, by writing zeros otherwise.
fn discard_work<D>(
    destination: &mut D,
    work: WorkItem,
    pool: &mut BufferPool,
    stats: &mut WorkerStats,
) -> (r: Result<()>) where D: VirtualDisk
    requires
        old(pool).wf(),
        old(pool).spec_available() > 0,
        0 < work.length <= old(pool).buffer_size(),
        work.kind == WorkKind::Discard,
        counts_within(
            add_counts(
                worker_counts(*old(stats)),
                counts_of_work(work, old(destination).spec_capabilities()),
            ),
            u64::MAX as int,
        ),
    ensures
        final(pool).wf(),
        final(pool).spec_available() == old(pool).spec_available(),
        final(pool).capacity() == old(pool).capacity(),
        final(pool).buffer_size() == old(pool).buffer_size(),
        final(pool).alignment() == old(pool).alignment(),
        final(destination).spec_geometry() == old(destination).spec_geometry(),
        final(destination).spec_capabilities() == old(destination).spec_capabilities(),
        r is Ok ==> {
            &&& final(destination).spec_contents() == apply_work(
                old(destination).spec_contents(),
                Seq::<u8>::empty(),
                work,
            )
            &&& worker_counts(*final(stats)) == add_counts(
                worker_counts(*old(stats)),
                counts_of_work(work, old(destination).spec_capabilities()),
            )
        },
{
    let capabilities = destination.capabilities();
    let length = work.length() as u64;
    if capabilities.contains(Capabilities::discard()) {
        destination.discard(work.offset(), length)?;
        stats.bytes_discarded = stats.bytes_discarded + length;
        return Ok(());
    }
    if capabilities.contains(Capabilities::write_zero()) {
        destination.write_zero_at(work.offset(), length)?;
        stats.bytes_zeroed = stats.bytes_zeroed + length;
        return Ok(());
    }
    write_zero_fallback(destination, work, pool, stats)
}

/// Carries out one work item.
fn process_work<S, D>(
    source: &S,
    destination: &mut D,
    work: WorkItem,
    pool: &mut BufferPool,
    stats: &mut WorkerStats,
) -> (r: Result<()>) where S: VirtualDisk, D: VirtualDisk
    requires
        old(pool).wf(),
        old(pool).spec_available() > 0,
        0 < work.length <= old(pool).buffer_size(),
        counts_within(
            add_counts(
                worker_counts(*old(stats)),
                counts_of_work(work, old(destination).spec_capabilities()),
            ),
            u64::MAX as int,
        ),
    ensures
        final(pool).wf(),
        final(pool).spec_available() == old(pool).spec_available(),
        final(pool).capacity() == old(pool).capacity(),
        final(pool).buffer_size() == old(pool).buffer_size(),
        final(pool).alignment() == old(pool).alignment(),
        final(destination).spec_geometry() == old(destination).spec_geometry(),
        final(destination).spec_capabilities() == old(destination).spec_capabilities(),
        r is Ok ==> {
            &&& final(destination).spec_contents() == apply_work(
                old(destination).spec_contents(),
                source.spec_contents(),
                work,
            )
            &&& worker_counts(*final(stats)) == add_counts(
                worker_counts(*old(stats)),
                counts_of_work(work, old(destination).spec_capabilities()),
            )
        },
{
    match work.kind() {
        WorkKind::Copy => {
            let mut guard = pool.acquire();
            let length = work.length();
            let slice = guard.as_mut_slice();
            let (head, tail) = slice.split_at_mut(length);
            let ghost tail_v = tail@;
            let read = source.read_exact_at(work.offset(), head);
            let ghost head_v = head@;
            let written = match read {
                Ok(()) => destination.write_all_at(work.offset(), head),
                Err(e) => Err(e),
            };
            proof {
                assert(guard@ == head_v + tail_v);
            }
            pool.release(guard);
            written?;
            let length = length as u64;
            stats.bytes_read = stats.bytes_read + length;
            stats.bytes_written = stats.bytes_written + length;
            stats.blocks_copied = stats.blocks_copied + 1;
            Ok(())
        },
        WorkKind::Zero => zero_work(destination, work, pool, stats),
        WorkKind::Discard => discard_work(destination, work, pool, stats),
    }
}

/// Takes work from the front of `queue` and carries it out until the queue
/// is empty or an item fails.
fn run_worker<S, D>(
    source: &S,
    destination: &mut D,
    queue: &mut VecDeque<WorkItem>,
    pool: &mut BufferPool,
) -> (r: Result<WorkerStats>) where S: VirtualDisk, D: VirtualDisk
    requires
        old(pool).wf(),
        old(pool).spec_available() > 0,
        runnable(old(queue)@, old(pool).buffer_size(), old(destination).spec_capabilities()),
    ensures
        final(pool).wf(),
        final(pool).spec_available() == old(pool).spec_available(),
        final(pool).capacity() == old(pool).capacity(),
        final(pool).buffer_size() == old(pool).buffer_size(),
        final(pool).alignment() == old(pool).alignment(),
        final(destination).spec_geometry() == old(destination).spec_geometry(),
        final(destination).spec_capabilities() == old(destination).spec_capabilities(),
        final(queue)@.len() <= old(queue)@.len(),
        final(queue)@ == old(queue)@.subrange(
            old(queue)@.len() - final(queue)@.len(),
            old(queue)@.len() as int,
        ),
        old(queue)@.len() == 0 ==> r is Ok,
        r matches Ok(stats) ==> {
            &&& final(queue)@.len() == 0
            &&& final(destination).spec_contents() == apply_works(
                old(destination).spec_contents(),
                source.spec_contents(),
                old(queue)@,
            )
            &&& worker_counts(stats) == counts_of_works(
                old(queue)@,
                old(destination).spec_capabilities(),
            )
        },
{
    let mut stats = WorkerStats::zero();
    let ghost q0 = queue@;
    let ghost d0 = destination.spec_contents();
    let ghost caps = destination.spec_capabilities();
    let ghost mut k: int = 0;
    proof {
        assert(q0.take(0) =~= Seq::<WorkItem>::empty());
        assert(q0.subrange(0, q0.len() as int) =~= q0);
    }
    loop
        invariant
            0 <= k <= q0.len(),
            q0 == old(queue)@,
            d0 == old(destination).spec_contents(),
            caps == old(destination).spec_capabilities(),
            queue@ == q0.subrange(k, q0.len() as int),
            pool.wf(),
            pool.spec_available() == old(pool).spec_available(),
            pool.capacity() == old(pool).capacity(),
            pool.buffer_size() == old(pool).buffer_size(),
            pool.alignment() == old(pool).alignment(),
            pool.spec_available() > 0,
            runnable(q0, pool.buffer_size(), caps),
            destination.spec_geometry() == old(destination).spec_geometry(),
            destination.spec_capabilities() == caps,
            destination.spec_contents() == apply_works(d0, source.spec_contents(), q0.take(k)),
            worker_counts(stats) == counts_of_works(q0.take(k), caps),
        decreases q0.len() - k,
    {
        let next = queue.pop_front();
        let work = match next {
            Some(work) => work,
            None => {
                proof {
                    assert(q0.take(k) =~= q0);
                }
                return Ok(stats);
            },
        };
        proof {
            assert(work == q0[k]);
            assert(q0.take(k + 1).drop_last() =~= q0.take(k));
            assert(q0.take(k + 1).last() == work);
            lemma_prefix_counts_le(q0, caps, k + 1);
            assert(0 < q0[k].length <= pool.buffer_size());
        }
        process_work(source, destination, work, pool, &mut stats)?;
        proof {
            k = k + 1;
            assert(queue@ =~= q0.subrange(k, q0.len() as int));
        }
    }
}

/// Carries out `work` with `worker_count` workers that take items from one
/// shared queue, in order, and sums what they did.  The workers take turns:
/// each runs until the queue is empty or one of its items fails, and the
/// first failure, in worker order, is the result.
pub fn execute<S, D>(
    source: &S,
    destination: &mut D,
    work: Vec<WorkItem>,
    worker_count: usize,
    pool: &mut BufferPool,
) -> (r: Result<WorkerStats>) where S: VirtualDisk, D: VirtualDisk
    requires
        old(pool).wf(),
        old(pool).spec_available() > 0,
        runnable(work@, old(pool).buffer_size(), old(destination).spec_capabilities()),
    ensures
        final(pool).wf(),
        final(pool).spec_available() == old(pool).spec_available(),
        final(pool).capacity() == old(pool).capacity(),
        final(pool).buffer_size() == old(pool).buffer_size(),
        final(pool).alignment() == old(pool).alignment(),
        final(destination).spec_geometry() == old(destination).spec_geometry(),
        final(destination).spec_capabilities() == old(destination).spec_capabilities(),
        worker_count == 0 || work@.len() == 0 ==> (r matches Ok(stats) && worker_counts(stats)
            == no_counts() && final(destination).spec_contents() == old(destination).spec_contents()),
        worker_count > 0 ==> (r matches Ok(stats) ==> {
            &&& final(destination).spec_contents() == apply_works(
                old(destination).spec_contents(),
                source.spec_contents(),
                work@,
            )
            &&& worker_counts(stats) == counts_of_works(
                work@,
                old(destination).spec_capabilities(),
            )
        }),
{
    let ghost d0 = destination.spec_contents();
    let ghost caps = destination.spec_capabilities();
    let ghost src = source.spec_contents();
    let mut queue: VecDeque<WorkItem> = VecDeque::new();
    let mut i: usize = 0;
    while i < work.len()
        invariant
            i <= work@.len(),
            queue@ == work@.take(i as int),
        decreases work@.len() - i,
    {
        queue.push_back(work[i]);
        i = i + 1;
        proof {
            assert(queue@ =~= work@.take(i as int));
        }
    }
    proof {
        assert(queue@ =~= work@);
    }
    let mut results: VecDeque<Result<WorkerStats>> = VecDeque::new();
    let mut w: usize = 0;
    while w < worker_count
        invariant
            w <= worker_count,
            results@.len() == w,
            d0 == old(destination).spec_contents(),
            caps == old(destination).spec_capabilities(),
            src == source.spec_contents(),
            queue@.len() <= work@.len(),
            queue@ == work@.subrange(work@.len() - queue@.len(), work@.len() as int),
            pool.wf(),
            pool.spec_available() == old(pool).spec_available(),
            pool.capacity() == old(pool).capacity(),
            pool.buffer_size() == old(pool).buffer_size(),
            pool.alignment() == old(pool).alignment(),
            pool.spec_available() > 0,
            runnable(work@, pool.buffer_size(), caps),
            destination.spec_geometry() == old(destination).spec_geometry(),
            destination.spec_capabilities() == caps,
            w == 0 ==> destination.spec_contents() == d0 && queue@ == work@,
            w > 0 ==> (results@[0] matches Ok(first) ==> {
                &&& queue@.len() == 0
                &&& destination.spec_contents() == apply_works(d0, src, work@)
                &&& worker_counts(first) == counts_of_works(work@, caps)
            }),
            forall|j: int|
                0 < j < w ==> (results@[0] is Ok ==> (#[trigger] results@[j] matches Ok(later)
                    && worker_counts(later) == no_counts())),
            work@.len() == 0 ==> destination.spec_contents() == d0,
            forall|j: int|
                0 <= j < w ==> (work@.len() == 0 ==> (#[trigger] results@[j] matches Ok(done)
                    && worker_counts(done) == no_counts())),
        decreases worker_count - w,
    {
        proof {
            lemma_runnable_suffix(work@, pool.buffer_size(), caps, work@.len() - queue@.len());
        }
        let ghost q_before = queue@;
        let ghost d_before = destination.spec_contents();
        let result = run_worker(source, destination, &mut queue, pool);
        proof {
            if work@.len() == 0 {
                assert(q_before.len() == 0);
                assert(apply_works(d_before, src, q_before) == d_before);
                assert(counts_of_works(q_before, caps) == no_counts());
            }
            if w > 0 && results@[0] is Ok {
                assert(q_before.len() == 0);
                assert(apply_works(d_before, src, q_before) == d_before);
                assert(counts_of_works(q_before, caps) == no_counts());
            }
            assert(queue@ =~= work@.subrange(work@.len() - queue@.len(), work@.len() as int));
        }
        results.push_back(result);
        w = w + 1;
    }
    let mut total = WorkerStats::zero();
    let ghost all = results@;
    let ghost mut k: int = 0;
    loop
        invariant
            0 <= k <= all.len(),
            all.len() == worker_count,
            results@ == all.subrange(k, all.len() as int),
            worker_count > 0 ==> (all[0] matches Ok(first) ==> {
                &&& destination.spec_contents() == apply_works(d0, src, work@)
                &&& worker_counts(first) == counts_of_works(work@, caps)
            }),
            forall|j: int|
                0 < j < worker_count ==> (all[0] is Ok ==> (#[trigger] all[j] matches Ok(later)
                    && worker_counts(later) == no_counts())),
            k == 0 ==> worker_counts(total) == no_counts(),
            k > 0 ==> all[0] is Ok && worker_counts(total) == counts_of_works(work@, caps),
            counts_within(counts_of_works(work@, caps), u64::MAX as int),
            pool.wf(),
            pool.spec_available() == old(pool).spec_available(),
            pool.capacity() == old(pool).capacity(),
            pool.buffer_size() == old(pool).buffer_size(),
            pool.alignment() == old(pool).alignment(),
            destination.spec_geometry() == old(destination).spec_geometry(),
            destination.spec_capabilities() == caps,
            worker_count == 0 || work@.len() == 0 ==> destination.spec_contents() == d0,
            forall|j: int|
                0 <= j < worker_count ==> (work@.len() == 0 ==> (#[trigger] all[j] matches Ok(done)
                    && worker_counts(done) == no_counts())),
            d0 == old(destination).spec_contents(),
            caps == old(destination).spec_capabilities(),
            src == source.spec_contents(),
        decreases all.len() - k,
    {
        let next = results.pop_front();
        let result = match next {
            Some(result) => result,
            None => {
                return Ok(total);
            },
        };
        let stats = match result {
            Ok(stats) => stats,
            Err(e) => {
                return Err(e);
            },
        };
        proof {
            assert(all[k] == Ok::<WorkerStats, crate::error::Error>(stats));
        }
        total.bytes_read = total.bytes_read + stats.bytes_read;
        total.bytes_written = total.bytes_written + stats.bytes_written;
        total.bytes_zeroed = total.bytes_zeroed + stats.bytes_zeroed;
        total.bytes_discarded = total.bytes_discarded + stats.bytes_discarded;
        total.blocks_copied = total.blocks_copied + stats.blocks_copied;
        proof {
            k = k + 1;
            assert(results@ =~= all.subrange(k, all.len() as int));
        }
    }
}

} // verus!
