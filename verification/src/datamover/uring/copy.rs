use vstd::prelude::*;

use crate::buffer_pool::BufferGuard;
use crate::datamover::semantics::chunks;
use crate::datamover::uring::operation::{CompletedOperation, IoUringOperationKind};
use crate::error::{Error, Result};

verus! {

/// What an io_uring copy of a byte range did.
#[derive(Debug, Default, Clone, Copy, PartialEq, Eq, Structural)]
pub struct IoUringCopyStats {
    bytes_read: u64,
    bytes_written: u64,
    blocks_completed: u64,
}

impl IoUringCopyStats {
    pub closed spec fn spec_bytes_read(&self) -> u64 {
        self.bytes_read
    }

    pub closed spec fn spec_bytes_written(&self) -> u64 {
        self.bytes_written
    }

    pub closed spec fn spec_blocks_completed(&self) -> u64 {
        self.blocks_completed
    }

    /// Nothing read or written yet.
    pub fn zero() -> (s: IoUringCopyStats)
        ensures
            s.bytes_read() == 0,
            s.bytes_written() == 0,
            s.blocks_completed() == 0,
    {
        IoUringCopyStats { bytes_read: 0, bytes_written: 0, blocks_completed: 0 }
    }

    #[verifier::when_used_as_spec(spec_bytes_read)]
    pub fn bytes_read(&self) -> (b: u64)
        ensures
            b == self.spec_bytes_read(),
    {
        self.bytes_read
    }

    #[verifier::when_used_as_spec(spec_bytes_written)]
    pub fn bytes_written(&self) -> (b: u64)
        ensures
            b == self.spec_bytes_written(),
    {
        self.bytes_written
    }

    #[verifier::when_used_as_spec(spec_blocks_completed)]
    pub fn blocks_completed(&self) -> (b: u64)
        ensures
            b == self.spec_blocks_completed(),
    {
        self.blocks_completed
    }
}

/// Length of the next request of a copy at `offset` that ends at `end`:
/// a block, the shorter remainder at the tail, nothing at the end.
pub fn request_length(offset: u64, end: u64, block_size: usize) -> (r: Result<usize>)
    ensures
        r matches Ok(n) && n == (if offset >= end {
            0
        } else if end - offset < block_size {
            end - offset
        } else {
            block_size as int
        }),
{
    if offset >= end {
        return Ok(0);
    }
    let remaining = end - offset;
    let length_u64 = if remaining < block_size as u64 {
        remaining
    } else {
        block_size as u64
    };
    Ok(length_u64 as usize)
}

/// `offset` moved past `length` bytes; a sum past `u64::MAX` is a range
/// overflow.
pub fn advance_offset(offset: u64, length: usize) -> (r: Result<u64>)
    ensures
        offset + length <= u64::MAX ==> (r matches Ok(next) && next == offset + length),
        offset + length > u64::MAX ==> (r matches Err(Error::RangeOverflow { offset: o, length: l })
            && o == offset && l == length),
{
    match offset.checked_add(length as u64) {
        Some(next) => Ok(next),
        None => Err(Error::RangeOverflow { offset, length: length as u64 }),
    }
}

/// Checks the sizing of a range copy: a zero block size is refused as an
/// invalid alignment, a zero queue depth as such.  Returns whether there is
/// anything to copy.
pub fn check_copy_request(block_size: usize, queue_depth: u32, length: u64) -> (r: Result<bool>)
    ensures
        block_size == 0 ==> (r matches Err(Error::InvalidAlignment { value: v, alignment: a })
            && v == 0 && a == 1),
        block_size > 0 && queue_depth == 0 ==> r matches Err(Error::InvalidIoUringQueueDepth),
        block_size > 0 && queue_depth > 0 ==> r == Ok::<bool, Error>(length > 0),
{
    if block_size == 0 {
        return Err(Error::InvalidAlignment { value: 0, alignment: 1 });
    }
    if queue_depth == 0 {
        return Err(Error::InvalidIoUringQueueDepth);
    }
    Ok(length > 0)
}

/// The reads a range copy hands out, in order: from the start of the range,
/// each one block or the shorter rest, never more in flight at the start
/// than the queue depth.
pub struct CopyPipeline {
    start: u64,
    end: u64,
    block_size: usize,
    queue_depth: u32,
    next_offset: u64,
    issued: Ghost<Seq<(u64, usize)>>,
}

/// `reads` cut `[start, next)` into consecutive requests of `block_size`
/// bytes, the last before `end` possibly shorter.
pub open spec fn reads_cover(
    reads: Seq<(u64, usize)>,
    start: int,
    next: int,
    end: int,
    block_size: int,
) -> bool {
    &&& forall|i: int|
        0 <= i < reads.len() ==> #[trigger] reads[i].0 == if i == 0 {
            start
        } else {
            reads[i - 1].0 + reads[i - 1].1
        }
    &&& forall|i: int|
        0 <= i < reads.len() ==> #[trigger] reads[i].1 == if end - reads[i].0 < block_size {
            end - reads[i].0
        } else {
            block_size
        }
    &&& forall|i: int| 0 <= i < reads.len() ==> #[trigger] reads[i].0 < end
    &&& if reads.len() == 0 {
        next == start
    } else {
        next == reads[reads.len() - 1].0 + reads[reads.len() - 1].1
    }
}

impl CopyPipeline {
    pub closed spec fn spec_start(&self) -> u64 {
        self.start
    }

    pub closed spec fn spec_end(&self) -> u64 {
        self.end
    }

    pub closed spec fn spec_block_size(&self) -> usize {
        self.block_size
    }

    pub closed spec fn spec_queue_depth(&self) -> u32 {
        self.queue_depth
    }

    pub closed spec fn spec_next_offset(&self) -> u64 {
        self.next_offset
    }

    /// The reads handed out so far.
    pub closed spec fn spec_issued(&self) -> Seq<(u64, usize)> {
        self.issued@
    }

    /// Well formed: the reads handed out cover the range from its start up
    /// to the next offset.
    pub open spec fn wf(&self) -> bool {
        &&& self.spec_block_size() > 0
        &&& self.spec_start() <= self.spec_next_offset() <= self.spec_end()
        &&& reads_cover(
            self.spec_issued(),
            self.spec_start() as int,
            self.spec_next_offset() as int,
            self.spec_end() as int,
            self.spec_block_size() as int,
        )
    }

    /// A pipeline over `length` bytes from `start`; a range that ends past
    /// `u64::MAX` is a range overflow.
    pub fn new(start: u64, length: u64, block_size: usize, queue_depth: u32) -> (r: Result<
        CopyPipeline,
    >)
        requires
            block_size > 0,
        ensures
            start + length > u64::MAX ==> (r matches Err(Error::RangeOverflow { offset: o, length: l })
                && o == start && l == length),
            start + length <= u64::MAX ==> (r matches Ok(p) && p.wf() && p.spec_start() == start
                && p.spec_end() == start + length && p.spec_next_offset() == start
                && p.spec_issued().len() == 0 && p.spec_block_size() == block_size
                && p.spec_queue_depth() == queue_depth),
    {
        let end = match start.checked_add(length) {
            Some(end) => end,
            None => {
                return Err(Error::RangeOverflow { offset: start, length });
            },
        };
        Ok(
            CopyPipeline {
                start,
                end,
                block_size,
                queue_depth,
                next_offset: start,
                issued: Ghost(Seq::empty()),
            },
        )
    }

    /// Whether every read of the range has been handed out.
    pub fn exhausted(&self) -> (b: bool)
        ensures
            b == (self.spec_next_offset() >= self.spec_end()),
    {
        self.next_offset >= self.end
    }

    /// Hands out the next read: its offset and length.
    fn issue(&mut self) -> (r: (u64, usize))
        requires
            old(self).wf(),
            old(self).spec_next_offset() < old(self).spec_end(),
        ensures
            final(self).wf(),
            r.0 == old(self).spec_next_offset(),
            r.1 == if old(self).spec_end() - old(self).spec_next_offset()
                < old(self).spec_block_size() {
                old(self).spec_end() - old(self).spec_next_offset()
            } else {
                old(self).spec_block_size() as int
            },
            final(self).spec_issued() == old(self).spec_issued().push(r),
            final(self).spec_next_offset() == old(self).spec_next_offset() + r.1,
            final(self).spec_start() == old(self).spec_start(),
            final(self).spec_end() == old(self).spec_end(),
            final(self).spec_block_size() == old(self).spec_block_size(),
            final(self).spec_queue_depth() == old(self).spec_queue_depth(),
    {
        let offset = self.next_offset;
        let remaining = self.end - offset;
        let length_u64 = if remaining < self.block_size as u64 {
            remaining
        } else {
            self.block_size as u64
        };
        let length = length_u64 as usize;
        self.next_offset = offset + length_u64;
        proof {
            let old_issued = self.issued@;
            self.issued = Ghost(old_issued.push((offset, length)));
            assert(self.issued@.len() == old_issued.len() + 1);
            assert forall|i: int| 0 <= i < self.issued@.len() implies #[trigger] self.issued@[i].0
                == if i == 0 {
                self.start as int
            } else {
                self.issued@[i - 1].0 + self.issued@[i - 1].1
            } by {
                if i < old_issued.len() {
                    assert(self.issued@[i] == old_issued[i]);
                    if i > 0 {
                        assert(self.issued@[i - 1] == old_issued[i - 1]);
                    }
                }
            }
        }
        (offset, length)
    }

    /// The next read while the queue is being filled: one while the range
    /// has bytes left and fewer than `queue_depth` operations are in flight.
    pub fn next_fill_read(&mut self, in_flight: usize) -> (r: Option<(u64, usize)>)
        requires
            old(self).wf(),
        ensures
            final(self).wf(),
            final(self).spec_start() == old(self).spec_start(),
            final(self).spec_end() == old(self).spec_end(),
            final(self).spec_block_size() == old(self).spec_block_size(),
            final(self).spec_queue_depth() == old(self).spec_queue_depth(),
            (old(self).spec_next_offset() < old(self).spec_end() && in_flight
                < old(self).spec_queue_depth()) <==> r is Some,
            r is None ==> *final(self) == *old(self),
            r matches Some(read) ==> final(self).spec_issued() == old(self).spec_issued().push(read)
                && read.0 == old(self).spec_next_offset() && final(self).spec_next_offset()
                == read.0 + read.1,
    {
        if self.next_offset < self.end && (in_flight as u64) < self.queue_depth as u64 {
            Some(self.issue())
        } else {
            None
        }
    }

    /// The next read after a write completed and gave its buffer back: one
    /// while the range has bytes left.
    pub fn next_refill_read(&mut self) -> (r: Option<(u64, usize)>)
        requires
            old(self).wf(),
        ensures
            final(self).wf(),
            final(self).spec_start() == old(self).spec_start(),
            final(self).spec_end() == old(self).spec_end(),
            final(self).spec_block_size() == old(self).spec_block_size(),
            final(self).spec_queue_depth() == old(self).spec_queue_depth(),
            (old(self).spec_next_offset() < old(self).spec_end()) <==> r is Some,
            r is None ==> *final(self) == *old(self),
            r matches Some(read) ==> final(self).spec_issued() == old(self).spec_issued().push(read)
                && read.0 == old(self).spec_next_offset() && final(self).spec_next_offset()
                == read.0 + read.1,
    {
        if self.next_offset < self.end {
            Some(self.issue())
        } else {
            None
        }
    }
}

/// Total bytes of `reads`.
pub open spec fn read_bytes(reads: Seq<(u64, usize)>) -> int
    decreases reads.len(),
{
    if reads.len() == 0 {
        0
    } else {
        read_bytes(reads.drop_last()) + reads.last().1
    }
}

/// The reads of a covered prefix add up to its length.
proof fn lemma_read_bytes_prefix(
    reads: Seq<(u64, usize)>,
    start: int,
    next: int,
    end: int,
    block_size: int,
    k: int,
)
    requires
        reads_cover(reads, start, next, end, block_size),
        0 <= k <= reads.len(),
    ensures
        read_bytes(reads.take(k)) == (if k == 0 {
            start
        } else {
            reads[k - 1].0 + reads[k - 1].1
        }) - start,
    decreases k,
{
    if k > 0 {
        lemma_read_bytes_prefix(reads, start, next, end, block_size, k - 1);
        assert(reads.take(k).drop_last() =~= reads.take(k - 1));
    } else {
        assert(reads.take(0) =~= Seq::<(u64, usize)>::empty());
    }
}

/// Where the reads of `reads` after the first `k` start.
pub open spec fn offset_after(reads: Seq<(u64, usize)>, start: int, k: int) -> int {
    if k == 0 {
        start
    } else {
        reads[k - 1].0 + reads[k - 1].1
    }
}

/// The `i`-th read of a covered prefix starts where the ones before it
/// end, before `end`, and takes a block or what is left.
proof fn lemma_read_at(
    reads: Seq<(u64, usize)>,
    start: int,
    next: int,
    end: int,
    block_size: int,
    i: int,
)
    requires
        reads_cover(reads, start, next, end, block_size),
        0 <= i < reads.len(),
    ensures
        reads[i].0 == offset_after(reads, start, i),
        reads[i].0 < end,
        reads[i].1 == if end - reads[i].0 < block_size {
            end - reads[i].0
        } else {
            block_size
        },
{
}

/// After the first `k` reads of a covered prefix, the reads still to come
/// are as many blocks as the bytes left take.
#[verifier::spinoff_prover]
proof fn lemma_read_count_prefix(
    reads: Seq<(u64, usize)>,
    start: int,
    next: int,
    end: int,
    block_size: int,
    k: int,
)
    requires
        reads_cover(reads, start, next, end, block_size),
        block_size > 0,
        0 <= k <= reads.len(),
    ensures
        k + chunks(end - offset_after(reads, start, k), block_size) == chunks(
            end - start,
            block_size,
        ),
    decreases k,
{
    if k > 0 {
        lemma_read_count_prefix(reads, start, next, end, block_size, k - 1);
        lemma_read_at(reads, start, next, end, block_size, k - 1);
        let before = offset_after(reads, start, k - 1);
        lemma_chunk_step(end - before, block_size);
        assert(offset_after(reads, start, k) == reads[k - 1].0 + reads[k - 1].1);
    }
}

/// Taking one block, or what is left if less, off `length` bytes leaves
/// one block fewer.
proof fn lemma_chunk_step(length: int, block_size: int)
    requires
        length > 0,
        block_size > 0,
    ensures
        chunks(length, block_size) == 1 + chunks(
            length - (if length < block_size {
                length
            } else {
                block_size
            }),
            block_size,
        ),
{
    assert(chunks(0, block_size) == 0);
}

/// Once the pipeline is exhausted, its reads cover the whole range exactly,
/// in order, in requests of at most one block, add up to the range's
/// length, and are as many as the blocks the range takes.
pub proof fn lemma_exhausted_pipeline_covers_range(p: CopyPipeline)
    requires
        p.wf(),
        p.spec_next_offset() >= p.spec_end(),
    ensures
        reads_cover(
            p.spec_issued(),
            p.spec_start() as int,
            p.spec_end() as int,
            p.spec_end() as int,
            p.spec_block_size() as int,
        ),
        forall|i: int|
            0 <= i < p.spec_issued().len() ==> 0 < #[trigger] p.spec_issued()[i].1
                <= p.spec_block_size(),
        read_bytes(p.spec_issued()) == p.spec_end() - p.spec_start(),
        p.spec_issued().len() == chunks(
            p.spec_end() - p.spec_start(),
            p.spec_block_size() as int,
        ),
{
    let reads = p.spec_issued();
    lemma_read_count_prefix(
        reads,
        p.spec_start() as int,
        p.spec_next_offset() as int,
        p.spec_end() as int,
        p.spec_block_size() as int,
        reads.len() as int,
    );
    assert(chunks(0, p.spec_block_size() as int) == 0);
    lemma_read_bytes_prefix(
        reads,
        p.spec_start() as int,
        p.spec_next_offset() as int,
        p.spec_end() as int,
        p.spec_block_size() as int,
        reads.len() as int,
    );
    assert(reads.take(reads.len() as int) =~= reads);
}

/// Accounts a finished read: the kernel must have read all it was asked
/// for; a short read is an unexpected end of file at the first byte not
/// read.  Returns the length of the write that carries the bytes on.
pub fn process_read_completion(stats: &mut IoUringCopyStats, completed: &CompletedOperation) -> (r:
    Result<usize>)
    ensures
        completed.bytes_transferred() != completed.length() ==> {
            &&& *final(stats) == *old(stats)
            &&& completed.bytes_transferred() > completed.length() ==> (r matches Err(
                Error::CorruptMetadata(_),
            ))
            &&& completed.bytes_transferred() < completed.length() && completed.offset()
                + completed.bytes_transferred() > u64::MAX ==> (r matches Err(
                Error::RangeOverflow { .. },
            ))
            &&& completed.bytes_transferred() < completed.length() && completed.offset()
                + completed.bytes_transferred() <= u64::MAX ==> (r matches Err(
                Error::UnexpectedEof { offset: o, remaining: m },
            ) && o == completed.offset() + completed.bytes_transferred() && m
                == completed.length() - completed.bytes_transferred())
        },
        completed.bytes_transferred() == completed.length() ==> {
            &&& old(stats).bytes_read() + completed.length() > u64::MAX ==> (r matches Err(
                Error::RangeOverflow { .. },
            ) && *final(stats) == *old(stats))
            &&& old(stats).bytes_read() + completed.length() <= u64::MAX ==> (r matches Ok(n)
                && n == completed.length() && final(stats).bytes_read() == old(stats).bytes_read()
                + n && final(stats).bytes_written() == old(stats).bytes_written()
                && final(stats).blocks_completed() == old(stats).blocks_completed())
        },
{
    let offset = completed.offset();
    let expected = completed.length();
    let actual = completed.bytes_transferred();
    if actual != expected {
        if actual > expected {
            return Err(
                Error::CorruptMetadata(
                    "io_uring read completion exceeded requested length".to_owned(),
                ),
            );
        }
        let remaining = expected - actual;
        let eof_offset = match offset.checked_add(actual as u64) {
            Some(eof_offset) => eof_offset,
            None => {
                return Err(Error::RangeOverflow { offset, length: actual as u64 });
            },
        };
        return Err(Error::UnexpectedEof { offset: eof_offset, remaining });
    }
    stats.bytes_read = match stats.bytes_read.checked_add(actual as u64) {
        Some(total) => total,
        None => {
            return Err(Error::RangeOverflow { offset: stats.bytes_read, length: actual as u64 });
        },
    };
    Ok(actual)
}

/// Accounts a finished write: the kernel must have written all it was
/// asked for; anything less is a short write.
pub fn process_write_completion(stats: &mut IoUringCopyStats, completed: &CompletedOperation) -> (r:
    Result<()>)
    ensures
        completed.bytes_transferred() != completed.length() ==> (r matches Err(
            Error::ShortWrite { offset: o, expected: e, actual: a },
        ) && o == completed.offset() && e == completed.length() && a
            == completed.bytes_transferred() && *final(stats) == *old(stats)),
        completed.bytes_transferred() == completed.length() && old(stats).bytes_written()
            + completed.length() <= u64::MAX && old(stats).blocks_completed() + 1 <= u64::MAX
            ==> (r is Ok && final(stats).bytes_written() == old(stats).bytes_written()
            + completed.length() && final(stats).blocks_completed() == old(
            stats,
        ).blocks_completed() + 1 && final(stats).bytes_read() == old(stats).bytes_read()),
        completed.bytes_transferred() == completed.length() && (old(stats).bytes_written()
            + completed.length() > u64::MAX || old(stats).blocks_completed() + 1 > u64::MAX)
            ==> (r matches Err(Error::RangeOverflow { .. })),
{
    let offset = completed.offset();
    let expected = completed.length();
    let actual = completed.bytes_transferred();
    if actual != expected {
        return Err(Error::ShortWrite { offset, expected, actual });
    }
    let written = match stats.bytes_written.checked_add(actual as u64) {
        Some(total) => total,
        None => {
            return Err(Error::RangeOverflow { offset: stats.bytes_written, length: actual as u64 });
        },
    };
    let blocks = match stats.blocks_completed.checked_add(1) {
        Some(total) => total,
        None => {
            return Err(Error::RangeOverflow { offset: stats.blocks_completed, length: 1 });
        },
    };
    stats.bytes_written = written;
    stats.blocks_completed = blocks;
    Ok(())
}

/// What a range copy does after an operation completed.
pub enum CompletionStep {
    /// Write the bytes just read, from the same buffer, where they came
    /// from in the source.
    Write { offset: u64, length: usize, buffer: BufferGuard },
    /// Give the buffer back to the pool, and read the next block if the
    /// range has one left.
    Release { buffer: BufferGuard, next_read: Option<(u64, usize)> },
}

/// Accounts a completed operation of a range copy and says what comes next:
/// a finished read is written out from the very same buffer; a finished
/// write frees its buffer for the next read.
pub fn on_completion(
    pipeline: &mut CopyPipeline,
    stats: &mut IoUringCopyStats,
    completed: CompletedOperation,
) -> (r: Result<CompletionStep>)
    requires
        old(pipeline).wf(),
    ensures
        final(pipeline).wf(),
        final(pipeline).spec_start() == old(pipeline).spec_start(),
        final(pipeline).spec_end() == old(pipeline).spec_end(),
        final(pipeline).spec_block_size() == old(pipeline).spec_block_size(),
        final(pipeline).spec_queue_depth() == old(pipeline).spec_queue_depth(),
        completed.kind() == IoUringOperationKind::Read ==> {
            &&& *final(pipeline) == *old(pipeline)
            &&& completed.bytes_transferred() != completed.length() ==> r is Err && *final(stats)
                == *old(stats)
            &&& completed.bytes_transferred() == completed.length() && old(stats).bytes_read()
                + completed.length() > u64::MAX ==> (r matches Err(Error::RangeOverflow { .. }))
            &&& completed.bytes_transferred() == completed.length() && old(stats).bytes_read()
                + completed.length() <= u64::MAX ==> (r matches Ok(
                CompletionStep::Write { offset, length, buffer },
            ) && offset == completed.offset() && length == completed.length() && buffer
                == completed.spec_buffer() && final(stats).bytes_read() == old(stats).bytes_read()
                + length && final(stats).bytes_written() == old(stats).bytes_written()
                && final(stats).blocks_completed() == old(stats).blocks_completed())
        },
        completed.kind() == IoUringOperationKind::Write ==> {
            &&& completed.bytes_transferred() != completed.length() ==> (r matches Err(
                Error::ShortWrite { .. },
            ) && *final(pipeline) == *old(pipeline))
            &&& r matches Ok(step) ==> {
                &&& completed.bytes_transferred() == completed.length()
                &&& final(stats).bytes_written() == old(stats).bytes_written()
                    + completed.length()
                &&& final(stats).blocks_completed() == old(stats).blocks_completed() + 1
                &&& final(stats).bytes_read() == old(stats).bytes_read()
                &&& step matches CompletionStep::Release { buffer, next_read }
                &&& buffer == completed.spec_buffer()
                &&& (old(pipeline).spec_next_offset() < old(pipeline).spec_end()) <==> next_read
                    is Some
                &&& next_read is None ==> *final(pipeline) == *old(pipeline)
                &&& next_read matches Some(read) ==> final(pipeline).spec_issued() == old(
                    pipeline,
                ).spec_issued().push(read) && read.0 == old(pipeline).spec_next_offset()
            }
            &&& completed.bytes_transferred() == completed.length() && old(stats).bytes_written()
                + completed.length() <= u64::MAX && old(stats).blocks_completed() + 1 <= u64::MAX
                ==> r is Ok
        },
{
    match completed.kind() {
        IoUringOperationKind::Read => {
            let length = process_read_completion(stats, &completed)?;
            let offset = completed.offset();
            Ok(CompletionStep::Write { offset, length, buffer: completed.into_buffer() })
        },
        IoUringOperationKind::Write => {
            process_write_completion(stats, &completed)?;
            let next_read = pipeline.next_refill_read();
            Ok(CompletionStep::Release { buffer: completed.into_buffer(), next_read })
        },
    }
}

} // verus!
