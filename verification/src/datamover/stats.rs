use vstd::prelude::*;

use core::time::Duration;

use crate::datamover::execution::ExecutionBackend;
use crate::datamover::uring::extent_copy::IoUringExtentCopyStats;

verus! {

/// What a copy did: bytes read from the source, bytes written, zeroed and
/// discarded on the destination, block transfers, extents handled, and
/// the time it took.
#[derive(Debug, Clone, Copy, PartialEq, Eq)]
pub struct CopyStats {
    bytes_read: u64,
    bytes_written: u64,
    bytes_zeroed: u64,
    bytes_discarded: u64,
    blocks_copied: u64,
    extents_processed: u64,
    elapsed: Duration,
}

impl CopyStats {
    pub closed spec fn spec_bytes_read(&self) -> u64 {
        self.bytes_read
    }

    pub closed spec fn spec_bytes_written(&self) -> u64 {
        self.bytes_written
    }

    pub closed spec fn spec_bytes_zeroed(&self) -> u64 {
        self.bytes_zeroed
    }

    pub closed spec fn spec_bytes_discarded(&self) -> u64 {
        self.bytes_discarded
    }

    pub closed spec fn spec_blocks_copied(&self) -> u64 {
        self.blocks_copied
    }

    pub closed spec fn spec_extents_processed(&self) -> u64 {
        self.extents_processed
    }

    pub closed spec fn spec_elapsed(&self) -> Duration {
        self.elapsed
    }

    pub fn new(
        bytes_read: u64,
        bytes_written: u64,
        bytes_zeroed: u64,
        bytes_discarded: u64,
        blocks_copied: u64,
        extents_processed: u64,
        elapsed: Duration,
    ) -> (s: CopyStats)
        ensures
            s.bytes_read() == bytes_read,
            s.bytes_written() == bytes_written,
            s.bytes_zeroed() == bytes_zeroed,
            s.bytes_discarded() == bytes_discarded,
            s.blocks_copied() == blocks_copied,
            s.extents_processed() == extents_processed,
            s.spec_elapsed() == elapsed,
    {
        CopyStats {
            bytes_read,
            bytes_written,
            bytes_zeroed,
            bytes_discarded,
            blocks_copied,
            extents_processed,
            elapsed,
        }
    }

    #[verifier::when_used_as_spec(spec_bytes_read)]
    pub fn bytes_read(&self) -> (b: u64)
        ensures
            b == self.spec_bytes_read(),
    {
        self.bytes_read
    }

    #[verifier::when_used_as_spec(spec_bytes_written)]
    pub fn bytes_written(&self) -> (b: u64)
        ensures
            b == self.spec_bytes_written(),
    {
        self.bytes_written
    }

    #[verifier::when_used_as_spec(spec_bytes_zeroed)]
    pub fn bytes_zeroed(&self) -> (b: u64)
        ensures
            b == self.spec_bytes_zeroed(),
    {
        self.bytes_zeroed
    }

    #[verifier::when_used_as_spec(spec_bytes_discarded)]
    pub fn bytes_discarded(&self) -> (b: u64)
        ensures
            b == self.spec_bytes_discarded(),
    {
        self.bytes_discarded
    }

    #[verifier::when_used_as_spec(spec_blocks_copied)]
    pub fn blocks_copied(&self) -> (b: u64)
        ensures
            b == self.spec_blocks_copied(),
    {
        self.blocks_copied
    }

    #[verifier::when_used_as_spec(spec_extents_processed)]
    pub fn extents_processed(&self) -> (n: u64)
        ensures
            n == self.spec_extents_processed(),
    {
        self.extents_processed
    }

    /// The statistics of a native copy of an extent plan that took
    /// `elapsed`: every completed block counts as copied.
    pub fn from_io_uring_extents(stats: IoUringExtentCopyStats, elapsed: Duration) -> (s: CopyStats)
        ensures
            s.bytes_read() == stats.bytes_read(),
            s.bytes_written() == stats.bytes_written(),
            s.bytes_zeroed() == stats.bytes_zeroed(),
            s.bytes_discarded() == stats.bytes_discarded(),
            s.blocks_copied() == stats.blocks_completed(),
            s.extents_processed() == stats.extents_processed(),
            s.spec_elapsed() == elapsed,
    {
        CopyStats::new(
            stats.bytes_read(),
            stats.bytes_written(),
            stats.bytes_zeroed(),
            stats.bytes_discarded(),
            stats.blocks_completed(),
            stats.extents_processed(),
            elapsed,
        )
    }

    /// Time the copy took.
    pub fn elapsed(&self) -> (d: Duration)
        ensures
            d == self.spec_elapsed(),
    {
        self.elapsed
    }
}

/// A copy's statistics with the backend that carried it out.
#[derive(Debug, Clone, Copy, PartialEq, Eq)]
pub struct CopyReport {
    backend: ExecutionBackend,
    stats: CopyStats,
}

impl CopyReport {
    pub closed spec fn spec_backend(&self) -> ExecutionBackend {
        self.backend
    }

    pub closed spec fn spec_stats(&self) -> CopyStats {
        self.stats
    }

    pub fn new(backend: ExecutionBackend, stats: CopyStats) -> (r: CopyReport)
        ensures
            r.backend() == backend,
            r.spec_stats() == stats,
    {
        CopyReport { backend, stats }
    }

    #[verifier::when_used_as_spec(spec_backend)]
    pub fn backend(&self) -> (b: ExecutionBackend)
        ensures
            b == self.spec_backend(),
    {
        self.backend
    }

    pub fn stats(&self) -> (s: &CopyStats)
        ensures
            *s == self.spec_stats(),
    {
        &self.stats
    }
}

} // verus!
