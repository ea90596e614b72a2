use vstd::prelude::*;

use crate::datamover::execution::ExecutionBackend;
use crate::datamover::uring::copy::IoUringCopyStats;

verus! {

/// What a native (io_uring) copy of a byte range did.
#[derive(Debug, Default, Clone, Copy, PartialEq, Eq, Structural)]
pub struct NativeCopyStats {
    bytes_read: u64,
    bytes_written: u64,
    blocks_completed: u64,
}

impl NativeCopyStats {
    pub closed spec fn spec_bytes_read(&self) -> u64 {
        self.bytes_read
    }

    pub closed spec fn spec_bytes_written(&self) -> u64 {
        self.bytes_written
    }

    pub closed spec fn spec_blocks_completed(&self) -> u64 {
        self.blocks_completed
    }

    #[verifier::when_used_as_spec(spec_bytes_read)]
    pub fn bytes_read(&self) -> (b: u64)
        ensures
            b == self.spec_bytes_read(),
    {
        self.bytes_read
    }

    #[verifier::when_used_as_spec(spec_bytes_written)]
    pub fn bytes_written(&self) -> (b: u64)
        ensures
            b == self.spec_bytes_written(),
    {
        self.bytes_written
    }

    #[verifier::when_used_as_spec(spec_blocks_completed)]
    pub fn blocks_completed(&self) -> (b: u64)
        ensures
            b == self.spec_blocks_completed(),
    {
        self.blocks_completed
    }
}

impl From<IoUringCopyStats> for NativeCopyStats {
    fn from(stats: IoUringCopyStats) -> (n: NativeCopyStats)
        ensures
            n.bytes_read() == stats.bytes_read(),
            n.bytes_written() == stats.bytes_written(),
            n.blocks_completed() == stats.blocks_completed(),
    {
        NativeCopyStats {
            bytes_read: stats.bytes_read(),
            bytes_written: stats.bytes_written(),
            blocks_completed: stats.blocks_completed(),
        }
    }
}

impl vstd::std_specs::convert::FromSpecImpl<IoUringCopyStats> for NativeCopyStats {
    open spec fn obeys_from_spec() -> bool {
        true
    }

    closed spec fn from_spec(stats: IoUringCopyStats) -> NativeCopyStats {
        NativeCopyStats {
            bytes_read: stats.spec_bytes_read(),
            bytes_written: stats.spec_bytes_written(),
            blocks_completed: stats.spec_blocks_completed(),
        }
    }
}

/// A native copy's statistics with the backend that carried it out.
#[derive(Debug, Clone, Copy, PartialEq, Eq, Structural)]
pub struct NativeCopyReport {
    backend: ExecutionBackend,
    stats: NativeCopyStats,
}

impl NativeCopyReport {
    pub closed spec fn spec_backend(&self) -> ExecutionBackend {
        self.backend
    }

    pub closed spec fn spec_stats(&self) -> NativeCopyStats {
        self.stats
    }

    pub fn new(backend: ExecutionBackend, stats: NativeCopyStats) -> (r: NativeCopyReport)
        ensures
            r.backend() == backend,
            r.spec_stats() == stats,
    {
        NativeCopyReport { backend, stats }
    }

    #[verifier::when_used_as_spec(spec_backend)]
    pub fn backend(&self) -> (b: ExecutionBackend)
        ensures
            b == self.spec_backend(),
    {
        self.backend
    }

    pub fn stats(&self) -> (s: &NativeCopyStats)
        ensures
            *s == self.spec_stats(),
    {
        &self.stats
    }
}

} // verus!
