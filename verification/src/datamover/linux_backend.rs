use vstd::prelude::*;

verus! {

/// What a Linux file descriptor allows for direct, asynchronous I/O: whether
/// it is opened for direct I/O, and the alignment its buffers and offsets
/// must keep.
#[derive(Debug, Clone, Copy, PartialEq, Eq, Structural)]
pub struct LinuxFdCapabilities {
    direct_io: bool,
    memory_alignment: usize,
    offset_alignment: usize,
}

impl LinuxFdCapabilities {
    pub closed spec fn spec_direct_io(&self) -> bool {
        self.direct_io
    }

    pub closed spec fn spec_memory_alignment(&self) -> usize {
        self.memory_alignment
    }

    pub closed spec fn spec_offset_alignment(&self) -> usize {
        self.offset_alignment
    }

    pub fn new(direct_io: bool, memory_alignment: usize, offset_alignment: usize) -> (c:
        LinuxFdCapabilities)
        ensures
            c.direct_io() == direct_io,
            c.memory_alignment() == memory_alignment,
            c.offset_alignment() == offset_alignment,
    {
        LinuxFdCapabilities { direct_io, memory_alignment, offset_alignment }
    }

    #[verifier::when_used_as_spec(spec_direct_io)]
    pub fn direct_io(&self) -> (b: bool)
        ensures
            b == self.spec_direct_io(),
    {
        self.direct_io
    }

    #[verifier::when_used_as_spec(spec_memory_alignment)]
    pub fn memory_alignment(&self) -> (a: usize)
        ensures
            a == self.spec_memory_alignment(),
    {
        self.memory_alignment
    }

    #[verifier::when_used_as_spec(spec_offset_alignment)]
    pub fn offset_alignment(&self) -> (a: usize)
        ensures
            a == self.spec_offset_alignment(),
    {
        self.offset_alignment
    }
}

/// A backend reachable through a Linux file descriptor.
pub trait LinuxFdBackend {
    /// The capabilities the descriptor reports.
    spec fn spec_linux_fd_capabilities(&self) -> LinuxFdCapabilities;

    /// The raw descriptor (a C `int`).
    fn raw_fd(&self) -> i32;

    fn linux_fd_capabilities(&self) -> (c: LinuxFdCapabilities)
        ensures
            c == self.spec_linux_fd_capabilities(),
    ;
}

} // verus!
