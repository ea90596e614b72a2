use vstd::prelude::*;

use crate::datamover::linux_backend::{LinuxFdBackend, LinuxFdCapabilities};

verus! {

/// Whether a source and destination pair can be served by io_uring, whether
/// both use direct I/O, and the alignment their transfers must keep.
#[derive(Debug, Clone, Copy, PartialEq, Eq, Structural)]
pub struct IoUringCompatibility {
    compatible: bool,
    direct_io: bool,
    alignment: usize,
}

/// The larger of `a` and `b`.
pub open spec fn larger(a: usize, b: usize) -> usize {
    if a >= b {
        a
    } else {
        b
    }
}

/// The alignment a pair must keep: the largest of the buffer and offset
/// alignments of both ends.
pub open spec fn pair_alignment(source: LinuxFdCapabilities, destination: LinuxFdCapabilities) -> usize {
    larger(
        larger(
            larger(source.memory_alignment(), source.offset_alignment()),
            destination.memory_alignment(),
        ),
        destination.offset_alignment(),
    )
}

/// The pair's alignment is the largest of its four alignments: at least
/// the buffer and offset alignment of either end, and equal to one of them.
pub proof fn lemma_pair_alignment_is_largest(
    source: LinuxFdCapabilities,
    destination: LinuxFdCapabilities,
)
    ensures
        pair_alignment(source, destination) >= source.memory_alignment(),
        pair_alignment(source, destination) >= source.offset_alignment(),
        pair_alignment(source, destination) >= destination.memory_alignment(),
        pair_alignment(source, destination) >= destination.offset_alignment(),
        pair_alignment(source, destination) == source.memory_alignment() || pair_alignment(
            source,
            destination,
        ) == source.offset_alignment() || pair_alignment(source, destination)
            == destination.memory_alignment() || pair_alignment(source, destination)
            == destination.offset_alignment(),
{
}

impl IoUringCompatibility {
    pub closed spec fn spec_compatible(&self) -> bool {
        self.compatible
    }

    pub closed spec fn spec_direct_io(&self) -> bool {
        self.direct_io
    }

    pub closed spec fn spec_alignment(&self) -> usize {
        self.alignment
    }

    #[verifier::when_used_as_spec(spec_direct_io)]
    pub fn direct_io(&self) -> (b: bool)
        ensures
            b == self.spec_direct_io(),
    {
        self.direct_io
    }

    #[verifier::when_used_as_spec(spec_compatible)]
    pub fn compatible(&self) -> (b: bool)
        ensures
            b == self.spec_compatible(),
    {
        self.compatible
    }

    #[verifier::when_used_as_spec(spec_alignment)]
    pub fn alignment(&self) -> (a: usize)
        ensures
            a == self.spec_alignment(),
    {
        self.alignment
    }
}

fn max_usize(a: usize, b: usize) -> (m: usize)
    ensures
        m == larger(a, b),
{
    if a >= b {
        a
    } else {
        b
    }
}

/// The compatibility of a pair with these descriptor capabilities: always
/// compatible, direct only if both ends are, aligned to the largest of the
/// four alignments.
pub fn compatibility_of(source: LinuxFdCapabilities, destination: LinuxFdCapabilities) -> (c:
    IoUringCompatibility)
    ensures
        c.compatible(),
        c.direct_io() == (source.direct_io() && destination.direct_io()),
        c.alignment() == pair_alignment(source, destination),
        c.alignment() >= source.memory_alignment() && c.alignment() >= source.offset_alignment()
            && c.alignment() >= destination.memory_alignment() && c.alignment()
            >= destination.offset_alignment(),
        c.alignment() == source.memory_alignment() || c.alignment() == source.offset_alignment()
            || c.alignment() == destination.memory_alignment() || c.alignment()
            == destination.offset_alignment(),
{
    let alignment = max_usize(
        max_usize(
            max_usize(source.memory_alignment(), source.offset_alignment()),
            destination.memory_alignment(),
        ),
        destination.offset_alignment(),
    );
    let direct_io = source.direct_io() && destination.direct_io();
    IoUringCompatibility { compatible: true, direct_io, alignment }
}

/// The compatibility of the pair `source`, `destination`, from the
/// capabilities their descriptors report.
pub fn evaluate_compatibility<S, D>(source: &S, destination: &D) -> (c: IoUringCompatibility) where
    S: LinuxFdBackend,
    D: LinuxFdBackend,
    ensures
        c.compatible(),
        c.direct_io() == (source.spec_linux_fd_capabilities().direct_io()
            && destination.spec_linux_fd_capabilities().direct_io()),
        c.alignment() == pair_alignment(
            source.spec_linux_fd_capabilities(),
            destination.spec_linux_fd_capabilities(),
        ),
{
    let source_capabilities = source.linux_fd_capabilities();
    let destination_capabilities = destination.linux_fd_capabilities();
    compatibility_of(source_capabilities, destination_capabilities)
}

} // verus!
