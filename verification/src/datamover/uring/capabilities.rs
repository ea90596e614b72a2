use vstd::prelude::*;

use crate::datamover::uring::ring::{
    feature_fast_poll, feature_nodrop, feature_submit_stable, ring_parameters, setup_ring,
};
use crate::error::{Error, Result};

verus! {

/// What the kernel's io_uring offers at a queue depth.
#[derive(Debug, Clone, Copy, PartialEq, Eq, Structural)]
pub struct IoUringCapabilities {
    queue_depth: u32,
    fast_poll: bool,
    nodrop: bool,
    submit_stable: bool,
}

impl IoUringCapabilities {
    pub closed spec fn spec_queue_depth(&self) -> u32 {
        self.queue_depth
    }

    #[verifier::when_used_as_spec(spec_queue_depth)]
    pub fn queue_depth(&self) -> (d: u32)
        ensures
            d == self.spec_queue_depth(),
    {
        self.queue_depth
    }

    pub closed spec fn spec_fast_poll(&self) -> bool {
        self.fast_poll
    }

    pub closed spec fn spec_nodrop(&self) -> bool {
        self.nodrop
    }

    pub closed spec fn spec_submit_stable(&self) -> bool {
        self.submit_stable
    }

    /// Whether the kernel polls for readiness instead of using a worker.
    #[verifier::when_used_as_spec(spec_fast_poll)]
    pub fn fast_poll(&self) -> (b: bool)
        ensures
            b == self.spec_fast_poll(),
    {
        self.fast_poll
    }

    /// Whether the kernel keeps completions when the completion queue is
    /// full.
    #[verifier::when_used_as_spec(spec_nodrop)]
    pub fn nodrop(&self) -> (b: bool)
        ensures
            b == self.spec_nodrop(),
    {
        self.nodrop
    }

    /// Whether submitted entries may be reused once submitted.
    #[verifier::when_used_as_spec(spec_submit_stable)]
    pub fn submit_stable(&self) -> (b: bool)
        ensures
            b == self.spec_submit_stable(),
    {
        self.submit_stable
    }
}

/// Sets up a ring of `queue_depth` entries and reports the features the
/// kernel grants.  A zero depth is refused before the kernel is asked; a
/// kernel refusal is an I/O error.
pub fn probe_io_uring(queue_depth: u32) -> (r: Result<IoUringCapabilities>)
    ensures
        queue_depth == 0 ==> r matches Err(Error::InvalidIoUringQueueDepth),
        queue_depth > 0 ==> (r is Ok || r matches Err(Error::Io(_))),
        r matches Ok(c) ==> c.queue_depth() == queue_depth,
{
    if queue_depth == 0 {
        return Err(Error::InvalidIoUringQueueDepth);
    }
    let ring = match setup_ring(queue_depth) {
        Ok(ring) => ring,
        Err(e) => {
            return Err(Error::Io(e));
        },
    };
    let parameters = ring_parameters(&ring);
    Ok(
        IoUringCapabilities {
            queue_depth,
            fast_poll: feature_fast_poll(parameters),
            nodrop: feature_nodrop(parameters),
            submit_stable: feature_submit_stable(parameters),
        },
    )
}

} // verus!
