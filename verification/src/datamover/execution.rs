use vstd::prelude::*;

verus! {

/// How a copy is to be executed.
#[derive(Debug, Clone, Copy, PartialEq, Eq, Structural)]
pub enum ExecutionStrategy {
    /// Portable, synchronous reads and writes.
    Threaded,
    /// The Linux io_uring engine, refusing pairs it cannot serve.
    IoUring(IoUringExecutionOptions),
    /// io_uring where the pair allows it, threaded otherwise.
    Auto(IoUringExecutionOptions),
}

impl Default for ExecutionStrategy {
    fn default() -> (s: ExecutionStrategy)
        ensures
            s == ExecutionStrategy::Threaded,
    {
        ExecutionStrategy::Threaded
    }
}

/// Sizing of the io_uring pipeline: `1 <= read_window <= queue_depth`.
#[derive(Debug, Clone, Copy, PartialEq, Eq, Structural)]
pub struct IoUringExecutionOptions {
    queue_depth: u32,
    read_window: usize,
}

/// Half of `n`, rounded up.
pub open spec fn half_rounded_up(n: int) -> int {
    (n + 1) / 2
}

impl IoUringExecutionOptions {
    #[verifier::type_invariant]
    spec fn sizes_valid(self) -> bool {
        &&& self.queue_depth > 0
        &&& 1 <= self.read_window <= self.queue_depth
    }

    pub closed spec fn spec_queue_depth(&self) -> u32 {
        self.queue_depth
    }

    pub closed spec fn spec_read_window(&self) -> usize {
        self.read_window
    }

    /// Options for `queue_depth` with a read window of half the depth,
    /// rounded up; `None` for a zero depth.
    pub fn new(queue_depth: u32) -> (r: Option<IoUringExecutionOptions>)
        ensures
            queue_depth == 0 <==> r is None,
            r matches Some(o) ==> o.queue_depth() == queue_depth && o.read_window()
                == half_rounded_up(queue_depth as int),
    {
        if queue_depth == 0 {
            return None;
        }
        let read_window = (queue_depth / 2 + queue_depth % 2) as usize;
        Some(IoUringExecutionOptions { queue_depth, read_window })
    }

    /// Options with an explicit read window; `None` unless
    /// `1 <= read_window <= queue_depth`.
    pub fn with_read_window(queue_depth: u32, read_window: usize) -> (r: Option<
        IoUringExecutionOptions,
    >)
        ensures
            (queue_depth == 0 || read_window == 0 || read_window > queue_depth) <==> r is None,
            r matches Some(o) ==> o.queue_depth() == queue_depth && o.read_window() == read_window,
    {
        if queue_depth == 0 || read_window == 0 || read_window as u64 > queue_depth as u64 {
            return None;
        }
        Some(IoUringExecutionOptions { queue_depth, read_window })
    }

    #[verifier::when_used_as_spec(spec_queue_depth)]
    pub fn queue_depth(&self) -> (q: u32)
        ensures
            q == self.spec_queue_depth(),
            q > 0,
    {
        proof {
            use_type_invariant(self);
        }
        self.queue_depth
    }

    #[verifier::when_used_as_spec(spec_read_window)]
    pub fn read_window(&self) -> (w: usize)
        ensures
            w == self.spec_read_window(),
            1 <= w <= self.spec_queue_depth(),
    {
        proof {
            use_type_invariant(self);
        }
        self.read_window
    }
}

/// The engine that carried out, or is to carry out, a copy.
#[derive(Debug, Clone, Copy, PartialEq, Eq, Structural)]
pub enum ExecutionBackend {
    Threaded,
    IoUring,
}

} // verus!
