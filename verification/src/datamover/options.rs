use vstd::prelude::*;

use crate::error::{Error, Result};
use crate::power_of_two::{is_power_of_two, power_of_two};

verus! {

pub const DEFAULT_BUFFER_COUNT: usize = 1;

pub const DEFAULT_BLOCK_SIZE: usize = 1048576;

pub const DEFAULT_BUFFER_ALIGNMENT: usize = 4096;

pub const DEFAULT_CONCURRENCY: usize = 1;

/// Tuning of a copy: the largest single transfer, the alignment of the
/// transfer buffers, how many buffers the pool holds and how many workers
/// drain the work queue.
#[derive(Debug, Clone, Copy, PartialEq, Eq, Structural)]
pub struct CopyOptions {
    block_size: usize,
    buffer_alignment: usize,
    buffer_count: usize,
    concurrency: usize,
}

/// The outcome of checking a block size and a buffer alignment.
pub open spec fn block_and_alignment_outcome<T>(block_size: usize, alignment: usize, r: Result<T>) -> bool {
    if block_size == 0 {
        r matches Err(Error::InvalidAlignment { value: v, alignment: a }) && v == 0 && a == 1
    } else if !is_power_of_two(alignment as nat) {
        r matches Err(Error::InvalidBufferAlignment { alignment: a }) && a == alignment
    } else {
        r is Ok
    }
}

impl CopyOptions {
    #[verifier::type_invariant]
    spec fn valid(self) -> bool {
        &&& self.block_size > 0
        &&& is_power_of_two(self.buffer_alignment as nat)
        &&& self.buffer_count > 0
        &&& self.concurrency > 0
    }

    pub closed spec fn spec_block_size(&self) -> usize {
        self.block_size
    }

    pub closed spec fn spec_buffer_alignment(&self) -> usize {
        self.buffer_alignment
    }

    pub closed spec fn spec_buffer_count(&self) -> usize {
        self.buffer_count
    }

    pub closed spec fn spec_concurrency(&self) -> usize {
        self.concurrency
    }

    /// Options with the given block size and the defaults for the rest; a
    /// zero block size is refused.
    pub fn new(block_size: usize) -> (r: Result<CopyOptions>)
        ensures
            block_size == 0 ==> (r matches Err(Error::InvalidAlignment { value: v, alignment: a })
                && v == 0 && a == 1),
            block_size > 0 ==> (r matches Ok(o) && o.block_size() == block_size
                && o.buffer_alignment() == DEFAULT_BUFFER_ALIGNMENT && o.buffer_count()
                == DEFAULT_BUFFER_COUNT && o.concurrency() == DEFAULT_CONCURRENCY),
    {
        if block_size == 0 {
            return Err(Error::InvalidAlignment { value: 0, alignment: 1 });
        }
        proof {
            reveal_with_fuel(is_power_of_two, 13);
        }
        Ok(
            CopyOptions {
                block_size,
                buffer_alignment: DEFAULT_BUFFER_ALIGNMENT,
                buffer_count: DEFAULT_BUFFER_COUNT,
                concurrency: DEFAULT_CONCURRENCY,
            },
        )
    }

    /// Options with a block size and a buffer alignment, which must be a
    /// power of two.
    pub fn with_alignment(block_size: usize, buffer_alignment: usize) -> (r: Result<CopyOptions>)
        ensures
            block_and_alignment_outcome(block_size, buffer_alignment, r),
            r matches Ok(o) ==> o.block_size() == block_size && o.buffer_alignment()
                == buffer_alignment && o.buffer_count() == DEFAULT_BUFFER_COUNT && o.concurrency()
                == DEFAULT_CONCURRENCY,
    {
        if block_size == 0 {
            return Err(Error::InvalidAlignment { value: 0, alignment: 1 });
        }
        if buffer_alignment == 0 || !power_of_two(buffer_alignment) {
            return Err(Error::InvalidBufferAlignment { alignment: buffer_alignment });
        }
        Ok(
            CopyOptions {
                block_size,
                buffer_alignment,
                buffer_count: DEFAULT_BUFFER_COUNT,
                concurrency: DEFAULT_CONCURRENCY,
            },
        )
    }

    /// Options with a block size, an alignment and a pool of `buffer_count`
    /// buffers, which must not be empty.
    pub fn with_buffer_pool(block_size: usize, buffer_alignment: usize, buffer_count: usize) -> (r:
        Result<CopyOptions>)
        ensures
            !(r is Ok) || buffer_count > 0,
            block_size == 0 || !is_power_of_two(buffer_alignment as nat) ==> block_and_alignment_outcome(
                block_size,
                buffer_alignment,
                r,
            ),
            block_size > 0 && is_power_of_two(buffer_alignment as nat) && buffer_count == 0 ==> (
            r matches Err(Error::InvalidBufferPoolCapacity)),
            r matches Ok(o) ==> o.block_size() == block_size && o.buffer_alignment()
                == buffer_alignment && o.buffer_count() == buffer_count && o.concurrency()
                == DEFAULT_CONCURRENCY,
            block_size > 0 && is_power_of_two(buffer_alignment as nat) && buffer_count > 0 ==> r is Ok,
    {
        if block_size == 0 {
            return Err(Error::InvalidAlignment { value: 0, alignment: 1 });
        }
        if buffer_alignment == 0 || !power_of_two(buffer_alignment) {
            return Err(Error::InvalidBufferAlignment { alignment: buffer_alignment });
        }
        if buffer_count == 0 {
            return Err(Error::InvalidBufferPoolCapacity);
        }
        Ok(CopyOptions { block_size, buffer_alignment, buffer_count, concurrency: DEFAULT_CONCURRENCY })
    }

    /// Options for a copy by `concurrency` workers, each with a buffer of
    /// its own; zero workers are refused.
    pub fn with_concurrency(block_size: usize, buffer_alignment: usize, concurrency: usize) -> (r:
        Result<CopyOptions>)
        ensures
            block_size == 0 || !is_power_of_two(buffer_alignment as nat) ==> block_and_alignment_outcome(
                block_size,
                buffer_alignment,
                r,
            ),
            block_size > 0 && is_power_of_two(buffer_alignment as nat) && concurrency == 0 ==> (
            r matches Err(Error::InvalidWorkQueueCapacity)),
            block_size > 0 && is_power_of_two(buffer_alignment as nat) && concurrency > 0 ==> (
            r matches Ok(o) && o.block_size() == block_size && o.buffer_alignment()
                == buffer_alignment && o.buffer_count() == concurrency && o.concurrency()
                == concurrency),
    {
        if block_size == 0 {
            return Err(Error::InvalidAlignment { value: 0, alignment: 1 });
        }
        if buffer_alignment == 0 || !power_of_two(buffer_alignment) {
            return Err(Error::InvalidBufferAlignment { alignment: buffer_alignment });
        }
        if concurrency == 0 {
            return Err(Error::InvalidWorkQueueCapacity);
        }
        Ok(CopyOptions { block_size, buffer_alignment, buffer_count: concurrency, concurrency })
    }

    /// Largest number of bytes moved by one read or write.
    #[verifier::when_used_as_spec(spec_block_size)]
    pub fn block_size(&self) -> (b: usize)
        ensures
            b == self.spec_block_size(),
            b > 0,
    {
        proof {
            use_type_invariant(self);
        }
        self.block_size
    }

    #[verifier::when_used_as_spec(spec_buffer_alignment)]
    pub fn buffer_alignment(&self) -> (a: usize)
        ensures
            a == self.spec_buffer_alignment(),
            is_power_of_two(a as nat),
    {
        proof {
            use_type_invariant(self);
        }
        self.buffer_alignment
    }

    #[verifier::when_used_as_spec(spec_buffer_count)]
    pub fn buffer_count(&self) -> (c: usize)
        ensures
            c == self.spec_buffer_count(),
            c > 0,
    {
        proof {
            use_type_invariant(self);
        }
        self.buffer_count
    }

    #[verifier::when_used_as_spec(spec_concurrency)]
    pub fn concurrency(&self) -> (c: usize)
        ensures
            c == self.spec_concurrency(),
            c > 0,
    {
        proof {
            use_type_invariant(self);
        }
        self.concurrency
    }
}

impl Default for CopyOptions {
    /// One-mebibyte blocks, 4096-byte alignment, one buffer, one worker.
    fn default() -> (o: CopyOptions)
        ensures
            o.block_size() == DEFAULT_BLOCK_SIZE,
            o.buffer_alignment() == DEFAULT_BUFFER_ALIGNMENT,
            o.buffer_count() == DEFAULT_BUFFER_COUNT,
            o.concurrency() == DEFAULT_CONCURRENCY,
    {
        proof {
            reveal_with_fuel(is_power_of_two, 13);
        }
        CopyOptions {
            block_size: DEFAULT_BLOCK_SIZE,
            buffer_alignment: DEFAULT_BUFFER_ALIGNMENT,
            buffer_count: DEFAULT_BUFFER_COUNT,
            concurrency: DEFAULT_CONCURRENCY,
        }
    }
}

} // verus!
