use vstd::prelude::*;

use crate::buffer::{max_buffer_len, AlignedBuffer};
use crate::error::{Error, Result};
use crate::power_of_two::is_power_of_two;

verus! {

/// A fixed set of equally sized, equally aligned buffers that are lent out
/// and given back.
pub struct BufferPool {
    buffers: Vec<AlignedBuffer>,
    capacity: usize,
    buffer_size: usize,
    alignment: usize,
}

/// A buffer lent out by a pool.  The pool takes it back only through
/// `BufferPool::release`: a guard that is dropped is lost to its pool, so
/// a caller that wants buffers back on drop wraps guards in a type of its
/// own whose drop releases them.
#[must_use]
pub struct BufferGuard {
    buffer: AlignedBuffer,
}

/// Whether `b` is a well-formed buffer of `size` bytes aligned to `alignment`.
pub open spec fn fits_pool(b: AlignedBuffer, size: usize, alignment: usize) -> bool {
    &&& b.wf()
    &&& b@.len() == size
    &&& b.spec_alignment() == alignment
}

impl BufferPool {
    /// The pool holds at most `capacity` buffers, all of its size and
    /// alignment.
    pub closed spec fn wf(&self) -> bool {
        &&& self.capacity > 0
        &&& self.buffers@.len() <= self.capacity
        &&& forall|i: int|
            0 <= i < self.buffers@.len() ==> fits_pool(
                #[trigger] self.buffers@[i],
                self.buffer_size,
                self.alignment,
            )
    }

    pub closed spec fn spec_capacity(&self) -> usize {
        self.capacity
    }

    pub closed spec fn spec_buffer_size(&self) -> usize {
        self.buffer_size
    }

    pub closed spec fn spec_alignment(&self) -> usize {
        self.alignment
    }

    /// The buffers in the pool, not lent out; the last is lent out next.
    pub closed spec fn spec_buffers(&self) -> Seq<AlignedBuffer> {
        self.buffers@
    }

    /// Number of buffers in the pool, not lent out.
    pub open spec fn spec_available(&self) -> nat {
        self.spec_buffers().len()
    }

    /// A pool of `capacity` zero-filled buffers of `buffer_size` bytes
    /// aligned to `alignment`.  An empty pool is refused, and so is a
    /// buffer `AlignedBuffer::new` refuses.
    pub fn new(capacity: usize, buffer_size: usize, alignment: usize) -> (r: Result<BufferPool>)
        ensures
            capacity == 0 ==> r matches Err(Error::InvalidBufferPoolCapacity),
            capacity > 0 && !is_power_of_two(alignment as nat) ==> (r matches Err(
                Error::InvalidBufferAlignment { alignment: a },
            ) && a == alignment),
            capacity > 0 && is_power_of_two(alignment as nat) && (buffer_size == 0 || buffer_size
                > max_buffer_len(alignment)) ==> (r matches Err(
                Error::BufferAllocation { size: s, alignment: a },
            ) && s == buffer_size && a == alignment),
            capacity > 0 && is_power_of_two(alignment as nat) && 0 < buffer_size
                <= max_buffer_len(alignment) ==> (r matches Ok(p) && p.wf() && p.capacity()
                == capacity && p.buffer_size() == buffer_size && p.alignment() == alignment
                && p.spec_available() == capacity),
    {
        if capacity == 0 {
            return Err(Error::InvalidBufferPoolCapacity);
        }
        let mut buffers: Vec<AlignedBuffer> = Vec::new();
        let mut i: usize = 0;
        while i < capacity
            invariant
                0 <= i <= capacity,
                buffers@.len() == i,
                i > 0 ==> is_power_of_two(alignment as nat) && 0 < buffer_size <= max_buffer_len(
                    alignment,
                ),
                forall|k: int|
                    0 <= k < buffers@.len() ==> fits_pool(#[trigger] buffers@[k], buffer_size, alignment),
            decreases capacity - i,
        {
            let buffer = AlignedBuffer::new(buffer_size, alignment)?;
            buffers.push(buffer);
            i = i + 1;
        }
        Ok(BufferPool { buffers, capacity, buffer_size, alignment })
    }

    /// Number of buffers the pool was made with.
    #[verifier::when_used_as_spec(spec_capacity)]
    pub fn capacity(&self) -> (c: usize)
        ensures
            c == self.spec_capacity(),
    {
        self.capacity
    }

    #[verifier::when_used_as_spec(spec_buffer_size)]
    pub fn buffer_size(&self) -> (s: usize)
        ensures
            s == self.spec_buffer_size(),
    {
        self.buffer_size
    }

    #[verifier::when_used_as_spec(spec_alignment)]
    pub fn alignment(&self) -> (a: usize)
        ensures
            a == self.spec_alignment(),
    {
        self.alignment
    }

    /// Lends out a buffer.  A pool with none available would wait forever
    /// for one to come back, so one must be available.
    pub fn acquire(&mut self) -> (g: BufferGuard)
        requires
            old(self).wf(),
            old(self).spec_available() > 0,
        ensures
            final(self).wf(),
            final(self).spec_available() == old(self).spec_available() - 1,
            final(self).spec_available() < final(self).capacity(),
            final(self).capacity() == old(self).capacity(),
            final(self).buffer_size() == old(self).buffer_size(),
            final(self).alignment() == old(self).alignment(),
            g.wf(),
            g@.len() == old(self).buffer_size(),
            g.alignment() == old(self).alignment(),
            g.spec_buffer().spec_address() != 0,
            g.spec_buffer().spec_address() % old(self).alignment() == 0,
            g.spec_buffer() == old(self).spec_buffers().last(),
            final(self).spec_buffers() == old(self).spec_buffers().drop_last(),
    {
        let buffer = self.buffers.pop().unwrap();
        proof {
            assert(fits_pool(buffer, self.buffer_size, self.alignment));
        }
        let _address = buffer.address();
        BufferGuard { buffer }
    }

    /// Takes a lent buffer back.
    pub fn release(&mut self, guard: BufferGuard)
        requires
            old(self).wf(),
            old(self).spec_available() < old(self).capacity(),
            guard.wf(),
            guard@.len() == old(self).buffer_size(),
            guard.alignment() == old(self).alignment(),
        ensures
            final(self).wf(),
            final(self).spec_available() == old(self).spec_available() + 1,
            final(self).spec_buffers() == old(self).spec_buffers().push(guard.spec_buffer()),
            final(self).capacity() == old(self).capacity(),
            final(self).buffer_size() == old(self).buffer_size(),
            final(self).alignment() == old(self).alignment(),
    {
        self.buffers.push(guard.buffer);
    }

    /// Number of buffers not lent out.
    pub fn available(&self) -> (n: usize)
        ensures
            n == self.spec_available(),
    {
        self.buffers.len()
    }
}

impl BufferGuard {
    pub closed spec fn spec_buffer(&self) -> AlignedBuffer {
        self.buffer
    }

    pub open spec fn wf(&self) -> bool {
        self.spec_buffer().wf()
    }

    pub open spec fn view(&self) -> Seq<u8> {
        self.spec_buffer()@
    }

    pub open spec fn alignment(&self) -> usize {
        self.spec_buffer().spec_alignment()
    }

    /// The lent buffer.
    pub fn buffer(&self) -> (b: &AlignedBuffer)
        ensures
            *b == self.spec_buffer(),
    {
        &self.buffer
    }

    /// The lent buffer, for writing.
    pub fn buffer_mut(&mut self) -> (b: &mut AlignedBuffer)
        ensures
            *b == old(self).spec_buffer(),
            final(self).spec_buffer() == *final(b),
    {
        &mut self.buffer
    }

    /// The bytes of the lent buffer.
    pub fn as_slice(&self) -> (s: &[u8])
        requires
            self.wf(),
        ensures
            s@ == self@,
    {
        self.buffer.as_slice()
    }

    /// The bytes of the lent buffer, for writing.
    pub fn as_mut_slice(&mut self) -> (s: &mut [u8])
        requires
            old(self).wf(),
        ensures
            s@ == old(self)@,
            final(self)@ == final(s)@,
            final(self).alignment() == old(self).alignment(),
            final(s)@.len() == s@.len() ==> final(self).wf(),
    {
        self.buffer.as_mut_slice()
    }
}

} // verus!
