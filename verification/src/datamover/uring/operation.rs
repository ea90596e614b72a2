use vstd::prelude::*;

use crate::buffer_pool::BufferGuard;

verus! {

/// What an io_uring operation does to its file.
#[derive(Debug, Clone, Copy, PartialEq, Eq, Structural)]
pub enum IoUringOperationKind {
    Read,
    Write,
}

/// A submitted operation that owns the buffer the kernel reads from or
/// writes into, until its completion is consumed.
pub struct InFlightOperation {
    user_data: u64,
    kind: IoUringOperationKind,
    offset: u64,
    length: usize,
    buffer: BufferGuard,
}

impl InFlightOperation {
    pub closed spec fn spec_user_data(&self) -> u64 {
        self.user_data
    }

    pub closed spec fn spec_kind(&self) -> IoUringOperationKind {
        self.kind
    }

    pub closed spec fn spec_offset(&self) -> u64 {
        self.offset
    }

    pub closed spec fn spec_length(&self) -> usize {
        self.length
    }

    pub closed spec fn spec_buffer(&self) -> BufferGuard {
        self.buffer
    }

    /// The request fits in its buffer.
    pub open spec fn wf(&self) -> bool {
        &&& self.spec_buffer().wf()
        &&& self.spec_length() <= self.spec_buffer()@.len()
    }

    pub fn new(
        user_data: u64,
        kind: IoUringOperationKind,
        offset: u64,
        length: usize,
        buffer: BufferGuard,
    ) -> (op: InFlightOperation)
        ensures
            op.spec_user_data() == user_data,
            op.spec_kind() == kind,
            op.spec_offset() == offset,
            op.spec_length() == length,
            op.spec_buffer() == buffer,
    {
        InFlightOperation { user_data, kind, offset, length, buffer }
    }

    /// The operation, completed with `bytes_transferred` bytes moved.
    /// The buffer, given up once the operation can no longer complete.
    pub fn into_buffer(self) -> (b: BufferGuard)
        ensures
            b == self.spec_buffer(),
    {
        self.buffer
    }

    pub fn complete(self, bytes_transferred: usize) -> (c: CompletedOperation)
        ensures
            c.user_data() == self.spec_user_data(),
            c.kind() == self.spec_kind(),
            c.offset() == self.spec_offset(),
            c.length() == self.spec_length(),
            c.bytes_transferred() == bytes_transferred,
            c.spec_buffer() == self.spec_buffer(),
    {
        CompletedOperation {
            user_data: self.user_data,
            kind: self.kind,
            offset: self.offset,
            length: self.length,
            bytes_transferred,
            buffer: self.buffer,
        }
    }
}

/// A finished operation: what was asked, how many bytes the kernel moved,
/// and the buffer, handed back.
pub struct CompletedOperation {
    user_data: u64,
    kind: IoUringOperationKind,
    offset: u64,
    length: usize,
    bytes_transferred: usize,
    buffer: BufferGuard,
}

impl CompletedOperation {
    pub closed spec fn spec_user_data(&self) -> u64 {
        self.user_data
    }

    pub closed spec fn spec_kind(&self) -> IoUringOperationKind {
        self.kind
    }

    pub closed spec fn spec_offset(&self) -> u64 {
        self.offset
    }

    pub closed spec fn spec_length(&self) -> usize {
        self.length
    }

    pub closed spec fn spec_bytes_transferred(&self) -> usize {
        self.bytes_transferred
    }

    pub closed spec fn spec_buffer(&self) -> BufferGuard {
        self.buffer
    }

    /// The request fits in its buffer.
    pub open spec fn wf(&self) -> bool {
        &&& self.spec_buffer().wf()
        &&& self.spec_length() <= self.spec_buffer()@.len()
    }

    #[verifier::when_used_as_spec(spec_user_data)]
    pub fn user_data(&self) -> (u: u64)
        ensures
            u == self.spec_user_data(),
    {
        self.user_data
    }

    #[verifier::when_used_as_spec(spec_kind)]
    pub fn kind(&self) -> (k: IoUringOperationKind)
        ensures
            k == self.spec_kind(),
    {
        self.kind
    }

    #[verifier::when_used_as_spec(spec_offset)]
    pub fn offset(&self) -> (o: u64)
        ensures
            o == self.spec_offset(),
    {
        self.offset
    }

    #[verifier::when_used_as_spec(spec_length)]
    pub fn length(&self) -> (l: usize)
        ensures
            l == self.spec_length(),
    {
        self.length
    }

    #[verifier::when_used_as_spec(spec_bytes_transferred)]
    pub fn bytes_transferred(&self) -> (b: usize)
        ensures
            b == self.spec_bytes_transferred(),
    {
        self.bytes_transferred
    }

    /// The requested part of the buffer.
    pub fn buffer(&self) -> (b: &[u8])
        requires
            self.wf(),
        ensures
            b@ == self.spec_buffer()@.subrange(0, self.spec_length() as int),
    {
        vstd::slice::slice_subrange(self.buffer.as_slice(), 0, self.length)
    }

    /// The requested part of the buffer, to change.
    pub fn buffer_mut(&mut self) -> (b: &mut [u8])
        requires
            old(self).wf(),
        ensures
            b@ == old(self).spec_buffer()@.subrange(0, old(self).spec_length() as int),
            final(self).user_data() == old(self).user_data(),
            final(self).kind() == old(self).kind(),
            final(self).offset() == old(self).offset(),
            final(self).length() == old(self).length(),
            final(self).bytes_transferred() == old(self).bytes_transferred(),
            final(b)@.len() == b@.len() ==> final(self).wf(),
            final(b)@.len() == b@.len() ==> final(self).spec_buffer()@ == final(b)@
                + old(self).spec_buffer()@.subrange(
                old(self).spec_length() as int,
                old(self).spec_buffer()@.len() as int,
            ),
    {
        let length = self.length;
        let slice = self.buffer.as_mut_slice();
        let (head, _tail) = slice.split_at_mut(length);
        head
    }

    /// The buffer, handed back for another operation or the pool.
    pub fn into_buffer(self) -> (b: BufferGuard)
        ensures
            b == self.spec_buffer(),
    {
        self.buffer
    }
}

} // verus!
