use vstd::prelude::*;

use std::collections::HashMap;

use crate::buffer_pool::BufferGuard;
use crate::datamover::uring::operation::{
    CompletedOperation, InFlightOperation, IoUringOperationKind,
};
use crate::datamover::uring::ring::{
    next_completion_entry, ring_submit, ring_submit_and_wait, setup_ring, Ring,
};
use crate::error::{Error, Result};

verus! {

broadcast use vstd::std_specs::hash::group_hash_axioms;

/// The user data that follows `value`: one more, wrapping past `u64::MAX`
/// to 1, so that zero is never handed out.
pub open spec fn next_after(value: u64) -> u64 {
    if value == u64::MAX {
        1
    } else {
        (value + 1) as u64
    }
}

/// The value `j` steps after `start` in the sequence `next_after` walks,
/// for `1 <= start` and `j < u64::MAX`.
pub open spec fn steps_after(start: u64, j: int) -> int {
    if start + j <= u64::MAX {
        start + j
    } else {
        start + j - u64::MAX
    }
}

/// A ring with the operations it has in flight.
///
/// Operations are either owned (the engine holds their buffers until they
/// complete, any number at a time) or borrowed (the caller's buffer, one at
/// a time, waited for before the call returns); the two never mix.
pub struct IoUringEngine {
    ring: Option<Ring>,
    queue_depth: u32,
    next_user_data: u64,
    in_flight: HashMap<u64, InFlightOperation>,
    borrowed_in_flight: bool,
}

impl IoUringEngine {
    /// The owned operations in flight, by user data.
    pub closed spec fn spec_owned(&self) -> Map<u64, InFlightOperation> {
        self.in_flight@
    }

    /// Whether a borrowed operation is in flight.
    pub closed spec fn spec_borrowed(&self) -> bool {
        self.borrowed_in_flight
    }

    pub closed spec fn spec_queue_depth(&self) -> u32 {
        self.queue_depth
    }

    /// Whether the ring is still there.
    pub closed spec fn spec_has_ring(&self) -> bool {
        self.ring is Some
    }

    /// The user data the next operation will try first.
    pub closed spec fn spec_next_user_data(&self) -> u64 {
        self.next_user_data
    }

    /// Well formed: the depth is positive, zero is never in use, every owned
    /// operation is filed under its own user data and fits its buffer, and
    /// the count of operations fits a `usize` with room to spare.
    pub closed spec fn wf(&self) -> bool {
        &&& self.queue_depth > 0
        &&& self.next_user_data != 0
        &&& self.in_flight@.len() + 2 < usize::MAX
        &&& forall|k: u64| #[trigger]
            self.in_flight@.contains_key(k) ==> k != 0 && self.in_flight@[k].wf()
                && self.in_flight@[k].spec_user_data() == k
    }

    /// A ring of `queue_depth` entries with nothing in flight.  A zero depth
    /// is refused before the kernel is asked; a kernel refusal is an I/O
    /// error.
    pub fn new(queue_depth: u32) -> (r: Result<IoUringEngine>)
        ensures
            queue_depth == 0 ==> r matches Err(Error::InvalidIoUringQueueDepth),
            queue_depth > 0 ==> (r is Ok || r matches Err(Error::Io(_))),
            r matches Ok(e) ==> {
                &&& e.wf()
                &&& e.queue_depth() == queue_depth
                &&& e.spec_owned().len() == 0
                &&& !e.spec_borrowed()
                &&& e.spec_has_ring()
            },
    {
        if queue_depth == 0 {
            return Err(Error::InvalidIoUringQueueDepth);
        }
        let ring = match setup_ring(queue_depth) {
            Ok(ring) => ring,
            Err(e) => {
                return Err(Error::Io(e));
            },
        };
        Ok(
            IoUringEngine {
                ring: Some(ring),
                queue_depth,
                next_user_data: 1,
                in_flight: HashMap::with_capacity(queue_depth as usize),
                borrowed_in_flight: false,
            },
        )
    }

    #[verifier::when_used_as_spec(spec_queue_depth)]
    pub fn queue_depth(&self) -> (d: u32)
        ensures
            d == self.spec_queue_depth(),
    {
        self.queue_depth
    }

    /// Operations in flight, owned and borrowed.
    pub fn in_flight(&self) -> (n: usize)
        requires
            self.wf(),
        ensures
            n == self.spec_owned().len() + if self.spec_borrowed() {
                1int
            } else {
                0int
            },
    {
        let borrowed: usize = if self.borrowed_in_flight {
            1
        } else {
            0
        };
        self.in_flight.len() + borrowed
    }

    /// The ring, for queueing submission entries; a shut-down engine has
    /// none.
    pub fn ring_mut(&mut self) -> (r: Result<&mut Ring>)
        ensures
            final(self).spec_owned() == old(self).spec_owned(),
            final(self).spec_borrowed() == old(self).spec_borrowed(),
            final(self).spec_queue_depth() == old(self).spec_queue_depth(),
            final(self).spec_next_user_data() == old(self).spec_next_user_data(),
            final(self).spec_has_ring() == old(self).spec_has_ring(),
            old(self).wf() ==> final(self).wf(),
            old(self).spec_has_ring() <==> r is Ok,
            !old(self).spec_has_ring() ==> r matches Err(Error::IoUringEngineShutDown),
    {
        match self.ring.as_mut() {
            Some(ring) => Ok(ring),
            None => Err(Error::IoUringEngineShutDown),
        }
    }

    /// Hands the queued entries to the kernel and returns how many it took.
    pub fn submit(&mut self) -> (r: Result<usize>)
        ensures
            final(self).spec_owned() == old(self).spec_owned(),
            final(self).spec_borrowed() == old(self).spec_borrowed(),
            final(self).spec_queue_depth() == old(self).spec_queue_depth(),
            final(self).spec_next_user_data() == old(self).spec_next_user_data(),
            final(self).spec_has_ring() == old(self).spec_has_ring(),
            old(self).wf() ==> final(self).wf(),
            !old(self).spec_has_ring() ==> r matches Err(Error::IoUringEngineShutDown),
            old(self).spec_has_ring() ==> (r is Ok || r matches Err(Error::Io(_))),
    {
        let ring = self.ring_mut()?;
        match ring_submit(ring) {
            Ok(n) => Ok(n),
            Err(e) => Err(Error::Io(e)),
        }
    }

    /// A fresh user data: the first value from `next_user_data` on that is
    /// neither zero nor in flight.
    fn next_user_data(&mut self) -> (u: u64)
        requires
            old(self).wf(),
        ensures
            final(self).wf(),
            u != 0,
            !old(self).spec_owned().contains_key(u),
            final(self).spec_owned() == old(self).spec_owned(),
            final(self).spec_borrowed() == old(self).spec_borrowed(),
            final(self).spec_queue_depth() == old(self).spec_queue_depth(),
            final(self).spec_has_ring() == old(self).spec_has_ring(),
    {
        let ghost start = self.next_user_data;
        let ghost mut tried: Seq<u64> = Seq::empty();
        loop
            invariant
                self.wf(),
                self.in_flight@ == old(self).spec_owned(),
                self.borrowed_in_flight == old(self).spec_borrowed(),
                self.queue_depth == old(self).spec_queue_depth(),
                (self.ring is Some) == old(self).spec_has_ring(),
                1 <= start,
                tried.len() <= self.in_flight@.len(),
                tried.no_duplicates(),
                forall|i: int| 0 <= i < tried.len() ==> #[trigger] tried[i] == steps_after(start, i),
                forall|i: int|
                    0 <= i < tried.len() ==> self.in_flight@.contains_key(#[trigger] tried[i]),
                self.next_user_data == steps_after(start, tried.len() as int),
            decreases self.in_flight@.len() - tried.len(),
        {
            let value = self.next_user_data;
            self.next_user_data = self.next_user_data.wrapping_add(1);
            if self.next_user_data == 0 {
                self.next_user_data = 1;
            }
            if value != 0 && !self.in_flight.contains_key(&value) {
                return value;
            }
            proof {
                let j = tried.len() as int;
                assert forall|i: int| 0 <= i < j implies tried[i] != value by {
                    assert(tried[i] == steps_after(start, i));
                }
                tried = tried.push(value);
                lemma_tried_bounded(tried, self.in_flight@.dom());
            }
        }
    }

    /// Checks an owned request and hands out its user data: refused while a
    /// borrowed operation is in flight, when it does not fit `buffer`, or
    /// when its length does not fit a `u32`.  Returns the user data and the
    /// length as the submission entry takes it.
    pub fn prepare_owned(&mut self, offset: u64, length: usize, buffer: &BufferGuard) -> (r: Result<
        (u64, u32),
    >)
        requires
            old(self).wf(),
            buffer.wf(),
        ensures
            final(self).wf(),
            final(self).spec_owned() == old(self).spec_owned(),
            final(self).spec_borrowed() == old(self).spec_borrowed(),
            final(self).spec_queue_depth() == old(self).spec_queue_depth(),
            final(self).spec_has_ring() == old(self).spec_has_ring(),
            old(self).spec_borrowed() ==> r matches Err(Error::IoUringOperationModeConflict),
            !old(self).spec_borrowed() && length > buffer@.len() ==> (r matches Err(
                Error::BufferTooSmall { requested: q, available: a },
            ) && q == length && a == buffer@.len()),
            !old(self).spec_borrowed() && length <= buffer@.len() && length > u32::MAX ==> (r matches Err(
                Error::RangeOverflow { offset: o, length: l },
            ) && o == offset && l == length),
            !old(self).spec_borrowed() && length <= buffer@.len() && length <= u32::MAX ==> (r matches Ok(
                (user_data, length_u32),
            ) && user_data != 0 && !old(self).spec_owned().contains_key(user_data) && length_u32
                == length),
    {
        if self.borrowed_in_flight {
            return Err(Error::IoUringOperationModeConflict);
        }
        let available = buffer.as_slice().len();
        if length > available {
            return Err(Error::BufferTooSmall { requested: length, available });
        }
        if length as u64 > u32::MAX as u64 {
            return Err(Error::RangeOverflow { offset, length: length as u64 });
        }
        let length_u32 = length as u32;
        let user_data = self.next_user_data();
        Ok((user_data, length_u32))
    }

    /// Records an owned operation whose entry was queued: from now on the
    /// engine holds `buffer` until the operation's completion is consumed.
    pub fn track_owned(
        &mut self,
        user_data: u64,
        kind: IoUringOperationKind,
        offset: u64,
        length: usize,
        buffer: BufferGuard,
    )
        requires
            old(self).wf(),
            user_data != 0,
            !old(self).spec_owned().contains_key(user_data),
            old(self).spec_owned().len() + 3 < usize::MAX,
            buffer.wf(),
            length <= buffer@.len(),
        ensures
            final(self).wf(),
            final(self).spec_owned().len() == old(self).spec_owned().len() + 1,
            final(self).spec_owned() == old(self).spec_owned().insert(
                user_data,
                final(self).spec_owned()[user_data],
            ),
            final(self).spec_owned()[user_data].spec_user_data() == user_data,
            final(self).spec_owned()[user_data].spec_kind() == kind,
            final(self).spec_owned()[user_data].spec_offset() == offset,
            final(self).spec_owned()[user_data].spec_length() == length,
            final(self).spec_owned()[user_data].spec_buffer() == buffer,
            final(self).spec_borrowed() == old(self).spec_borrowed(),
            final(self).spec_queue_depth() == old(self).spec_queue_depth(),
            final(self).spec_has_ring() == old(self).spec_has_ring(),
            final(self).spec_next_user_data() == old(self).spec_next_user_data(),
    {
        let operation = InFlightOperation::new(user_data, kind, offset, length, buffer);
        let _previous = self.in_flight.insert(user_data, operation);
        proof {
            assert(self.in_flight@ =~= old(self).spec_owned().insert(user_data, operation));
        }
    }

    /// Waits for the next owned operation to complete and hands it back with
    /// its buffer.  With nothing owned in flight there is nothing to wait
    /// for.  A completion the engine does not know, or a failed operation,
    /// is an error.
    pub fn wait_owned_completion(&mut self) -> (r: Result<CompletedOperation>)
        requires
            old(self).wf(),
        ensures
            final(self).wf(),
            final(self).spec_borrowed() == old(self).spec_borrowed(),
            final(self).spec_queue_depth() == old(self).spec_queue_depth(),
            final(self).spec_has_ring() == old(self).spec_has_ring(),
            old(self).spec_owned().len() == 0 ==> (r matches Err(Error::IoUringNoInFlight)
                && final(self).spec_owned() == old(self).spec_owned()),
            old(self).spec_owned().len() > 0 && !old(self).spec_has_ring() ==> (r matches Err(
                Error::IoUringEngineShutDown,
            ) && final(self).spec_owned() == old(self).spec_owned()),
            old(self).spec_owned().len() > 0 && old(self).spec_has_ring() ==> (
            waited_without_completion(old(self).spec_owned(), final(self).spec_owned(), r)
                || claimed_some_completion(old(self).spec_owned(), final(self).spec_owned(), r)),
            r matches Ok(c) ==> {
                &&& old(self).spec_owned().contains_key(c.user_data())
                &&& final(self).spec_owned() == old(self).spec_owned().remove(c.user_data())
                &&& c.wf()
                &&& c.kind() == old(self).spec_owned()[c.user_data()].spec_kind()
                &&& c.offset() == old(self).spec_owned()[c.user_data()].spec_offset()
                &&& c.length() == old(self).spec_owned()[c.user_data()].spec_length()
                &&& c.spec_buffer() == old(self).spec_owned()[c.user_data()].spec_buffer()
            },
    {
        if self.in_flight.is_empty() {
            return Err(Error::IoUringNoInFlight);
        }
        let ring = self.ring_mut()?;
        if let Err(e) = ring_submit_and_wait(ring, 1) {
            return Err(Error::Io(e));
        }
        let (user_data, result) = self.next_completion()?;
        self.claim_completion(user_data, result)
    }

    /// Takes the owned operation that the completion `(user_data, result)`
    /// belongs to out of the engine and completes it.  A completion of no
    /// owned operation is an error that changes nothing; a failed operation
    /// is an I/O error, and is no longer in flight.
    pub fn claim_completion(&mut self, user_data: u64, result: i32) -> (r: Result<
        CompletedOperation,
    >)
        requires
            old(self).wf(),
        ensures
            final(self).wf(),
            final(self).spec_borrowed() == old(self).spec_borrowed(),
            final(self).spec_queue_depth() == old(self).spec_queue_depth(),
            final(self).spec_has_ring() == old(self).spec_has_ring(),
            claim_outcome(old(self).spec_owned(), final(self).spec_owned(), user_data, result, r),
    {
        let operation = match self.in_flight.remove(&user_data) {
            Some(operation) => operation,
            None => {
                proof {
                    assert(self.in_flight@ =~= old(self).spec_owned());
                }
                return Err(Error::IoUringUnknownCompletion { user_data });
            },
        };
        proof {
            assert(old(self).spec_owned().contains_key(user_data));
        }
        let bytes_transferred = completion_result_to_bytes(result)?;
        Ok(operation.complete(bytes_transferred))
    }

    /// Waits for every owned operation in flight and hands them all back, in
    /// the order they complete.  Refused while a borrowed operation is in
    /// flight.
    pub fn drain(&mut self) -> (r: Result<Vec<CompletedOperation>>)
        requires
            old(self).wf(),
        ensures
            final(self).wf(),
            final(self).spec_borrowed() == old(self).spec_borrowed(),
            final(self).spec_queue_depth() == old(self).spec_queue_depth(),
            final(self).spec_has_ring() == old(self).spec_has_ring(),
            old(self).spec_borrowed() ==> (r matches Err(Error::IoUringOperationModeConflict)
                && final(self).spec_owned() == old(self).spec_owned()),
            !old(self).spec_borrowed() && old(self).spec_owned().len() == 0 ==> (r matches Ok(done)
                && done@.len() == 0 && final(self).spec_owned() == old(self).spec_owned()),
            r matches Ok(done) ==> {
                &&& final(self).spec_owned().len() == 0
                &&& done@.len() == old(self).spec_owned().len()
                &&& forall|i: int|
                    0 <= i < done@.len() ==> old(self).spec_owned().contains_key(
                        #[trigger] done@[i].user_data(),
                    ) && done@[i].wf()
                &&& forall|i: int, j: int|
                    0 <= i < j < done@.len() ==> #[trigger] done@[i].user_data()
                        != #[trigger] done@[j].user_data()
            },
    {
        if self.borrowed_in_flight {
            return Err(Error::IoUringOperationModeConflict);
        }
        let ghost owned0 = self.in_flight@;
        let mut completed: Vec<CompletedOperation> = Vec::with_capacity(self.in_flight.len());
        while !self.in_flight.is_empty()
            invariant
                self.wf(),
                self.borrowed_in_flight == old(self).spec_borrowed(),
                !old(self).spec_borrowed(),
                self.queue_depth == old(self).spec_queue_depth(),
                (self.ring is Some) == old(self).spec_has_ring(),
                owned0 == old(self).spec_owned(),
                completed@.len() + self.in_flight@.len() == owned0.len(),
                forall|k: u64| #[trigger] self.in_flight@.contains_key(k) ==> owned0.contains_key(k),
                forall|i: int|
                    0 <= i < completed@.len() ==> owned0.contains_key(#[trigger] completed@[i].user_data())
                        && !self.in_flight@.contains_key(completed@[i].user_data())
                        && completed@[i].wf(),
                forall|i: int, j: int|
                    0 <= i < j < completed@.len() ==> #[trigger] completed@[i].user_data()
                        != #[trigger] completed@[j].user_data(),
            decreases self.in_flight@.len(),
        {
            let ghost before = self.in_flight@;
            let operation = self.wait_owned_completion()?;
            proof {
                assert(before.remove(operation.user_data()).len() == before.len() - 1);
            }
            completed.push(operation);
        }
        Ok(completed)
    }

    /// Checks a borrowed request and hands out its user data: refused while
    /// anything is in flight, or when its length does not fit a `u32`.
    /// Returns the user data and the length as the submission entry takes
    /// it.
    pub fn prepare_borrowed(&mut self, offset: u64, length: usize) -> (r: Result<(u64, u32)>)
        requires
            old(self).wf(),
        ensures
            final(self).wf(),
            final(self).spec_owned() == old(self).spec_owned(),
            final(self).spec_borrowed() == old(self).spec_borrowed(),
            final(self).spec_queue_depth() == old(self).spec_queue_depth(),
            final(self).spec_has_ring() == old(self).spec_has_ring(),
            old(self).spec_owned().len() > 0 || old(self).spec_borrowed() ==> r matches Err(
                Error::IoUringOperationModeConflict,
            ),
            old(self).spec_owned().len() == 0 && !old(self).spec_borrowed() && length > u32::MAX
                ==> (r matches Err(Error::RangeOverflow { offset: o, length: l }) && o == offset
                && l == length),
            old(self).spec_owned().len() == 0 && !old(self).spec_borrowed() && length <= u32::MAX
                ==> (r matches Ok((user_data, length_u32)) && user_data != 0 && length_u32
                == length),
    {
        if !self.in_flight.is_empty() || self.borrowed_in_flight {
            return Err(Error::IoUringOperationModeConflict);
        }
        if length as u64 > u32::MAX as u64 {
            return Err(Error::RangeOverflow { offset, length: length as u64 });
        }
        let length_u32 = length as u32;
        let user_data = self.next_user_data();
        Ok((user_data, length_u32))
    }

    /// Records that the entry of a borrowed operation was queued.
    pub fn mark_borrowed(&mut self)
        requires
            old(self).wf(),
        ensures
            final(self).wf(),
            final(self).spec_borrowed(),
            final(self).spec_owned() == old(self).spec_owned(),
            final(self).spec_queue_depth() == old(self).spec_queue_depth(),
            final(self).spec_has_ring() == old(self).spec_has_ring(),
    {
        self.borrowed_in_flight = true;
    }

    /// Waits for the borrowed operation to complete; afterwards none is in
    /// flight.  Without one there is nothing to wait for.
    fn wait_borrowed_completion(&mut self) -> (r: Result<(u64, i32)>)
        requires
            old(self).wf(),
        ensures
            final(self).wf(),
            final(self).spec_owned() == old(self).spec_owned(),
            final(self).spec_queue_depth() == old(self).spec_queue_depth(),
            final(self).spec_has_ring() == old(self).spec_has_ring(),
            !old(self).spec_borrowed() ==> (r matches Err(Error::IoUringNoInFlight)
                && !final(self).spec_borrowed()),
            old(self).spec_borrowed() && !old(self).spec_has_ring() ==> r matches Err(
                Error::IoUringEngineShutDown,
            ),
            old(self).spec_borrowed() && old(self).spec_has_ring() && r is Err ==> (r matches Err(
                Error::Io(_),
            ) || r matches Err(Error::IoUringCompletionMissing)),
            r is Ok ==> !final(self).spec_borrowed(),
            r is Err ==> final(self).spec_borrowed() == old(self).spec_borrowed(),
    {
        if !self.borrowed_in_flight {
            return Err(Error::IoUringNoInFlight);
        }
        let ring = self.ring_mut()?;
        if let Err(e) = ring_submit_and_wait(ring, 1) {
            return Err(Error::Io(e));
        }
        let completion = self.next_completion()?;
        self.borrowed_in_flight = false;
        Ok(completion)
    }

    /// Waits for the borrowed operation with `user_data` and returns how many
    /// bytes it moved.  A completion of another operation is unexpected; a
    /// failed operation is an I/O error.
    pub fn finish_borrowed(&mut self, user_data: u64) -> (r: Result<usize>)
        requires
            old(self).wf(),
        ensures
            final(self).wf(),
            final(self).spec_owned() == old(self).spec_owned(),
            final(self).spec_queue_depth() == old(self).spec_queue_depth(),
            final(self).spec_has_ring() == old(self).spec_has_ring(),
            !old(self).spec_borrowed() ==> r matches Err(Error::IoUringNoInFlight),
            old(self).spec_borrowed() && !old(self).spec_has_ring() ==> (r matches Err(
                Error::IoUringEngineShutDown,
            ) && final(self).spec_borrowed()),
            old(self).spec_borrowed() && old(self).spec_has_ring() ==> ((final(self).spec_borrowed()
                && (r matches Err(Error::Io(_)) || r matches Err(Error::IoUringCompletionMissing)))
                || (!final(self).spec_borrowed() && finished_some_completion(user_data, r))),
            r is Ok ==> !final(self).spec_borrowed(),
    {
        let (actual, result) = self.wait_borrowed_completion()?;
        borrowed_result(user_data, actual, result)
    }

    /// Consumes what completions it can of the operations in flight, then
    /// tears the ring down and gives back the buffers of every owned
    /// operation, in that order: no buffer comes back while the kernel may
    /// still use it.  Waits for at most as many completions as there are
    /// owned operations.
    pub fn shutdown(&mut self) -> (released: Vec<BufferGuard>)
        requires
            old(self).wf(),
        ensures
            final(self).wf(),
            !final(self).spec_has_ring(),
            final(self).spec_owned().len() == 0,
            final(self).spec_queue_depth() == old(self).spec_queue_depth(),
            buffers_of(old(self).spec_owned(), released@),
    {
        if self.borrowed_in_flight {
            if let Some(ring) = self.ring.as_mut() {
                if ring_submit_and_wait(ring, 1).is_ok() {
                    if next_completion_entry(ring).is_some() {
                        self.borrowed_in_flight = false;
                    }
                }
            }
        }
        let ghost owned0 = self.in_flight@;
        let ghost mut done: Seq<u64> = Seq::empty();
        let mut released: Vec<BufferGuard> = Vec::new();
        let mut attempts: usize = self.in_flight.len();
        while !self.in_flight.is_empty() && attempts > 0
            invariant
                self.wf(),
                self.queue_depth == old(self).spec_queue_depth(),
                owned0 == old(self).spec_owned(),
                handed_back(owned0, self.in_flight@, done, released@),
            decreases attempts,
        {
            attempts = attempts - 1;
            let waited = match self.ring.as_mut() {
                Some(ring) => ring_submit_and_wait(ring, 1).is_ok(),
                None => false,
            };
            if !waited {
                break;
            }
            let user_data = match self.ring.as_mut() {
                Some(ring) => match next_completion_entry(ring) {
                    Some((user_data, _result)) => Some(user_data),
                    None => None,
                },
                None => None,
            };
            match user_data {
                Some(user_data) => {
                    self.release_owned(user_data, &mut released, Ghost(owned0), Ghost(done));
                    proof {
                        if owned0.contains_key(user_data) && !done.contains(user_data) {
                            done = done.push(user_data);
                        }
                    }
                },
                None => {
                    break;
                },
            }
        }
        self.ring = None;
        let keys = self.owned_user_data();
        let mut i: usize = 0;
        while i < keys.len()
            invariant
                self.wf(),
                self.queue_depth == old(self).spec_queue_depth(),
                self.ring is None,
                owned0 == old(self).spec_owned(),
                i <= keys@.len(),
                keys@.no_duplicates(),
                forall|j: int| i <= j < keys@.len() ==> self.in_flight@.contains_key(#[trigger] keys@[j]),
                forall|k: u64| #[trigger] self.in_flight@.contains_key(k) ==> exists|j: int|
                    i <= j < keys@.len() && keys@[j] == k,
                handed_back(owned0, self.in_flight@, done, released@),
            decreases keys@.len() - i,
        {
            let user_data = keys[i];
            self.release_owned(user_data, &mut released, Ghost(owned0), Ghost(done));
            proof {
                done = done.push(user_data);
                assert forall|j: int| i + 1 <= j < keys@.len() implies self.in_flight@.contains_key(
                    #[trigger] keys@[j],
                ) by {
                    assert(keys@[j] != keys@[i as int]);
                }
                assert forall|k: u64| #[trigger] self.in_flight@.contains_key(k) implies exists|j: int|
                    i + 1 <= j < keys@.len() && keys@[j] == k by {
                    let j = choose|j: int| i <= j < keys@.len() && keys@[j] == k;
                    assert(j != i);
                }
            }
            i = i + 1;
        }
        proof {
            assert(self.in_flight@.dom() =~= Set::<u64>::empty());
            assert(done.to_set() =~= owned0.dom());
        }
        released
    }

    /// Takes the owned operation `user_data`, if there is one, out of the
    /// engine and puts its buffer at the end of `released`.
    fn release_owned(
        &mut self,
        user_data: u64,
        released: &mut Vec<BufferGuard>,
        Ghost(owned0): Ghost<Map<u64, InFlightOperation>>,
        Ghost(done): Ghost<Seq<u64>>,
    )
        requires
            old(self).wf(),
            handed_back(owned0, old(self).spec_owned(), done, old(released)@),
        ensures
            final(self).wf(),
            final(self).spec_queue_depth() == old(self).spec_queue_depth(),
            final(self).spec_has_ring() == old(self).spec_has_ring(),
            final(self).spec_owned() == old(self).spec_owned().remove(user_data),
            old(self).spec_owned().contains_key(user_data) ==> handed_back(
                owned0,
                final(self).spec_owned(),
                done.push(user_data),
                final(released)@,
            ),
            !old(self).spec_owned().contains_key(user_data) ==> final(released)@ == old(released)@,
            old(self).spec_owned().contains_key(user_data) ==> owned0.contains_key(user_data)
                && !done.contains(user_data),
    {
        match self.in_flight.remove(&user_data) {
            Some(operation) => {
                released.push(operation.into_buffer());
                proof {
                    let d2 = done.push(user_data);
                    assert(owned0.contains_key(user_data));
                    assert(!done.contains(user_data));
                    assert(d2.no_duplicates()) by {
                        assert forall|a: int, b: int| 0 <= a < b < d2.len() implies d2[a] != d2[b] by {
                            if b == done.len() {
                                assert(d2[a] == done[a]);
                            } else {
                                assert(d2[a] == done[a] && d2[b] == done[b]);
                            }
                        }
                    }
                    assert forall|k: u64| #[trigger] owned0.contains_key(k) implies (
                    self.in_flight@.contains_key(k) <==> !d2.contains(k)) by {
                        if k != user_data {
                            if d2.contains(k) {
                                let j = choose|j: int| 0 <= j < d2.len() && d2[j] == k;
                                assert(done[j] == k);
                            }
                            if done.contains(k) {
                                let j = choose|j: int| 0 <= j < done.len() && done[j] == k;
                                assert(d2[j] == k);
                            }
                        } else {
                            assert(d2[done.len() as int] == k);
                        }
                    }
                    assert forall|j: int| 0 <= j < d2.len() implies owned0.contains_key(#[trigger] d2[j]) by {
                        if j < done.len() {
                            assert(d2[j] == done[j]);
                        }
                    }
                    assert forall|j: int| 0 <= j < released@.len() implies #[trigger] released@[j]
                        == owned0[d2[j]].spec_buffer() by {
                        if j < done.len() {
                            assert(d2[j] == done[j]);
                        }
                    }
                }
            },
            None => {
                proof {
                    assert(self.in_flight@ =~= old(self).spec_owned().remove(user_data));
                }
            },
        }
    }

    /// The user data of every owned operation in flight, each once.
    fn owned_user_data(&self) -> (keys: Vec<u64>)
        ensures
            keys@.to_set() == self.spec_owned().dom(),
            keys@.no_duplicates(),
            keys@.len() == self.spec_owned().len(),
    {
        let mut keys: Vec<u64> = Vec::new();
        let ghost expected = vstd::std_specs::iter::IteratorSpec::remaining(
            &vstd::std_specs::hash::spec_keys_iter(&self.in_flight),
        ).unref();
        for key in it: self.in_flight.keys()
            invariant
                it.seq().unref() == expected,
                keys@.len() == it.index(),
                forall|j: int| 0 <= j < it.index() ==> keys@[j] == expected[j],
        {
            keys.push(*key);
        }
        proof {
            assert(keys@ =~= expected);
        }
        keys
    }

    /// The user data and result code of the next completion on the ring.
    fn next_completion(&mut self) -> (r: Result<(u64, i32)>)
        ensures
            final(self).spec_owned() == old(self).spec_owned(),
            final(self).spec_borrowed() == old(self).spec_borrowed(),
            final(self).spec_queue_depth() == old(self).spec_queue_depth(),
            final(self).spec_next_user_data() == old(self).spec_next_user_data(),
            final(self).spec_has_ring() == old(self).spec_has_ring(),
            old(self).wf() ==> final(self).wf(),
            !old(self).spec_has_ring() ==> r matches Err(Error::IoUringEngineShutDown),
            old(self).spec_has_ring() && r is Err ==> r matches Err(Error::IoUringCompletionMissing),
    {
        let ring = self.ring_mut()?;
        match next_completion_entry(ring) {
            Some(entry) => Ok(entry),
            None => Err(Error::IoUringCompletionMissing),
        }
    }
}

/// A sequence of distinct values that all lie in a finite set is no longer
/// than the set.
proof fn lemma_tried_bounded(tried: Seq<u64>, dom: Set<u64>)
    requires
        dom.finite(),
        tried.no_duplicates(),
        forall|i: int| 0 <= i < tried.len() ==> dom.contains(#[trigger] tried[i]),
    ensures
        tried.len() <= dom.len(),
{
    tried.unique_seq_to_set();
    assert(tried.to_set().subset_of(dom));
    vstd::set_lib::lemma_len_subset(tried.to_set(), dom);
}

/// `released` holds the buffers of the owned operations `owned`, one for
/// each operation, taken in some order.
pub open spec fn buffers_of(owned: Map<u64, InFlightOperation>, released: Seq<BufferGuard>) -> bool {
    exists|order: Seq<u64>|
        #[trigger] order.to_set() == owned.dom() && order.no_duplicates() && order.len()
            == released.len() && forall|j: int|
            0 <= j < released.len() ==> #[trigger] released[j] == owned[order[j]].spec_buffer()
}

/// Of the owned operations `owned`, those named in `done`, in that order,
/// have handed their buffers to `released`, and the others are still in
/// `remaining`, as they were.
pub open spec fn handed_back(
    owned: Map<u64, InFlightOperation>,
    remaining: Map<u64, InFlightOperation>,
    done: Seq<u64>,
    released: Seq<BufferGuard>,
) -> bool {
    &&& done.no_duplicates()
    &&& done.len() == released.len()
    &&& forall|j: int| 0 <= j < done.len() ==> owned.contains_key(#[trigger] done[j])
    &&& forall|j: int| 0 <= j < released.len() ==> #[trigger] released[j] == owned[done[j]].spec_buffer()
    &&& forall|k: u64| #[trigger] remaining.contains_key(k) ==> owned.contains_key(k) && remaining[k] == owned[k]
    &&& forall|k: u64| #[trigger] owned.contains_key(k) ==> (remaining.contains_key(k) <==> !done.contains(k))
}

/// What claiming the completion `(user_data, result)` does to the owned
/// operations `before`, leaving `after`, and returns as `r`.
pub open spec fn claim_outcome(
    before: Map<u64, InFlightOperation>,
    after: Map<u64, InFlightOperation>,
    user_data: u64,
    result: i32,
    r: Result<CompletedOperation>,
) -> bool {
    if !before.contains_key(user_data) {
        after == before && (r matches Err(Error::IoUringUnknownCompletion { user_data: u })
            && u == user_data)
    } else {
        after == before.remove(user_data) && (result < 0 ==> (r matches Err(Error::Io(_)))) && (
        result >= 0 ==> (r matches Ok(c) && c.wf() && c.user_data() == user_data && c.kind()
            == before[user_data].spec_kind() && c.offset() == before[user_data].spec_offset()
            && c.length() == before[user_data].spec_length() && c.spec_buffer()
            == before[user_data].spec_buffer() && c.bytes_transferred() == result))
    }
}

/// The wait for a completion failed, or found none, and the owned
/// operations are as they were.
pub open spec fn waited_without_completion(
    before: Map<u64, InFlightOperation>,
    after: Map<u64, InFlightOperation>,
    r: Result<CompletedOperation>,
) -> bool {
    &&& after == before
    &&& (r matches Err(Error::Io(_)) || r matches Err(Error::IoUringCompletionMissing))
}

/// Some completion came back from the kernel and was claimed.
pub open spec fn claimed_some_completion(
    before: Map<u64, InFlightOperation>,
    after: Map<u64, InFlightOperation>,
    r: Result<CompletedOperation>,
) -> bool {
    exists|user_data: u64, result: i32| claim_outcome(before, after, user_data, result, r)
}

/// An operation recorded under `user_data` completes as it was recorded:
/// claiming a successful completion with that user data hands back its
/// kind, offset, length and buffer, and the engine no longer holds it, so
/// a second completion with the same user data is unknown.  Recording an
/// operation under fresh user data and claiming its completion leaves the
/// engine holding what it held before.
pub proof fn lemma_recorded_operation_completes_once(
    owned: Map<u64, InFlightOperation>,
    user_data: u64,
    operation: InFlightOperation,
    result: i32,
    after: Map<u64, InFlightOperation>,
    r: Result<CompletedOperation>,
    second_result: i32,
    after_second: Map<u64, InFlightOperation>,
    second: Result<CompletedOperation>,
)
    requires
        result >= 0,
        claim_outcome(owned.insert(user_data, operation), after, user_data, result, r),
        claim_outcome(after, after_second, user_data, second_result, second),
    ensures
        r matches Ok(c) && c.user_data() == user_data && c.kind() == operation.spec_kind()
            && c.offset() == operation.spec_offset() && c.length() == operation.spec_length()
            && c.spec_buffer() == operation.spec_buffer() && c.bytes_transferred() == result,
        after == owned.remove(user_data),
        !owned.contains_key(user_data) ==> after == owned,
        second matches Err(Error::IoUringUnknownCompletion { user_data: u }) && u == user_data,
        after_second == after,
{
    assert(owned.insert(user_data, operation).remove(user_data) =~= owned.remove(user_data));
    if !owned.contains_key(user_data) {
        assert(owned.remove(user_data) =~= owned);
    }
}

/// What the completion `(actual, result)` of a borrowed operation that was
/// submitted with user data `expected` gives.
pub open spec fn borrowed_outcome(expected: u64, actual: u64, result: i32, r: Result<usize>) -> bool {
    if actual != expected {
        r matches Err(Error::IoUringUnexpectedCompletion { expected: e, actual: a }) && e
            == expected && a == actual
    } else if result < 0 {
        r matches Err(Error::Io(_))
    } else {
        r matches Ok(n) && n == result
    }
}

/// Some completion came back from the kernel for the borrowed operation
/// submitted with `expected`.
pub open spec fn finished_some_completion(expected: u64, r: Result<usize>) -> bool {
    exists|actual: u64, result: i32| borrowed_outcome(expected, actual, result, r)
}

/// The bytes a borrowed operation submitted with user data `expected`
/// moved, from its completion `(actual, result)`: a completion of another
/// operation is unexpected, and a failed operation is an I/O error.
pub fn borrowed_result(expected: u64, actual: u64, result: i32) -> (r: Result<usize>)
    ensures
        borrowed_outcome(expected, actual, result, r),
{
    if actual != expected {
        return Err(Error::IoUringUnexpectedCompletion { expected, actual });
    }
    completion_result_to_bytes(result)
}

/// The I/O error for an OS error code (`std::io::Error::from_raw_os_error`).
/// The error is opaque; nothing is stated of it.
#[verifier::external_body]
fn os_error(code: i32) -> std::io::Error {
    std::io::Error::from_raw_os_error(code)
}

/// A completion's result code as a byte count: negative codes are the
/// negated OS error of a failed operation.
pub fn completion_result_to_bytes(result: i32) -> (r: Result<usize>)
    ensures
        result >= 0 ==> (r matches Ok(n) && n == result),
        result < 0 ==> r matches Err(Error::Io(_)),
{
    if result < 0 {
        return Err(Error::Io(os_error(0i32.wrapping_sub(result))));
    }
    Ok(result as usize)
}

} // verus!
