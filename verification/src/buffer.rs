use vstd::prelude::*;

use crate::error::{Error, Result};
use crate::power_of_two::{is_power_of_two, power_of_two};

verus! {

/// Address in memory of the first element of `bytes`.
///
/// Wraps `<[u8]>::as_ptr` and the pointer's `addr`.  Where the allocator
/// placed the bytes is not stated; what is claimed holds of every slice:
/// a reference is never null, and a slice's memory does not wrap around
/// the end of the address space (the conditions `slice::from_raw_parts`
/// documents for every slice).
#[verifier::external_body]
fn first_byte_address(bytes: &[u8]) -> (a: usize)
    ensures
        a != 0,
        a + bytes@.len() <= usize::MAX,
{
    bytes.as_ptr().addr()
}

/// A zero-initialised, non-empty byte buffer whose first byte sits at a
/// multiple of a power-of-two alignment.
///
/// The bytes live inside a larger allocation: `start` bytes before them and
/// `tail` bytes after them are padding, chosen when the buffer is made so
/// that the first usable byte is aligned.  The address of that byte is
/// recorded then; the allocation is never resized afterwards, so it stays
/// where it is.
pub struct AlignedBuffer {
    storage: Vec<u8>,
    start: usize,
    tail: usize,
    alignment: usize,
    address: usize,
}

/// The largest buffer, in bytes, that can be allocated with `alignment`.
pub open spec fn max_buffer_len(alignment: usize) -> int {
    isize::MAX - (alignment - 1)
}

impl AlignedBuffer {
    /// The usable bytes are not empty, the alignment is a power of two, and
    /// the first usable byte sits at a nonzero multiple of it.
    pub closed spec fn wf(&self) -> bool {
        &&& self.start + self.tail < self.storage@.len()
        &&& is_power_of_two(self.alignment as nat)
        &&& self.address != 0
        &&& self.address % self.alignment == 0
    }

    /// Address in memory of the first usable byte.
    pub closed spec fn spec_address(&self) -> usize {
        self.address
    }

    /// The usable bytes.
    pub closed spec fn view(&self) -> Seq<u8> {
        self.storage@.subrange(self.start as int, self.storage@.len() - self.tail)
    }

    pub closed spec fn spec_alignment(&self) -> usize {
        self.alignment
    }

    /// A zero-filled buffer of `len` bytes aligned to `alignment`, which
    /// must be a power of two.  An empty buffer, or one too large for the
    /// allocator, cannot be allocated.
    pub fn new(len: usize, alignment: usize) -> (r: Result<AlignedBuffer>)
        ensures
            !is_power_of_two(alignment as nat) ==> (r matches Err(
                Error::InvalidBufferAlignment { alignment: a },
            ) && a == alignment),
            is_power_of_two(alignment as nat) && (len == 0 || len > max_buffer_len(alignment))
                ==> (r matches Err(Error::BufferAllocation { size: s, alignment: a }) && s == len
                && a == alignment),
            is_power_of_two(alignment as nat) && 0 < len <= max_buffer_len(alignment) ==> (
            r matches Ok(b) && b.wf() && b@ == Seq::new(len as nat, |i: int| 0u8)
                && b.spec_alignment() == alignment && b.spec_address() != 0 && b.spec_address()
                % alignment == 0),
    {
        if alignment == 0 || !power_of_two(alignment) {
            return Err(Error::InvalidBufferAlignment { alignment });
        }
        if len == 0 {
            return Err(Error::BufferAllocation { size: len, alignment });
        }
        let largest = match (isize::MAX as usize).checked_sub(alignment - 1) {
            Some(largest) => largest,
            None => {
                return Err(Error::BufferAllocation { size: len, alignment });
            },
        };
        if len > largest {
            return Err(Error::BufferAllocation { size: len, alignment });
        }
        let storage: Vec<u8> = vec![0; len + (alignment - 1)];
        let base = first_byte_address(storage.as_slice());
        let start = (alignment - base % alignment) % alignment;
        let tail = (alignment - 1) - start;
        proof {
            lemma_round_up_aligned(base as int, alignment as int);
        }
        let address = base + start;
        let buffer = AlignedBuffer { storage, start, tail, alignment, address };
        proof {
            assert(buffer@ =~= Seq::new(len as nat, |i: int| 0u8));
        }
        Ok(buffer)
    }

    /// Number of usable bytes.
    pub fn len(&self) -> (n: usize)
        requires
            self.wf(),
        ensures
            n == self@.len(),
            n > 0,
    {
        self.storage.len() - self.start - self.tail
    }

    /// Whether the buffer has no usable bytes, which never holds.
    pub fn is_empty(&self) -> (b: bool)
        requires
            self.wf(),
        ensures
            b == (self@.len() == 0),
            !b,
    {
        self.len() == 0
    }

    #[verifier::when_used_as_spec(spec_alignment)]
    pub fn alignment(&self) -> (a: usize)
        ensures
            a == self.spec_alignment(),
    {
        self.alignment
    }

    /// The usable bytes.
    pub fn as_slice(&self) -> (s: &[u8])
        requires
            self.wf(),
        ensures
            s@ == self@,
    {
        let end = self.storage.len() - self.tail;
        vstd::slice::slice_subrange(self.storage.as_slice(), self.start, end)
    }

    /// The usable bytes, for writing.  The buffer keeps what is written
    /// through the slice; slices do not change length.
    pub fn as_mut_slice(&mut self) -> (s: &mut [u8])
        requires
            old(self).wf(),
        ensures
            s@ == old(self)@,
            final(self)@ == final(s)@,
            final(self).spec_alignment() == old(self).spec_alignment(),
            final(self).spec_address() == old(self).spec_address(),
            final(s)@.len() == s@.len() ==> final(self).wf(),
    {
        let start = self.start;
        let window_len = self.storage.len() - self.start - self.tail;
        let ghost storage_final = final(self).storage@;
        let whole = self.storage.as_mut_slice();
        let ghost whole_final = final(whole)@;
        let (prefix, rest) = whole.split_at_mut(start);
        let ghost prefix_final = final(prefix)@;
        let ghost rest_final = final(rest)@;
        let (window, suffix) = rest.split_at_mut(window_len);
        let ghost suffix_final = final(suffix)@;
        let ghost window_final = final(window)@;
        proof {
            assert(prefix_final.len() == prefix@.len());
            assert(suffix_final.len() == suffix@.len());
            assert(storage_final == whole_final);
            assert(whole_final == prefix_final + rest_final);
            assert(rest_final == window_final + suffix_final);
            assert(storage_final.subrange(start as int, storage_final.len() - self.tail)
                =~= window_final);
        }
        window
    }

    /// Sets every usable byte to `value`.
    pub fn fill(&mut self, value: u8)
        requires
            old(self).wf(),
        ensures
            final(self).wf(),
            final(self)@ == Seq::new(old(self)@.len(), |i: int| value),
            final(self).spec_alignment() == old(self).spec_alignment(),
            final(self).spec_address() == old(self).spec_address(),
    {
        let end = self.storage.len() - self.tail;
        let ghost initial = self.storage@;
        let mut i: usize = self.start;
        while i < end
            invariant
                self.start <= i <= end,
                end == self.storage@.len() - self.tail,
                self.storage@.len() == initial.len(),
                self.start == old(self).start,
                self.tail == old(self).tail,
                self.alignment == old(self).alignment,
                self.address == old(self).address,
                initial == old(self).storage@,
                forall|j: int|
                    0 <= j < self.storage@.len() ==> self.storage@[j] == if self.start <= j < i {
                        value
                    } else {
                        initial[j]
                    },
            decreases end - i,
        {
            self.storage.set(i, value);
            i = i + 1;
        }
        proof {
            assert(self@ =~= Seq::new(old(self)@.len(), |i: int| value));
        }
    }

    /// Address in memory of the first usable byte: a nonzero multiple of
    /// the alignment.
    #[verifier::when_used_as_spec(spec_address)]
    pub fn address(&self) -> (a: usize)
        ensures
            a == self.spec_address(),
            self.wf() ==> a != 0 && a % self.spec_alignment() == 0,
    {
        self.address
    }
}

/// Rounding `base` up to the next multiple of `alignment` adds
/// `(alignment - base % alignment) % alignment`, less than `alignment`.
proof fn lemma_round_up_aligned(base: int, alignment: int)
    requires
        base > 0,
        alignment > 0,
    ensures
        0 <= (alignment - base % alignment) % alignment < alignment,
        (base + (alignment - base % alignment) % alignment) % alignment == 0,
{
    let r = base % alignment;
    let q = base / alignment;
    vstd::arithmetic::div_mod::lemma_fundamental_div_mod(base, alignment);
    assert(0 <= r < alignment);
    if r == 0 {
        assert((alignment - r) % alignment == 0) by {
            vstd::arithmetic::div_mod::lemma_mod_self_0(alignment);
        }
        assert(base % alignment == 0);
    } else {
        vstd::arithmetic::div_mod::lemma_small_mod((alignment - r) as nat, alignment as nat);
        assert(base + (alignment - r) == (q + 1) * alignment) by (nonlinear_arith)
            requires
                base == alignment * q + r,
        ;
        vstd::arithmetic::div_mod::lemma_mod_multiples_basic(q + 1, alignment);
    }
}

} // verus!
