use vstd::prelude::*;

use crate::block_device::{lemma_splice_extend, range_check_outcome, range_outcome, splice, zeros};
use crate::capabilities::Capabilities;
use crate::error::{Error, Result};
use crate::extent::Extent;
use crate::geometry::DiskGeometry;

verus! {

/// A virtual disk: the byte image a disk format presents, with positional
/// access and a description of its extents.
///
/// The model of a disk is its geometry, its capabilities and its contents,
/// which always has exactly `size` bytes.
pub trait VirtualDisk {
    spec fn spec_geometry(&self) -> DiskGeometry;

    spec fn spec_capabilities(&self) -> Capabilities;

    /// The bytes the disk holds; position `i` is disk offset `i`.
    spec fn spec_contents(&self) -> Seq<u8>;

    /// The extent map the disk reports for `[offset, offset + length)`, or
    /// `None` where it refuses to describe that range.
    spec fn spec_extents(&self, offset: u64, length: u64) -> Option<Seq<Extent>>;

    /// The contents always have the disk's size.
    proof fn lemma_contents_size(&self)
        ensures
            self.spec_contents().len() == self.spec_geometry().size(),
    ;

    fn geometry(&self) -> (g: DiskGeometry)
        ensures
            g == self.spec_geometry(),
    ;

    fn capabilities(&self) -> (c: Capabilities)
        ensures
            c == self.spec_capabilities(),
    ;

    /// Reads up to `buffer.len()` bytes at `offset` into the front of `buffer`
    /// and returns how many were read.
    fn read_at(&self, offset: u64, buffer: &mut [u8]) -> (r: Result<usize>)
        ensures
            final(buffer)@.len() == old(buffer)@.len(),
            r matches Ok(n) ==> {
                &&& n <= old(buffer)@.len()
                &&& offset + n <= self.spec_contents().len()
                &&& final(buffer)@.subrange(0, n as int) == self.spec_contents().subrange(
                    offset as int,
                    offset + n,
                )
            },
    ;

    /// Fills all of `buffer` with the bytes at `offset`, reading as often as
    /// needed.  A read that makes no progress ends it with `UnexpectedEof`.
    fn read_exact_at(&self, offset: u64, buffer: &mut [u8]) -> (r: Result<()>)
        ensures
            final(buffer)@.len() == old(buffer)@.len(),
            r is Ok && old(buffer)@.len() > 0 ==> {
                &&& offset + old(buffer)@.len() <= self.spec_contents().len()
                &&& final(buffer)@ == self.spec_contents().subrange(
                    offset as int,
                    offset + old(buffer)@.len(),
                )
            },
            old(buffer)@.len() == 0 ==> r is Ok,
    {
        let total = buffer.len();
        let mut done: usize = 0;
        let mut position: u64 = offset;
        while done < total
            invariant
                buffer@.len() == total,
                total == old(buffer)@.len(),
                done <= total,
                position == offset + done,
                done > 0 ==> offset + done <= self.spec_contents().len(),
                done > 0 ==> buffer@.subrange(0, done as int) == self.spec_contents().subrange(
                    offset as int,
                    offset + done,
                ),
            decreases total - done,
        {
            let ghost before = buffer@;
            let (head, tail) = buffer.split_at_mut(done);
            let ghost head_v = head@;
            let result = self.read_at(position, tail);
            let ghost tail_v = tail@;
            let read = match result {
                Ok(read) => read,
                Err(e) => {
                    return Err(e);
                },
            };
            if read == 0 {
                return Err(Error::UnexpectedEof { offset: position, remaining: total - done });
            }
            let read_u64 = read as u64;
            position = match position.checked_add(read_u64) {
                Some(next) => next,
                None => {
                    return Err(Error::RangeOverflow { offset: position, length: read_u64 });
                },
            };
            proof {
                assert(buffer@ == head_v + tail_v);
                assert forall|i: int| 0 <= i < done + read implies buffer@[i]
                    == self.spec_contents()[offset + i] by {
                    if i < done {
                        assert(head_v[i] == before[i]);
                        assert(before.subrange(0, done as int)[i] == before[i]);
                    } else {
                        assert(tail_v.subrange(0, read as int)[i - done] == tail_v[i - done]);
                    }
                }
                assert(buffer@.subrange(0, done + read) =~= self.spec_contents().subrange(
                    offset as int,
                    offset + done + read,
                ));
            }
            done = done + read;
        }
        proof {
            assert(buffer@ =~= buffer@.subrange(0, total as int));
        }
        Ok(())
    }

    /// Writes up to `buffer.len()` bytes from the front of `buffer` at
    /// `offset` and returns how many were written.
    fn write_at(&mut self, offset: u64, buffer: &[u8]) -> (r: Result<usize>)
        ensures
            final(self).spec_geometry() == old(self).spec_geometry(),
            final(self).spec_capabilities() == old(self).spec_capabilities(),
            r matches Ok(n) ==> {
                &&& n <= buffer@.len()
                &&& offset + n <= old(self).spec_contents().len()
                &&& final(self).spec_contents() == splice(
                    old(self).spec_contents(),
                    offset as int,
                    buffer@.subrange(0, n as int),
                )
            },
    ;

    /// Writes all of `buffer` at `offset`, writing as often as needed.  A
    /// write that makes no progress ends it with `WriteZero`.
    fn write_all_at(&mut self, offset: u64, buffer: &[u8]) -> (r: Result<()>)
        ensures
            final(self).spec_geometry() == old(self).spec_geometry(),
            final(self).spec_capabilities() == old(self).spec_capabilities(),
            r is Ok && buffer@.len() > 0 ==> {
                &&& offset + buffer@.len() <= old(self).spec_contents().len()
                &&& final(self).spec_contents() == splice(
                    old(self).spec_contents(),
                    offset as int,
                    buffer@,
                )
            },
            buffer@.len() == 0 ==> r is Ok && final(self).spec_contents() == old(
                self,
            ).spec_contents(),
    {
        let total = buffer.len();
        let mut done: usize = 0;
        let mut position: u64 = offset;
        let ghost initial = self.spec_contents();
        let ghost geometry = self.spec_geometry();
        let ghost capabilities = self.spec_capabilities();
        while done < total
            invariant
                total == buffer@.len(),
                done <= total,
                position == offset + done,
                self.spec_geometry() == geometry,
                self.spec_capabilities() == capabilities,
                initial == old(self).spec_contents(),
                geometry == old(self).spec_geometry(),
                capabilities == old(self).spec_capabilities(),
                done == 0 ==> self.spec_contents() == initial,
                done > 0 ==> offset + done <= initial.len(),
                done > 0 ==> self.spec_contents() == splice(
                    initial,
                    offset as int,
                    buffer@.subrange(0, done as int),
                ),
            decreases total - done,
        {
            let rest = vstd::slice::slice_subrange(buffer, done, total);
            let ghost before = self.spec_contents();
            let written = self.write_at(position, rest)?;
            if written == 0 {
                return Err(Error::WriteZero { offset: position, remaining: total - done });
            }
            let written_u64 = written as u64;
            position = match position.checked_add(written_u64) {
                Some(next) => next,
                None => {
                    return Err(Error::RangeOverflow { offset: position, length: written_u64 });
                },
            };
            proof {
                assert(rest@.subrange(0, written as int) == buffer@.subrange(
                    done as int,
                    done + written,
                ));
                if done == 0 {
                    assert(buffer@.subrange(0, 0) =~= Seq::<u8>::empty());
                    assert(splice(initial, offset as int, Seq::<u8>::empty()) =~= initial);
                    assert(buffer@.subrange(0, written as int) =~= buffer@.subrange(
                        0,
                        0,
                    ) + buffer@.subrange(0, written as int));
                }
                lemma_splice_extend(initial, offset as int, buffer@, done as int, written as int);
            }
            done = done + written;
        }
        proof {
            assert(buffer@.subrange(0, total as int) =~= buffer@);
        }
        Ok(())
    }

    /// Zeroes `length` bytes at `offset`.  A disk without the `write_zero`
    /// capability refuses with `Unsupported`.
    fn write_zero_at(&mut self, offset: u64, length: u64) -> (r: Result<()>)
        ensures
            final(self).spec_geometry() == old(self).spec_geometry(),
            final(self).spec_capabilities() == old(self).spec_capabilities(),
            !old(self).spec_capabilities().write_zero ==> r matches Err(Error::Unsupported),
            r is Ok ==> {
                &&& offset + length <= old(self).spec_contents().len()
                &&& final(self).spec_contents() == splice(
                    old(self).spec_contents(),
                    offset as int,
                    zeros(length as nat),
                )
            },
        default_ensures
            final(self).spec_contents() == old(self).spec_contents(),
            range_check_outcome(old(self).spec_capabilities().write_zero, offset, length,
                old(self).spec_geometry().size(), r),
    {
        if !self.capabilities().contains(Capabilities::write_zero()) {
            return Err(Error::Unsupported);
        }
        if length > usize::MAX as u64 {
            return Err(Error::RangeOverflow { offset, length });
        }
        self.validate_range(offset, length as usize)?;
        if length == 0 {
            proof {
                self.lemma_contents_size();
                assert(splice(self.spec_contents(), offset as int, zeros(0)) =~= self.spec_contents());
            }
            return Ok(());
        }
        Err(Error::Unsupported)
    }

    /// Discards (deallocates) `length` bytes at `offset`; the range then
    /// reads as zero.  A disk without the `discard` capability refuses
    /// with `Unsupported`.
    fn discard(&mut self, offset: u64, length: u64) -> (r: Result<()>)
        ensures
            final(self).spec_geometry() == old(self).spec_geometry(),
            final(self).spec_capabilities() == old(self).spec_capabilities(),
            !old(self).spec_capabilities().discard ==> r matches Err(Error::Unsupported),
            r is Ok ==> {
                &&& offset + length <= old(self).spec_contents().len()
                &&& final(self).spec_contents() == splice(
                    old(self).spec_contents(),
                    offset as int,
                    zeros(length as nat),
                )
            },
        default_ensures
            final(self).spec_contents() == old(self).spec_contents(),
            range_check_outcome(old(self).spec_capabilities().discard, offset, length,
                old(self).spec_geometry().size(), r),
    {
        if !self.capabilities().contains(Capabilities::discard()) {
            return Err(Error::Unsupported);
        }
        if length > usize::MAX as u64 {
            return Err(Error::RangeOverflow { offset, length });
        }
        self.validate_range(offset, length as usize)?;
        if length == 0 {
            proof {
                self.lemma_contents_size();
                assert(splice(self.spec_contents(), offset as int, zeros(0)) =~= self.spec_contents());
            }
            return Ok(());
        }
        Err(Error::Unsupported)
    }

    /// Describes the extents of `[offset, offset + length)`: what the disk
    /// reports, and that the report succeeds, depend on the disk alone.
    fn extents(&self, offset: u64, length: u64) -> (r: Result<Vec<Extent>>)
        ensures
            r is Ok <==> self.spec_extents(offset, length) is Some,
            r matches Ok(v) ==> self.spec_extents(offset, length) == Some(v@),
    ;

    /// Makes completed writes durable.
    fn flush(&self) -> (r: Result<()>);

    /// Size of the disk in bytes.
    fn size(&self) -> (s: u64)
        ensures
            s == self.spec_geometry().size(),
    {
        self.geometry().size()
    }

    /// Whether the disk lacks the `write` capability.
    fn is_read_only(&self) -> (b: bool)
        ensures
            b == !self.spec_capabilities().write,
    {
        !self.capabilities().contains(Capabilities::write())
    }

    /// Checks that `[offset, offset + length)` lies within the disk.
    fn validate_range(&self, offset: u64, length: usize) -> (r: Result<()>)
        ensures
            range_outcome(offset, length as u64, self.spec_geometry().size(), r),
    {
        let length = length as u64;
        let end = match offset.checked_add(length) {
            Some(end) => end,
            None => {
                return Err(Error::RangeOverflow { offset, length });
            },
        };
        if end > self.size() {
            return Err(Error::OutOfBounds { offset, length, size: self.size() });
        }
        Ok(())
    }
}

} // verus!
