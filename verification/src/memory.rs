use vstd::prelude::*;

use crate::block_device::{range_outcome, splice, zeros, BlockDevice};
use crate::capabilities::Capabilities;
use crate::error::{Error, Result};
use crate::geometry::DiskGeometry;

verus! {

/// A block device kept in memory, zero-filled when created, with 512-byte
/// logical and 4096-byte physical blocks.
pub struct MemoryBlockDevice {
    data: Vec<u8>,
    capabilities: Capabilities,
}

/// Whether `g` is the geometry of a memory device of `size` bytes.
pub open spec fn memory_geometry(g: DiskGeometry, size: nat) -> bool {
    &&& g.size() == size
    &&& g.logical_block_size() == 512
    &&& g.physical_block_size() == 4096
}

/// Every capability a memory device can offer but `extents`.
pub open spec fn full_memory_capabilities() -> Capabilities {
    Capabilities {
        read: true,
        write: true,
        flush: true,
        write_zero: true,
        discard: true,
        extents: false,
    }
}

/// The outcome of a zeroing or discarding request on a memory device: refused
/// without the capability, checked against the bounds, otherwise accepted.
pub open spec fn zeroing_outcome(
    capable: bool,
    offset: u64,
    length: u64,
    size: u64,
    r: Result<()>,
) -> bool {
    if !capable {
        r matches Err(Error::Unsupported)
    } else if length > usize::MAX {
        r matches Err(Error::RangeOverflow { offset: o, length: l }) && o == offset && l == length
    } else {
        range_outcome(offset, length, size, r)
    }
}

impl MemoryBlockDevice {
    /// Sets `length` bytes at `start` to zero.
    fn fill_zero(&mut self, start: usize, length: usize)
        requires
            start + length <= old(self).data@.len(),
        ensures
            final(self).capabilities == old(self).capabilities,
            final(self).data@ == splice(old(self).data@, start as int, zeros(length as nat)),
    {
        let ghost initial = self.data@;
        let mut i: usize = 0;
        while i < length
            invariant
                i <= length,
                start + length <= self.data.len(),
                self.data@.len() == initial.len(),
                self.capabilities == old(self).capabilities,
                initial == old(self).data@,
                forall|j: int|
                    0 <= j < self.data@.len() ==> self.data@[j] == if start <= j < start + i {
                        0u8
                    } else {
                        initial[j]
                    },
            decreases length - i,
        {
            self.data.set(start + i, 0);
            i = i + 1;
        }
        proof {
            assert(self.data@ =~= splice(initial, start as int, zeros(length as nat)));
        }
    }

    /// A zero-filled device of `size` bytes that can read, write, flush,
    /// zero and discard.
    pub fn new(size: usize) -> (r: Result<MemoryBlockDevice>)
        ensures
            r matches Ok(d) && memory_geometry(d.spec_geometry(), size as nat)
                && d.spec_capabilities() == full_memory_capabilities() && d.spec_contents()
                == zeros(size as nat),
    {
        Self::with_capabilities(
            size,
            Capabilities::read() | Capabilities::write() | Capabilities::flush()
                | Capabilities::write_zero() | Capabilities::discard(),
        )
    }

    /// A zero-filled device of `size` bytes that can only read.
    pub fn read_only(size: usize) -> (r: Result<MemoryBlockDevice>)
        ensures
            r matches Ok(d) && memory_geometry(d.spec_geometry(), size as nat)
                && d.spec_capabilities() == (Capabilities {
                read: true,
                ..Capabilities::spec_empty()
            }) && d.spec_contents() == zeros(size as nat),
    {
        Self::with_capabilities(size, Capabilities::read())
    }

    /// A zero-filled device of `size` bytes with the given capabilities.
    pub fn with_capabilities(size: usize, capabilities: Capabilities) -> (r: Result<
        MemoryBlockDevice,
    >)
        ensures
            r matches Ok(d) && memory_geometry(d.spec_geometry(), size as nat)
                && d.spec_capabilities() == capabilities && d.spec_contents() == zeros(
                size as nat,
            ),
    {
        let size_u64 = size as u64;
        DiskGeometry::new(size_u64, 512, 4096)?;
        let device = MemoryBlockDevice { data: vec![0; size], capabilities };
        proof {
            assert(device.spec_contents() =~= zeros(size as nat));
        }
        Ok(device)
    }
}

impl BlockDevice for MemoryBlockDevice {
    closed spec fn spec_geometry(&self) -> DiskGeometry {
        DiskGeometry::spec_new(self.data.len() as u64, 512, 4096)
    }

    closed spec fn spec_capabilities(&self) -> Capabilities {
        self.capabilities
    }

    closed spec fn spec_contents(&self) -> Seq<u8> {
        self.data@
    }

    proof fn lemma_contents_size(&self) {
        DiskGeometry::lemma_spec_new(self.data.len() as u64, 512, 4096);
    }

    fn geometry(&self) -> (g: DiskGeometry) {
        match DiskGeometry::new(self.data.len() as u64, 512, 4096) {
            Ok(geometry) => geometry,
            Err(_) => vstd::pervasive::unreached(),
        }
    }

    fn capabilities(&self) -> (c: Capabilities) {
        self.capabilities
    }

    fn read_at(&self, offset: u64, buffer: &mut [u8]) -> (r: Result<usize>)
        ensures
            !self.spec_capabilities().read ==> r matches Err(Error::Unsupported),
            self.spec_capabilities().read ==> (range_outcome(
                offset,
                old(buffer)@.len() as u64,
                self.spec_geometry().size(),
                r,
            ) && (r matches Ok(n) ==> n == old(buffer)@.len())),
    {
        if !self.capabilities.contains(Capabilities::read()) {
            return Err(Error::Unsupported);
        }
        self.validate_range(offset, buffer.len())?;
        proof {
            DiskGeometry::lemma_spec_new(self.data.len() as u64, 512, 4096);
        }
        let start = offset as usize;
        let length = buffer.len();
        let mut i: usize = 0;
        while i < length
            invariant
                buffer@.len() == length,
                i <= length,
                start + length <= self.data.len(),
                start == offset,
                forall|j: int| 0 <= j < i ==> buffer@[j] == self.data@[start + j],
            decreases length - i,
        {
            buffer[i] = self.data[start + i];
            i = i + 1;
        }
        proof {
            assert(buffer@.subrange(0, length as int) =~= self.spec_contents().subrange(
                offset as int,
                offset + length,
            ));
        }
        Ok(length)
    }

    fn write_at(&mut self, offset: u64, buffer: &[u8]) -> (r: Result<usize>)
        ensures
            !old(self).spec_capabilities().write ==> r matches Err(Error::Unsupported),
            old(self).spec_capabilities().write ==> (range_outcome(
                offset,
                buffer@.len() as u64,
                old(self).spec_geometry().size(),
                r,
            ) && (r matches Ok(n) ==> n == buffer@.len())),
            r is Err ==> final(self).spec_contents() == old(self).spec_contents(),
    {
        if !self.capabilities.contains(Capabilities::write()) {
            return Err(Error::Unsupported);
        }
        self.validate_range(offset, buffer.len())?;
        proof {
            DiskGeometry::lemma_spec_new(self.data.len() as u64, 512, 4096);
        }
        let start = offset as usize;
        let length = buffer.len();
        let ghost initial = self.data@;
        let mut i: usize = 0;
        while i < length
            invariant
                buffer@.len() == length,
                i <= length,
                start + length <= self.data.len(),
                start == offset,
                self.data@.len() == initial.len(),
                self.capabilities == old(self).capabilities,
                initial == old(self).data@,
                forall|j: int|
                    0 <= j < self.data@.len() ==> self.data@[j] == if start <= j < start + i {
                        buffer@[j - start]
                    } else {
                        initial[j]
                    },
            decreases length - i,
        {
            self.data.set(start + i, buffer[i]);
            i = i + 1;
        }
        proof {
            assert(buffer@.subrange(0, length as int) =~= buffer@);
            assert(self.spec_contents() =~= splice(
                old(self).spec_contents(),
                offset as int,
                buffer@.subrange(0, length as int),
            ));
        }
        Ok(length)
    }

    fn write_zero_at(&mut self, offset: u64, length: u64) -> (r: Result<()>)
        ensures
            zeroing_outcome(
                old(self).spec_capabilities().write_zero,
                offset,
                length,
                old(self).spec_geometry().size(),
                r,
            ),
            r is Err ==> final(self).spec_contents() == old(self).spec_contents(),
    {
        if !self.capabilities.contains(Capabilities::write_zero()) {
            return Err(Error::Unsupported);
        }
        if length > usize::MAX as u64 {
            return Err(Error::RangeOverflow { offset, length });
        }
        self.validate_range(offset, length as usize)?;
        proof {
            DiskGeometry::lemma_spec_new(self.data.len() as u64, 512, 4096);
        }
        if length == 0 {
            proof {
                assert(splice(self.spec_contents(), offset as int, zeros(0)) =~= self.spec_contents());
            }
            return Ok(());
        }
        self.fill_zero(offset as usize, length as usize);
        Ok(())
    }

    fn discard(&mut self, offset: u64, length: u64) -> (r: Result<()>)
        ensures
            zeroing_outcome(
                old(self).spec_capabilities().discard,
                offset,
                length,
                old(self).spec_geometry().size(),
                r,
            ),
            r is Err ==> final(self).spec_contents() == old(self).spec_contents(),
    {
        if !self.capabilities.contains(Capabilities::discard()) {
            return Err(Error::Unsupported);
        }
        if length > usize::MAX as u64 {
            return Err(Error::RangeOverflow { offset, length });
        }
        self.validate_range(offset, length as usize)?;
        proof {
            DiskGeometry::lemma_spec_new(self.data.len() as u64, 512, 4096);
        }
        if length == 0 {
            proof {
                assert(splice(self.spec_contents(), offset as int, zeros(0)) =~= self.spec_contents());
            }
            return Ok(());
        }
        self.fill_zero(offset as usize, length as usize);
        Ok(())
    }

    fn flush(&self) -> (r: Result<()>)
        ensures
            self.spec_capabilities().flush <==> r is Ok,
            r is Err ==> r matches Err(Error::Unsupported),
    {
        if !self.capabilities.contains(Capabilities::flush()) {
            return Err(Error::Unsupported);
        }
        Ok(())
    }
}

} // verus!
