use vstd::prelude::*;

use crate::block_device::BlockDevice;
use crate::capabilities::Capabilities;
use crate::error::{Error, Result};
use crate::extent::{Extent, ExtentKind};
use crate::geometry::DiskGeometry;
use crate::virtual_disk::VirtualDisk;

verus! {

/// A raw disk image: the virtual disk whose bytes are exactly those of a
/// block device, all of it data.
pub struct RawDisk<D> where D: BlockDevice {
    device: D,
}

impl<D> RawDisk<D> where D: BlockDevice {
    pub closed spec fn spec_device(&self) -> D {
        self.device
    }

    pub fn new(device: D) -> (r: RawDisk<D>)
        ensures
            r.spec_device() == device,
    {
        RawDisk { device }
    }

    /// A raw disk shows exactly its device: the same geometry,
    /// capabilities and bytes, and its read-only flag and size follow.
    pub proof fn lemma_mirrors_device(&self)
        ensures
            self.spec_geometry() == self.spec_device().spec_geometry(),
            self.spec_capabilities() == self.spec_device().spec_capabilities(),
            self.spec_contents() == self.spec_device().spec_contents(),
            self.spec_geometry().size() == self.spec_device().spec_geometry().size(),
    {
    }

    /// The underlying device.
    pub fn device(&self) -> (d: &D)
        ensures
            *d == self.spec_device(),
    {
        &self.device
    }

    /// Gives the underlying device back.
    pub fn into_inner(self) -> (d: D)
        ensures
            d == self.spec_device(),
    {
        self.device
    }
}

impl<D> VirtualDisk for RawDisk<D> where D: BlockDevice {
    open spec fn spec_geometry(&self) -> DiskGeometry {
        self.spec_device().spec_geometry()
    }

    open spec fn spec_capabilities(&self) -> Capabilities {
        self.spec_device().spec_capabilities()
    }

    open spec fn spec_contents(&self) -> Seq<u8> {
        self.spec_device().spec_contents()
    }

    /// A range within the disk is one data extent, or none when empty; a
    /// range past the disk's end is refused.
    open spec fn spec_extents(&self, offset: u64, length: u64) -> Option<Seq<Extent>> {
        if offset + length > self.spec_geometry().size() {
            None
        } else if length == 0 {
            Some(Seq::empty())
        } else {
            Some(seq![Extent::spec_new(offset, length, ExtentKind::Data)])
        }
    }

    proof fn lemma_contents_size(&self) {
        self.spec_device().lemma_contents_size();
    }

    fn geometry(&self) -> (g: DiskGeometry) {
        self.device.geometry()
    }

    fn capabilities(&self) -> (c: Capabilities) {
        self.device.capabilities()
    }

    fn read_at(&self, offset: u64, buffer: &mut [u8]) -> (r: Result<usize>) {
        self.device.read_at(offset, buffer)
    }

    fn write_at(&mut self, offset: u64, buffer: &[u8]) -> (r: Result<usize>) {
        self.device.write_at(offset, buffer)
    }

    fn write_zero_at(&mut self, offset: u64, length: u64) -> (r: Result<()>) {
        self.device.write_zero_at(offset, length)
    }

    fn discard(&mut self, offset: u64, length: u64) -> (r: Result<()>) {
        self.device.discard(offset, length)
    }

    fn flush(&self) -> (r: Result<()>) {
        self.device.flush()
    }

    /// A raw image has no allocation map: any in-bounds, non-empty range is
    /// one data extent.
    fn extents(&self, offset: u64, length: u64) -> (r: Result<Vec<Extent>>)
        ensures
            offset + length > u64::MAX ==> (r matches Err(
                Error::RangeOverflow { offset: o, length: l },
            ) && o == offset && l == length),
            offset + length <= u64::MAX && offset + length > self.spec_geometry().size() ==> (
            r matches Err(Error::OutOfBounds { offset: o, length: l, size: s }) && o == offset && l
                == length && s == self.spec_geometry().size()),
            offset + length <= self.spec_geometry().size() && length == 0 ==> (r matches Ok(v)
                && v@.len() == 0),
            offset + length <= self.spec_geometry().size() && length > 0 ==> (r matches Ok(v)
                && v@.len() == 1 && v@[0].offset() == offset && v@[0].length() == length
                && v@[0].kind() == ExtentKind::Data),
    {
        let end = match offset.checked_add(length) {
            Some(end) => end,
            None => {
                return Err(Error::RangeOverflow { offset, length });
            },
        };
        if end > self.size() {
            return Err(Error::OutOfBounds { offset, length, size: self.size() });
        }
        if length == 0 {
            let none: Vec<Extent> = Vec::new();
            proof {
                assert(none@ =~= Seq::<Extent>::empty());
            }
            return Ok(none);
        }
        let extent = Extent::new(offset, length, ExtentKind::Data)?;
        let mut extents = Vec::new();
        extents.push(extent);
        proof {
            assert(extents@ =~= seq![Extent::spec_new(offset, length, ExtentKind::Data)]);
        }
        Ok(extents)
    }
}

} // verus!
