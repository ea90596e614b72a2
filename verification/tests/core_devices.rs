use rvvdk::block_device::BlockDevice;
use rvvdk::capabilities::Capabilities;
use rvvdk::error::{Error, Result};
use rvvdk::geometry::DiskGeometry;
use vstd::seq::Seq;

struct TestBlockDevice {
    geometry: DiskGeometry,
    capabilities: Capabilities,
}

impl TestBlockDevice {
    fn new(size: u64, capabilities: Capabilities) -> Self {
        Self { geometry: DiskGeometry::new(size, 512, 4096).unwrap(), capabilities }
    }
}

impl BlockDevice for TestBlockDevice {
    fn spec_geometry(&self) -> DiskGeometry {
        unreachable!()
    }

    fn spec_capabilities(&self) -> Capabilities {
        unreachable!()
    }

    fn spec_contents(&self) -> Seq<u8> {
        unreachable!()
    }

    fn lemma_contents_size(&self) {
        unreachable!()
    }

    fn geometry(&self) -> DiskGeometry {
        self.geometry
    }

    fn capabilities(&self) -> Capabilities {
        self.capabilities
    }

    fn read_at(&self, _offset: u64, _buffer: &mut [u8]) -> Result<usize> {
        Ok(0)
    }

    fn write_at(&mut self, _offset: u64, _buffer: &[u8]) -> Result<usize> {
        Ok(0)
    }

    fn flush(&self) -> Result<()> {
        Ok(())
    }
}

#[test]
fn reports_size() {
    let device = TestBlockDevice::new(1024 * 1024, Capabilities::read());

    assert_eq!(device.size(), 1024 * 1024);
}

#[test]
fn detects_read_only_device() {
    let device = TestBlockDevice::new(1024 * 1024, Capabilities::read());

    assert!(device.is_read_only());
}

#[test]
fn detects_writable_device() {
    let device = TestBlockDevice::new(1024 * 1024, Capabilities::read() | Capabilities::write());

    assert!(!device.is_read_only());
}

#[test]
fn accepts_valid_range() {
    let device = TestBlockDevice::new(1024, Capabilities::read());

    assert!(device.validate_range(512, 512).is_ok());
}

#[test]
fn rejects_out_of_bounds_range() {
    let device = TestBlockDevice::new(1024, Capabilities::read());

    let result = device.validate_range(900, 200);

    assert!(matches!(result, Err(Error::OutOfBounds { .. })));
}

#[test]
fn rejects_overflowing_range() {
    let device = TestBlockDevice::new(u64::MAX, Capabilities::read());

    let result = device.validate_range(u64::MAX, 1);

    assert!(matches!(result, Err(Error::RangeOverflow { .. })));
}

/// A device that moves at most two bytes per call.
struct PartialBlockDevice {
    data: Vec<u8>,
    geometry: DiskGeometry,
}

impl PartialBlockDevice {
    fn new(size: usize) -> Self {
        Self { data: vec![0_u8; size], geometry: DiskGeometry::new(size as u64, 512, 4096).unwrap() }
    }
}

impl BlockDevice for PartialBlockDevice {
    fn spec_geometry(&self) -> DiskGeometry {
        unreachable!()
    }

    fn spec_capabilities(&self) -> Capabilities {
        unreachable!()
    }

    fn spec_contents(&self) -> Seq<u8> {
        unreachable!()
    }

    fn lemma_contents_size(&self) {
        unreachable!()
    }

    fn geometry(&self) -> DiskGeometry {
        self.geometry
    }

    fn capabilities(&self) -> Capabilities {
        Capabilities::read() | Capabilities::write() | Capabilities::flush()
    }

    fn read_at(&self, offset: u64, buffer: &mut [u8]) -> Result<usize> {
        self.validate_range(offset, buffer.len())?;

        if buffer.is_empty() {
            return Ok(0);
        }

        let transfer = buffer.len().min(2);
        let start = usize::try_from(offset).unwrap();
        let end = start + transfer;

        buffer[..transfer].copy_from_slice(&self.data[start..end]);

        Ok(transfer)
    }

    fn write_at(&mut self, offset: u64, buffer: &[u8]) -> Result<usize> {
        self.validate_range(offset, buffer.len())?;

        if buffer.is_empty() {
            return Ok(0);
        }

        let transfer = buffer.len().min(2);
        let start = usize::try_from(offset).unwrap();
        let end = start + transfer;

        self.data[start..end].copy_from_slice(&buffer[..transfer]);

        Ok(transfer)
    }

    fn flush(&self) -> Result<()> {
        Ok(())
    }
}

#[test]
fn exact_io_handles_partial_operations() {
    let mut device = PartialBlockDevice::new(4096);

    device.write_all_at(100, b"rvvdk").unwrap();

    let mut buffer = [0_u8; 5];

    device.read_exact_at(100, &mut buffer).unwrap();

    assert_eq!(&buffer, b"rvvdk");
}
