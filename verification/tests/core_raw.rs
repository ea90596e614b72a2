use rvvdk::block_device::BlockDevice;
use rvvdk::capabilities::Capabilities;
use rvvdk::error::Error;
use rvvdk::extent::ExtentKind;
use rvvdk::memory::MemoryBlockDevice;
use rvvdk::raw::RawDisk;
use rvvdk::virtual_disk::VirtualDisk;

#[test]
fn exposes_device_geometry() {
    let device = MemoryBlockDevice::new(4096).unwrap();

    let disk = RawDisk::new(device);

    assert_eq!(disk.size(), 4096);
}

#[test]
fn raw_writes_and_reads_data() {
    let device = MemoryBlockDevice::new(4096).unwrap();

    let mut disk = RawDisk::new(device);

    disk.write_at(1024, b"rvvdk").unwrap();

    let mut buffer = [0_u8; 5];

    disk.read_at(1024, &mut buffer).unwrap();

    assert_eq!(&buffer, b"rvvdk");
}

#[test]
fn exposes_full_range_as_data_extent() {
    let device = MemoryBlockDevice::new(4096).unwrap();

    let disk = RawDisk::new(device);

    let extents = disk.extents(0, 4096).unwrap();

    assert_eq!(extents.len(), 1);

    assert_eq!(extents[0].kind(), ExtentKind::Data,);

    assert_eq!(extents[0].offset(), 0);
    assert_eq!(extents[0].length(), 4096);
}

#[test]
fn exposes_partial_range_as_data_extent() {
    let device = MemoryBlockDevice::new(4096).unwrap();

    let disk = RawDisk::new(device);

    let extents = disk.extents(1024, 512).unwrap();

    assert_eq!(extents.len(), 1);
    assert_eq!(extents[0].offset(), 1024);
    assert_eq!(extents[0].length(), 512);
}

#[test]
fn empty_range_has_no_extents() {
    let device = MemoryBlockDevice::new(4096).unwrap();

    let disk = RawDisk::new(device);

    let extents = disk.extents(4096, 0).unwrap();

    assert!(extents.is_empty());
}

#[test]
fn rejects_extent_outside_disk() {
    let device = MemoryBlockDevice::new(4096).unwrap();

    let disk = RawDisk::new(device);

    let result = disk.extents(4000, 512);

    assert!(matches!(result, Err(Error::OutOfBounds { .. })));
}

#[test]
fn preserves_device_capabilities() {
    let device = MemoryBlockDevice::read_only(4096).unwrap();

    let disk = RawDisk::new(device);

    assert!(disk.capabilities().contains(Capabilities::read()));

    assert!(!disk.capabilities().contains(Capabilities::write()));

    assert!(disk.is_read_only());
}

#[test]
fn returns_underlying_device() {
    let device = MemoryBlockDevice::new(4096).unwrap();

    let disk = RawDisk::new(device);

    let device = disk.into_inner();

    assert_eq!(device.size(), 4096);
}
