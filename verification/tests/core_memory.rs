use rvvdk::block_device::BlockDevice;
use rvvdk::capabilities::Capabilities;
use rvvdk::error::Error;
use rvvdk::memory::MemoryBlockDevice;

#[test]
fn creates_memory_device() {
    let device = MemoryBlockDevice::new(1024 * 1024).unwrap();

    assert_eq!(device.size(), 1024 * 1024);

    assert!(device.capabilities().contains(Capabilities::read()));

    assert!(device.capabilities().contains(Capabilities::write()));

    assert!(device.capabilities().contains(Capabilities::flush()));
}

#[test]
fn new_device_is_zero_initialized() {
    let device = MemoryBlockDevice::new(4096).unwrap();

    let mut buffer = [0xff; 512];

    let bytes_read = device.read_at(0, &mut buffer).unwrap();

    assert_eq!(bytes_read, 512);
    assert_eq!(buffer, [0; 512]);
}

#[test]
fn memory_writes_and_reads_data() {
    let mut device = MemoryBlockDevice::new(4096).unwrap();

    let input = b"rvvdk";

    let bytes_written = device.write_at(1024, input).unwrap();

    assert_eq!(bytes_written, input.len());

    let mut output = [0; 5];

    let bytes_read = device.read_at(1024, &mut output).unwrap();

    assert_eq!(bytes_read, input.len());
    assert_eq!(&output, input);
}

#[test]
fn preserves_unmodified_data() {
    let mut device = MemoryBlockDevice::new(4096).unwrap();

    device.write_at(100, &[1, 2, 3, 4]).unwrap();

    let mut before = [0xff; 4];
    let mut after = [0xff; 4];

    device.read_at(96, &mut before).unwrap();

    device.read_at(104, &mut after).unwrap();

    assert_eq!(before, [0, 0, 0, 0]);
    assert_eq!(after, [0, 0, 0, 0]);
}

#[test]
fn rejects_out_of_bounds_read() {
    let device = MemoryBlockDevice::new(1024).unwrap();

    let mut buffer = [0; 512];

    let result = device.read_at(800, &mut buffer);

    assert!(matches!(result, Err(Error::OutOfBounds { .. })));
}

#[test]
fn rejects_out_of_bounds_write() {
    let mut device = MemoryBlockDevice::new(1024).unwrap();

    let buffer = [0; 512];

    let result = device.write_at(800, &buffer);

    assert!(matches!(result, Err(Error::OutOfBounds { .. })));
}

#[test]
fn rejects_write_on_read_only_device() {
    let mut device = MemoryBlockDevice::read_only(4096).unwrap();

    let result = device.write_at(0, &[1, 2, 3, 4]);

    assert!(matches!(result, Err(Error::Unsupported)));
}

#[test]
fn allows_read_on_read_only_device() {
    let device = MemoryBlockDevice::read_only(4096).unwrap();

    let mut buffer = [0; 512];

    let result = device.read_at(0, &mut buffer);

    assert!(result.is_ok());
}

#[test]
fn flush_succeeds_when_supported() {
    let device = MemoryBlockDevice::new(4096).unwrap();

    assert!(device.flush().is_ok());
}

#[test]
fn flush_fails_when_not_supported() {
    let device = MemoryBlockDevice::read_only(4096).unwrap();

    assert!(matches!(device.flush(), Err(Error::Unsupported)));
}

#[test]
fn zero_length_read_is_valid() {
    let device = MemoryBlockDevice::new(4096).unwrap();

    let mut buffer = [];

    assert_eq!(device.read_at(4096, &mut buffer).unwrap(), 0);
}

#[test]
fn zero_length_write_is_valid() {
    let mut device = MemoryBlockDevice::new(4096).unwrap();

    let buffer = [];

    assert_eq!(device.write_at(4096, &buffer).unwrap(), 0);
}

#[test]
fn read_exact_at_reads_complete_buffer() {
    let mut device = MemoryBlockDevice::new(4096).unwrap();

    device.write_at(100, b"rvvdk").unwrap();

    let mut buffer = [0_u8; 5];

    device.read_exact_at(100, &mut buffer).unwrap();

    assert_eq!(&buffer, b"rvvdk");
}

#[test]
fn write_all_at_writes_complete_buffer() {
    let mut device = MemoryBlockDevice::new(4096).unwrap();

    device.write_all_at(200, b"rvvdk").unwrap();

    let mut buffer = [0_u8; 5];

    device.read_exact_at(200, &mut buffer).unwrap();

    assert_eq!(&buffer, b"rvvdk");
}

#[test]
fn write_zero_clears_requested_range() {
    let mut device = MemoryBlockDevice::new(4096).unwrap();

    device.write_all_at(100, b"abcdefghij").unwrap();

    device.write_zero_at(103, 4).unwrap();

    let mut buffer = [0_u8; 10];

    device.read_exact_at(100, &mut buffer).unwrap();

    assert_eq!(buffer, [b'a', b'b', b'c', 0, 0, 0, 0, b'h', b'i', b'j',]);
}

#[test]
fn discard_clears_memory_backend_range() {
    let mut device = MemoryBlockDevice::new(4096).unwrap();

    device.write_all_at(100, b"abcdefghij").unwrap();

    device.discard(102, 5).unwrap();

    let mut buffer = [0_u8; 10];

    device.read_exact_at(100, &mut buffer).unwrap();

    assert_eq!(buffer, [b'a', b'b', 0, 0, 0, 0, 0, b'h', b'i', b'j',]);
}

#[test]
fn write_zero_rejects_out_of_bounds_range() {
    let mut device = MemoryBlockDevice::new(4096).unwrap();

    let result = device.write_zero_at(4000, 512);

    assert!(matches!(result, Err(Error::OutOfBounds { .. })));
}

#[test]
fn read_only_device_rejects_write_zero() {
    let mut device = MemoryBlockDevice::read_only(4096).unwrap();

    assert!(matches!(device.write_zero_at(0, 512), Err(Error::Unsupported)));
}

#[test]
fn read_only_device_rejects_discard() {
    let mut device = MemoryBlockDevice::read_only(4096).unwrap();

    assert!(matches!(device.discard(0, 512), Err(Error::Unsupported)));
}
