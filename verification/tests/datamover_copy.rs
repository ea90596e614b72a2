use rvvdk::capabilities::Capabilities;
use rvvdk::datamover::execution::{ExecutionStrategy, IoUringExecutionOptions};
use rvvdk::datamover::mover::DataMover;
use rvvdk::datamover::options::CopyOptions;
use rvvdk::error::{Error, Result};
use rvvdk::extent::{Extent, ExtentKind};
use rvvdk::geometry::DiskGeometry;
use rvvdk::memory::MemoryBlockDevice;
use rvvdk::raw::RawDisk;
use rvvdk::virtual_disk::VirtualDisk;
use vstd::seq::Seq;

#[test]
fn concurrent_copy_matches_source() {
    let size = 8 * 1024 * 1024;

    let mut source = RawDisk::new(MemoryBlockDevice::new(size).unwrap());

    let mut destination = RawDisk::new(MemoryBlockDevice::new(size).unwrap());

    for offset in [0, 1024 * 1024, 3 * 1024 * 1024, 7 * 1024 * 1024] {
        source.write_all_at(offset as u64, b"rvvdk").unwrap();
    }

    let options = CopyOptions::with_concurrency(256 * 1024, 4096, 4).unwrap();

    let mover = DataMover::new(options);

    let stats = mover.copy(&source, &mut destination).unwrap();

    assert_eq!(stats.bytes_read(), size as u64,);

    assert_eq!(stats.bytes_written(), size as u64,);

    let mut source_buffer = vec![0_u8; size];

    let mut destination_buffer = vec![0_u8; size];

    source.read_exact_at(0, &mut source_buffer).unwrap();

    destination.read_exact_at(0, &mut destination_buffer).unwrap();

    assert_eq!(destination_buffer, source_buffer,);
}

#[test]
fn different_concurrency_levels_produce_identical_results() {
    const SIZE: usize = 4 * 1024 * 1024;

    for concurrency in [1, 2, 4, 8] {
        let mut source = RawDisk::new(MemoryBlockDevice::new(SIZE).unwrap());

        let mut destination = RawDisk::new(MemoryBlockDevice::new(SIZE).unwrap());

        source.write_all_at(12345, b"concurrent-rvvdk").unwrap();

        source.write_all_at(2 * 1024 * 1024, b"second-region").unwrap();

        let options = CopyOptions::with_concurrency(128 * 1024, 4096, concurrency).unwrap();

        DataMover::new(options).copy(&source, &mut destination).unwrap();

        let mut expected = vec![0_u8; SIZE];

        let mut actual = vec![0_u8; SIZE];

        source.read_exact_at(0, &mut expected).unwrap();

        destination.read_exact_at(0, &mut actual).unwrap();

        assert_eq!(actual, expected, "copy mismatch at concurrency {concurrency}",);
    }
}

#[test]
fn concurrent_copy_preserves_block_boundaries() {
    const BLOCK_SIZE: usize = 64 * 1024;

    const BLOCKS: usize = 64;

    const SIZE: usize = BLOCK_SIZE * BLOCKS;

    let mut source = RawDisk::new(MemoryBlockDevice::new(SIZE).unwrap());

    let mut destination = RawDisk::new(MemoryBlockDevice::new(SIZE).unwrap());

    for block in 0..BLOCKS {
        let value = u8::try_from(block).unwrap();

        let data = vec![value; BLOCK_SIZE];

        source.write_all_at((block * BLOCK_SIZE) as u64, &data).unwrap();
    }

    let options = CopyOptions::with_concurrency(BLOCK_SIZE, 4096, 8).unwrap();

    DataMover::new(options).copy(&source, &mut destination).unwrap();

    let mut buffer = vec![0_u8; BLOCK_SIZE];

    for block in 0..BLOCKS {
        destination.read_exact_at((block * BLOCK_SIZE) as u64, &mut buffer).unwrap();

        let expected = u8::try_from(block).unwrap();

        assert!(buffer.iter().all(|value| *value == expected), "block {block} was corrupted",);
    }
}

#[test]
fn copies_memory_disk() {
    let source_device = MemoryBlockDevice::new(4096).unwrap();

    let destination_device = MemoryBlockDevice::new(4096).unwrap();

    let mut source = RawDisk::new(source_device);
    let mut destination = RawDisk::new(destination_device);

    source.write_at(0, b"rvvdk").unwrap();

    source.write_at(2048, b"datamover").unwrap();

    let mover = DataMover::new(CopyOptions::new(512).unwrap());

    let stats = mover.copy(&source, &mut destination).unwrap();

    assert_eq!(stats.bytes_read(), 4096);
    assert_eq!(stats.bytes_written(), 4096);
    assert_eq!(stats.blocks_copied(), 8);

    let mut first = [0_u8; 5];
    let mut second = [0_u8; 9];

    destination.read_at(0, &mut first).unwrap();

    destination.read_at(2048, &mut second).unwrap();

    assert_eq!(&first, b"rvvdk");
    assert_eq!(&second, b"datamover");
}

#[test]
fn copies_final_partial_block() {
    let source_device = MemoryBlockDevice::new(1000).unwrap();

    let destination_device = MemoryBlockDevice::new(1000).unwrap();

    let mut source = RawDisk::new(source_device);
    let mut destination = RawDisk::new(destination_device);

    source.write_at(995, b"rvvdk").unwrap();

    let mover = DataMover::new(CopyOptions::new(256).unwrap());

    let stats = mover.copy(&source, &mut destination).unwrap();

    assert_eq!(stats.bytes_written(), 1000);
    assert_eq!(stats.blocks_copied(), 4);

    let mut buffer = [0_u8; 5];

    destination.read_at(995, &mut buffer).unwrap();

    assert_eq!(&buffer, b"rvvdk");
}

#[test]
fn rejects_destination_smaller_than_source() {
    let source = RawDisk::new(MemoryBlockDevice::new(4096).unwrap());

    let mut destination = RawDisk::new(MemoryBlockDevice::new(2048).unwrap());

    let mover = DataMover::new(CopyOptions::default());

    assert!(mover.copy(&source, &mut destination).is_err());
}

#[test]
fn datamover_defaults_to_threaded_execution() {
    let options = CopyOptions::new(1024 * 1024).unwrap();

    let mover = DataMover::new(options);

    assert_eq!(mover.execution_strategy(), ExecutionStrategy::Threaded,);
}

#[test]
fn datamover_accepts_io_uring_execution() {
    let options = CopyOptions::new(1024 * 1024).unwrap();

    let io_uring = IoUringExecutionOptions::new(8).unwrap();

    let mover = DataMover::with_execution_strategy(options, ExecutionStrategy::IoUring(io_uring));

    assert_eq!(mover.execution_strategy(), ExecutionStrategy::IoUring(io_uring,),);
}

#[test]
fn datamover_accepts_auto_execution() {
    let copy_options = CopyOptions::new(1024 * 1024).unwrap();

    let io_uring_options = IoUringExecutionOptions::new(8).unwrap();

    let mover =
        DataMover::with_execution_strategy(copy_options, ExecutionStrategy::Auto(io_uring_options));

    assert_eq!(mover.execution_strategy(), ExecutionStrategy::Auto(io_uring_options,),);
}

/// A disk that reports a fixed extent map and can be given any
/// capabilities.
struct ExtentDisk {
    data: Vec<u8>,
    geometry: DiskGeometry,
    capabilities: Capabilities,
    extents: Vec<Extent>,
}

impl ExtentDisk {
    fn new(size: usize, capabilities: Capabilities, extents: Vec<Extent>) -> Self {
        Self {
            data: vec![0_u8; size],
            geometry: DiskGeometry::new(size as u64, 512, 4096).unwrap(),
            capabilities,
            extents,
        }
    }
}

impl VirtualDisk for ExtentDisk {
    fn spec_geometry(&self) -> DiskGeometry {
        unreachable!()
    }

    fn spec_capabilities(&self) -> Capabilities {
        unreachable!()
    }

    fn spec_contents(&self) -> Seq<u8> {
        unreachable!()
    }

    fn spec_extents(&self, _offset: u64, _length: u64) -> Option<Seq<Extent>> {
        unreachable!()
    }

    fn lemma_contents_size(&self) {
        unreachable!()
    }

    fn geometry(&self) -> DiskGeometry {
        self.geometry
    }

    fn capabilities(&self) -> Capabilities {
        self.capabilities
    }

    fn read_at(&self, offset: u64, buffer: &mut [u8]) -> Result<usize> {
        let start = usize::try_from(offset).unwrap();

        let end = start + buffer.len();

        buffer.copy_from_slice(&self.data[start..end]);

        Ok(buffer.len())
    }

    fn write_at(&mut self, offset: u64, buffer: &[u8]) -> Result<usize> {
        if !self.capabilities.contains(Capabilities::write()) {
            return Err(Error::Unsupported);
        }

        let start = usize::try_from(offset).unwrap();

        let end = start + buffer.len();

        self.data[start..end].copy_from_slice(buffer);

        Ok(buffer.len())
    }

    fn write_zero_at(&mut self, offset: u64, length: u64) -> Result<()> {
        if !self.capabilities.contains(Capabilities::write_zero()) {
            return Err(Error::Unsupported);
        }

        let start = usize::try_from(offset).unwrap();

        let length = usize::try_from(length).unwrap();

        let end = start + length;

        self.data[start..end].fill(0);

        Ok(())
    }

    fn discard(&mut self, offset: u64, length: u64) -> Result<()> {
        if !self.capabilities.contains(Capabilities::discard()) {
            return Err(Error::Unsupported);
        }

        let start = usize::try_from(offset).unwrap();

        let length = usize::try_from(length).unwrap();

        let end = start + length;

        self.data[start..end].fill(0);

        Ok(())
    }

    fn flush(&self) -> Result<()> {
        Ok(())
    }

    fn extents(&self, offset: u64, length: u64) -> Result<Vec<Extent>> {
        if offset != 0 || length != self.geometry.size() {
            return Err(Error::Unsupported);
        }

        Ok(self.extents.clone())
    }
}

#[test]
fn processes_data_zero_and_hole_extents() {
    let extents = vec![
        Extent::new(0, 1024, ExtentKind::Data).unwrap(),
        Extent::new(1024, 1024, ExtentKind::Zero).unwrap(),
        Extent::new(2048, 1024, ExtentKind::Hole).unwrap(),
        Extent::new(3072, 1024, ExtentKind::Data).unwrap(),
    ];

    let mut source = ExtentDisk::new(4096, Capabilities::read(), extents);

    source.data[0..1024].fill(0xaa);
    source.data[3072..4096].fill(0xbb);

    let mut destination = ExtentDisk::new(
        4096,
        Capabilities::read()
            | Capabilities::write()
            | Capabilities::flush()
            | Capabilities::write_zero()
            | Capabilities::discard(),
        Vec::new(),
    );

    destination.data.fill(0xff);

    let mover = DataMover::new(CopyOptions::new(512).unwrap());

    let stats = mover.copy(&source, &mut destination).unwrap();

    let data = &destination.data;

    assert!(data[0..1024].iter().all(|value| *value == 0xaa));

    assert!(data[1024..2048].iter().all(|value| *value == 0));

    assert!(data[2048..3072].iter().all(|value| *value == 0));

    assert!(data[3072..4096].iter().all(|value| *value == 0xbb));

    assert_eq!(stats.bytes_read(), 2048,);

    assert_eq!(stats.bytes_written(), 2048,);

    assert_eq!(stats.bytes_zeroed(), 1024,);

    assert_eq!(stats.bytes_discarded(), 1024,);

    assert_eq!(stats.extents_processed(), 4,);
}

#[test]
fn zero_extent_falls_back_to_writes() {
    let extents = vec![Extent::new(0, 4096, ExtentKind::Zero).unwrap()];

    let source = ExtentDisk::new(4096, Capabilities::read(), extents);

    let mut destination = ExtentDisk::new(
        4096,
        Capabilities::read() | Capabilities::write() | Capabilities::flush(),
        Vec::new(),
    );

    destination.data.fill(0xff);

    let mover = DataMover::new(CopyOptions::new(512).unwrap());

    let stats = mover.copy(&source, &mut destination).unwrap();

    assert!(destination.data.iter().all(|value| *value == 0));

    assert_eq!(stats.bytes_read(), 0,);

    assert_eq!(stats.bytes_written(), 4096,);

    assert_eq!(stats.bytes_zeroed(), 0,);

    assert_eq!(stats.bytes_discarded(), 0,);

    assert_eq!(stats.blocks_copied(), 8,);

    assert_eq!(stats.extents_processed(), 1,);
}

#[test]
fn hole_extent_uses_write_zero_when_discard_is_unavailable() {
    let extents = vec![Extent::new(0, 4096, ExtentKind::Hole).unwrap()];

    let source = ExtentDisk::new(4096, Capabilities::read(), extents);

    let mut destination = ExtentDisk::new(
        4096,
        Capabilities::read()
            | Capabilities::write()
            | Capabilities::flush()
            | Capabilities::write_zero(),
        Vec::new(),
    );

    destination.data.fill(0xff);

    let mover = DataMover::new(CopyOptions::new(512).unwrap());

    let stats = mover.copy(&source, &mut destination).unwrap();

    assert!(destination.data.iter().all(|value| *value == 0));

    assert_eq!(stats.bytes_read(), 0,);

    assert_eq!(stats.bytes_written(), 0,);

    assert_eq!(stats.bytes_zeroed(), 4096,);

    assert_eq!(stats.bytes_discarded(), 0,);
}

#[test]
fn hole_extent_falls_back_to_zero_writes() {
    let extents = vec![Extent::new(0, 4096, ExtentKind::Hole).unwrap()];

    let source = ExtentDisk::new(4096, Capabilities::read(), extents);

    let mut destination = ExtentDisk::new(
        4096,
        Capabilities::read() | Capabilities::write() | Capabilities::flush(),
        Vec::new(),
    );

    destination.data.fill(0xff);

    let mover = DataMover::new(CopyOptions::new(1024).unwrap());

    let stats = mover.copy(&source, &mut destination).unwrap();

    assert!(destination.data.iter().all(|value| *value == 0));

    assert_eq!(stats.bytes_read(), 0,);

    assert_eq!(stats.bytes_written(), 4096,);

    assert_eq!(stats.bytes_zeroed(), 0,);

    assert_eq!(stats.bytes_discarded(), 0,);

    assert_eq!(stats.blocks_copied(), 4,);
}

#[test]
fn rejects_extent_map_with_gap() {
    let extents = vec![
        Extent::new(0, 1024, ExtentKind::Data).unwrap(),
        Extent::new(2048, 2048, ExtentKind::Data).unwrap(),
    ];

    let source = ExtentDisk::new(4096, Capabilities::read(), extents);

    let mut destination = ExtentDisk::new(
        4096,
        Capabilities::read() | Capabilities::write() | Capabilities::flush(),
        Vec::new(),
    );

    let mover = DataMover::new(CopyOptions::default());

    let result = mover.copy(&source, &mut destination);

    assert!(matches!(result, Err(Error::CorruptMetadata(_))));
}

#[test]
fn rejects_overlapping_extent_map() {
    let extents = vec![
        Extent::new(0, 2048, ExtentKind::Data).unwrap(),
        Extent::new(1024, 3072, ExtentKind::Zero).unwrap(),
    ];

    let source = ExtentDisk::new(4096, Capabilities::read(), extents);

    let mut destination = ExtentDisk::new(
        4096,
        Capabilities::read() | Capabilities::write() | Capabilities::flush(),
        Vec::new(),
    );

    let mover = DataMover::new(CopyOptions::default());

    let result = mover.copy(&source, &mut destination);

    assert!(matches!(result, Err(Error::CorruptMetadata(_))));
}
