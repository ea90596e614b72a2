use rvvdk::block_device::BlockDevice;
use rvvdk::buffer::AlignedBuffer;
use rvvdk::buffer_pool::BufferPool;
use rvvdk::capabilities::Capabilities;
use rvvdk::datamover::concurrent::{execute, WorkerStats};
use rvvdk::datamover::execution::{ExecutionBackend, ExecutionStrategy, IoUringExecutionOptions};
use rvvdk::datamover::linux_backend::{LinuxFdBackend, LinuxFdCapabilities};
use rvvdk::datamover::mover::{DataMover, PlanExecution};
use rvvdk::datamover::native::NativeCopyStats;
use rvvdk::datamover::options::CopyOptions;
use rvvdk::datamover::plan::{extent_fingerprint, CopyPlan, CopyPlanSummary};
use rvvdk::datamover::stats::CopyStats;
use rvvdk::datamover::uring::compatibility::compatibility_of;
use rvvdk::datamover::uring::copy::{
    check_copy_request, on_completion, process_read_completion, process_write_completion,
    CompletionStep, CopyPipeline, IoUringCopyStats,
};
use rvvdk::datamover::uring::engine::{borrowed_result, completion_result_to_bytes, IoUringEngine};
use rvvdk::datamover::uring::extent_copy::{
    native_extent_action, process_hole_extent, process_zero_extent, IoUringExtentCopyStats, NativeExtentAction,
};
use rvvdk::datamover::uring::extent_plan::NativeExtentPlan;
use rvvdk::datamover::uring::operation::{InFlightOperation, IoUringOperationKind};
use rvvdk::datamover::uring::plan_copy::NativePlanCopy;
use rvvdk::datamover::work::{WorkItem, WorkKind};
use rvvdk::error::{Error, Result};
use rvvdk::extent::{Extent, ExtentKind};
use rvvdk::geometry::DiskGeometry;
use rvvdk::memory::MemoryBlockDevice;
use rvvdk::raw::RawDisk;
use rvvdk::virtual_disk::VirtualDisk;
use vstd::seq::Seq;

/// A memory device that also reports Linux descriptor capabilities.
struct FdMemory {
    inner: MemoryBlockDevice,
    fd_capabilities: LinuxFdCapabilities,
}

impl FdMemory {
    fn new(size: usize, memory_alignment: usize, offset_alignment: usize) -> Self {
        Self {
            inner: MemoryBlockDevice::new(size).unwrap(),
            fd_capabilities: LinuxFdCapabilities::new(true, memory_alignment, offset_alignment),
        }
    }
}

impl BlockDevice for FdMemory {
    fn spec_geometry(&self) -> DiskGeometry {
        unreachable!()
    }

    fn spec_capabilities(&self) -> Capabilities {
        unreachable!()
    }

    fn spec_contents(&self) -> Seq<u8> {
        unreachable!()
    }

    fn lemma_contents_size(&self) {
        unreachable!()
    }

    fn geometry(&self) -> DiskGeometry {
        self.inner.geometry()
    }

    fn capabilities(&self) -> Capabilities {
        self.inner.capabilities()
    }

    fn read_at(&self, offset: u64, buffer: &mut [u8]) -> Result<usize> {
        self.inner.read_at(offset, buffer)
    }

    fn write_at(&mut self, offset: u64, buffer: &[u8]) -> Result<usize> {
        self.inner.write_at(offset, buffer)
    }

    fn flush(&self) -> Result<()> {
        self.inner.flush()
    }
}

impl LinuxFdBackend for FdMemory {
    fn spec_linux_fd_capabilities(&self) -> LinuxFdCapabilities {
        unreachable!()
    }

    fn raw_fd(&self) -> i32 {
        -1
    }

    fn linux_fd_capabilities(&self) -> LinuxFdCapabilities {
        self.fd_capabilities
    }
}

#[test]
fn copy_leaves_destination_tail_untouched() {
    let mut source = RawDisk::new(MemoryBlockDevice::new(4096).unwrap());

    let mut destination = RawDisk::new(MemoryBlockDevice::new(8192).unwrap());

    source.write_all_at(0, &[7_u8; 4096]).unwrap();

    destination.write_all_at(0, &[0xff_u8; 8192]).unwrap();

    DataMover::new(CopyOptions::new(1000).unwrap()).copy(&source, &mut destination).unwrap();

    let mut data = vec![0_u8; 8192];

    destination.read_exact_at(0, &mut data).unwrap();

    assert!(data[..4096].iter().all(|value| *value == 7));

    assert!(data[4096..].iter().all(|value| *value == 0xff));
}

#[test]
fn sequential_and_concurrent_copies_report_the_same_counters() {
    let mut stats = Vec::new();

    for concurrency in [1, 3] {
        let mut source = RawDisk::new(MemoryBlockDevice::new(10_000).unwrap());

        let mut destination = RawDisk::new(MemoryBlockDevice::new(10_000).unwrap());

        source.write_all_at(9_990, b"0123456789").unwrap();

        let options = CopyOptions::with_concurrency(1024, 512, concurrency).unwrap();

        stats.push(DataMover::new(options).copy(&source, &mut destination).unwrap());

        let mut tail = [0_u8; 10];

        destination.read_exact_at(9_990, &mut tail).unwrap();

        assert_eq!(&tail, b"0123456789");
    }

    assert_eq!(stats[0].bytes_read(), 10_000);
    assert_eq!(stats[0].bytes_read(), stats[1].bytes_read());
    assert_eq!(stats[0].bytes_written(), stats[1].bytes_written());
    assert_eq!(stats[0].blocks_copied(), 10);
    assert_eq!(stats[0].blocks_copied(), stats[1].blocks_copied());
    assert_eq!(stats[0].extents_processed(), 1);
    assert_eq!(stats[0].extents_processed(), stats[1].extents_processed());
}

#[test]
fn empty_source_copies_nothing() {
    let source = RawDisk::new(MemoryBlockDevice::new(0).unwrap());

    let mut destination = RawDisk::new(MemoryBlockDevice::new(16).unwrap());

    let stats = DataMover::new(CopyOptions::new(8).unwrap()).copy(&source, &mut destination).unwrap();

    assert_eq!(stats.bytes_read(), 0);
    assert_eq!(stats.bytes_written(), 0);
    assert_eq!(stats.blocks_copied(), 0);
    assert_eq!(stats.extents_processed(), 0);
}

#[test]
fn smaller_destination_is_out_of_bounds() {
    let source = RawDisk::new(MemoryBlockDevice::new(4096).unwrap());

    let mut destination = RawDisk::new(MemoryBlockDevice::new(2048).unwrap());

    let result = DataMover::new(CopyOptions::new(512).unwrap()).copy(&source, &mut destination);

    assert!(matches!(
        result,
        Err(Error::OutOfBounds { offset: 0, length: 4096, size: 2048 })
    ));
}

#[test]
fn copy_to_read_only_destination_is_refused() {
    let source = RawDisk::new(MemoryBlockDevice::new(1024).unwrap());

    let mut destination = RawDisk::new(MemoryBlockDevice::read_only(1024).unwrap());

    let result = DataMover::new(CopyOptions::new(512).unwrap()).copy(&source, &mut destination);

    assert!(matches!(result, Err(Error::Unsupported)));
}

#[test]
fn workers_share_one_queue_in_order() {
    let mut source = RawDisk::new(MemoryBlockDevice::new(64).unwrap());

    let mut destination = RawDisk::new(MemoryBlockDevice::new(64).unwrap());

    source.write_all_at(0, &[3_u8; 32]).unwrap();

    destination.write_all_at(0, &[9_u8; 64]).unwrap();

    let work = vec![
        WorkItem::new(0, 16, WorkKind::Copy),
        WorkItem::new(16, 16, WorkKind::Copy),
        WorkItem::new(32, 32, WorkKind::Zero),
    ];

    let mut pool = BufferPool::new(2, 32, 8).unwrap();

    let stats: WorkerStats = execute(&source, &mut destination, work, 4, &mut pool).unwrap();

    assert_eq!(stats.bytes_read, 32);
    assert_eq!(stats.bytes_written, 32);
    assert_eq!(stats.bytes_zeroed, 32);
    assert_eq!(stats.blocks_copied, 2);
    assert_eq!(pool.available(), 2);

    let mut data = [0_u8; 64];

    destination.read_exact_at(0, &mut data).unwrap();

    assert!(data[..32].iter().all(|value| *value == 3));
    assert!(data[32..].iter().all(|value| *value == 0));
}

#[test]
fn no_workers_do_nothing() {
    let source = RawDisk::new(MemoryBlockDevice::new(16).unwrap());

    let mut destination = RawDisk::new(MemoryBlockDevice::new(16).unwrap());

    let work = vec![WorkItem::new(0, 16, WorkKind::Zero)];

    let mut pool = BufferPool::new(1, 16, 8).unwrap();

    let stats = execute(&source, &mut destination, work, 0, &mut pool).unwrap();

    assert_eq!(stats, WorkerStats::zero());
}

#[test]
fn summary_accounts_every_byte_once() {
    let extents = vec![
        Extent::new(0, 10, ExtentKind::Data).unwrap(),
        Extent::new(10, 5, ExtentKind::Hole).unwrap(),
        Extent::new(15, 1, ExtentKind::Zero).unwrap(),
    ];

    let summary = CopyPlanSummary::from_extents(16, &extents).unwrap();

    assert_eq!(summary.data_bytes() + summary.zero_bytes() + summary.hole_bytes(), 16);

    assert!(matches!(
        CopyPlanSummary::from_extents(17, &extents),
        Err(Error::CorruptMetadata(_))
    ));
}

#[test]
fn pipeline_reads_cover_the_range_in_blocks() {
    let mut pipeline = CopyPipeline::new(1000, 2500, 1024, 2).unwrap();

    assert_eq!(pipeline.next_fill_read(0), Some((1000, 1024)));

    assert_eq!(pipeline.next_fill_read(1), Some((2024, 1024)));

    assert_eq!(pipeline.next_fill_read(2), None);

    assert!(!pipeline.exhausted());

    assert_eq!(pipeline.next_refill_read(), Some((3048, 452)));

    assert!(pipeline.exhausted());

    assert_eq!(pipeline.next_refill_read(), None);
}

#[test]
fn pipeline_refuses_range_past_the_end_of_u64() {
    assert!(matches!(
        CopyPipeline::new(u64::MAX, 2, 16, 1),
        Err(Error::RangeOverflow { offset: u64::MAX, length: 2 })
    ));
}

#[test]
fn copy_request_checks_sizes() {
    assert!(matches!(
        check_copy_request(0, 8, 4096),
        Err(Error::InvalidAlignment { value: 0, alignment: 1 })
    ));

    assert!(matches!(check_copy_request(512, 0, 4096), Err(Error::InvalidIoUringQueueDepth)));

    assert!(!check_copy_request(512, 8, 0).unwrap());

    assert!(check_copy_request(512, 8, 1).unwrap());
}

fn completed(kind: IoUringOperationKind, offset: u64, length: usize, transferred: usize) -> rvvdk::datamover::uring::operation::CompletedOperation {
    let mut pool = BufferPool::new(1, 4096, 512).unwrap();

    let buffer = pool.acquire();

    InFlightOperation::new(7, kind, offset, length, buffer).complete(transferred)
}

#[test]
fn full_read_completion_is_counted() {
    let mut stats = IoUringCopyStats::zero();

    let operation = completed(IoUringOperationKind::Read, 4096, 1024, 1024);

    assert_eq!(process_read_completion(&mut stats, &operation).unwrap(), 1024);

    assert_eq!(stats.bytes_read(), 1024);
    assert_eq!(stats.bytes_written(), 0);
    assert_eq!(operation.user_data(), 7);
    assert_eq!(operation.buffer().len(), 1024);
}

#[test]
fn short_read_completion_is_unexpected_eof() {
    let mut stats = IoUringCopyStats::zero();

    let operation = completed(IoUringOperationKind::Read, 4096, 1024, 1000);

    assert!(matches!(
        process_read_completion(&mut stats, &operation),
        Err(Error::UnexpectedEof { offset: 5096, remaining: 24 })
    ));

    assert_eq!(stats, IoUringCopyStats::zero());
}

#[test]
fn overlong_read_completion_is_corrupt() {
    let mut stats = IoUringCopyStats::zero();

    let operation = completed(IoUringOperationKind::Read, 0, 10, 11);

    assert!(matches!(
        process_read_completion(&mut stats, &operation),
        Err(Error::CorruptMetadata(_))
    ));
}

#[test]
fn write_completions_count_blocks() {
    let mut stats = IoUringCopyStats::zero();

    let operation = completed(IoUringOperationKind::Write, 0, 512, 512);

    process_write_completion(&mut stats, &operation).unwrap();

    process_write_completion(&mut stats, &operation).unwrap();

    assert_eq!(stats.bytes_written(), 1024);
    assert_eq!(stats.blocks_completed(), 2);

    let short = completed(IoUringOperationKind::Write, 64, 512, 100);

    assert!(matches!(
        process_write_completion(&mut stats, &short),
        Err(Error::ShortWrite { offset: 64, expected: 512, actual: 100 })
    ));

    let native = NativeCopyStats::from(stats);

    assert_eq!(native.bytes_written(), 1024);
    assert_eq!(native.blocks_completed(), 2);
}

#[test]
fn completion_codes_become_byte_counts_or_errors() {
    assert_eq!(completion_result_to_bytes(4096).unwrap(), 4096);

    assert_eq!(completion_result_to_bytes(0).unwrap(), 0);

    match completion_result_to_bytes(-5) {
        Err(Error::Io(error)) => assert_eq!(error.raw_os_error(), Some(5)),
        other => panic!("expected an I/O error, got {other:?}"),
    }
}

#[test]
fn engine_hands_out_fresh_user_data() {
    let mut engine = IoUringEngine::new(4).unwrap();

    let mut pool = BufferPool::new(2, 4096, 512).unwrap();

    let buffer = pool.acquire();

    let (first, length) = engine.prepare_owned(0, 4096, &buffer).unwrap();

    assert_eq!(first, 1);
    assert_eq!(length, 4096);

    engine.track_owned(first, IoUringOperationKind::Read, 0, 4096, buffer);

    assert_eq!(engine.in_flight(), 1);

    let other = pool.acquire();

    let (second, _) = engine.prepare_owned(4096, 16, &other).unwrap();

    assert_eq!(second, 2);

    assert!(matches!(
        engine.prepare_owned(0, 4097, &other),
        Err(Error::BufferTooSmall { requested: 4097, available: 4096 })
    ));

    assert!(matches!(
        engine.prepare_borrowed(0, 16),
        Err(Error::IoUringOperationModeConflict)
    ));

}

#[test]
fn shut_down_engine_has_no_ring() {
    let mut engine = IoUringEngine::new(4).unwrap();

    assert!(engine.shutdown().is_empty());

    assert_eq!(engine.in_flight(), 0);

    assert!(matches!(engine.submit(), Err(Error::IoUringEngineShutDown)));

    assert!(matches!(engine.ring_mut(), Err(Error::IoUringEngineShutDown)));
}

#[test]
fn borrowed_and_owned_operations_do_not_mix() {
    let mut engine = IoUringEngine::new(2).unwrap();

    let (user_data, _) = engine.prepare_borrowed(0, 16).unwrap();

    assert_eq!(user_data, 1);

    engine.mark_borrowed();

    assert_eq!(engine.in_flight(), 1);

    let mut pool = BufferPool::new(1, 64, 8).unwrap();

    let buffer = pool.acquire();

    assert!(matches!(
        engine.prepare_owned(0, 16, &buffer),
        Err(Error::IoUringOperationModeConflict)
    ));

    assert!(matches!(engine.drain(), Err(Error::IoUringOperationModeConflict)));
}

#[test]
fn drain_with_nothing_in_flight_is_empty() {
    let mut engine = IoUringEngine::new(2).unwrap();

    assert!(engine.drain().unwrap().is_empty());

    assert!(matches!(engine.finish_borrowed(1), Err(Error::IoUringNoInFlight)));
}

#[test]
fn extent_stats_add_up_and_overflow() {
    let mut stats = IoUringExtentCopyStats::zero();

    stats.add_zero_extent(4096).unwrap();

    stats.add_fallback_write(512).unwrap();

    assert_eq!(stats.bytes_zeroed(), 4096);
    assert_eq!(stats.bytes_written(), 512);
    assert_eq!(stats.blocks_completed(), 1);
    assert_eq!(stats.extents_processed(), 1);

    assert!(matches!(stats.add_zero_extent(u64::MAX), Err(Error::RangeOverflow { .. })));

    stats.add_discarded_extent(100).unwrap();

    stats.count_extent().unwrap();

    assert_eq!(stats.bytes_discarded(), 100);
    assert_eq!(stats.extents_processed(), 3);

    let copy = CopyStats::from_io_uring_extents(stats, std::time::Duration::ZERO);

    assert_eq!(copy.bytes_discarded(), 100);
    assert_eq!(copy.bytes_zeroed(), 4096);
    assert_eq!(copy.extents_processed(), 3);
}

#[test]
fn native_extents_are_copied_zeroed_or_refused() {
    let data = Extent::new(0, 10, ExtentKind::Data).unwrap();
    let zero = Extent::new(10, 10, ExtentKind::Zero).unwrap();
    let hole = Extent::new(20, 10, ExtentKind::Hole).unwrap();

    assert_eq!(native_extent_action(&data, false).unwrap(), NativeExtentAction::CopyData);

    assert_eq!(
        native_extent_action(&zero, true).unwrap(),
        NativeExtentAction::ZeroOnDestination
    );

    assert!(matches!(
        native_extent_action(&zero, false),
        Err(Error::UnsupportedNativeExtent { kind: "zero", offset: 10, length: 10 })
    ));

    assert_eq!(
        native_extent_action(&hole, true).unwrap(),
        NativeExtentAction::ClearHoleOnDestination
    );

    assert!(matches!(
        native_extent_action(&hole, false),
        Err(Error::UnsupportedNativeExtent { kind: "hole", offset: 20, length: 10 })
    ));
}

#[test]
fn zero_extents_fall_back_to_block_writes() {
    let mut destination = RawDisk::new(
        MemoryBlockDevice::with_capabilities(
            4096,
            Capabilities::read() | Capabilities::write() | Capabilities::flush(),
        )
        .unwrap(),
    );

    destination.write_all_at(0, &[1_u8; 4096]).unwrap();

    let extent = Extent::new(100, 1000, ExtentKind::Zero).unwrap();

    let mut stats = IoUringExtentCopyStats::zero();

    process_zero_extent(&mut destination, extent, 256, &mut stats).unwrap();

    assert_eq!(stats.bytes_written(), 1000);
    assert_eq!(stats.blocks_completed(), 4);
    assert_eq!(stats.bytes_zeroed(), 0);
    assert_eq!(stats.bytes_discarded(), 0);
    assert_eq!(stats.extents_processed(), 1);

    let mut data = vec![0_u8; 4096];

    destination.read_exact_at(0, &mut data).unwrap();

    assert!(data[..100].iter().all(|value| *value == 1));
    assert!(data[100..1100].iter().all(|value| *value == 0));
    assert!(data[1100..].iter().all(|value| *value == 1));
}

#[test]
fn compatibility_takes_the_largest_alignment() {
    let source = LinuxFdCapabilities::new(true, 512, 4096);

    let destination = LinuxFdCapabilities::new(false, 1024, 512);

    let compatibility = compatibility_of(source, destination);

    assert!(compatibility.compatible());
    assert!(!compatibility.direct_io());
    assert_eq!(compatibility.alignment(), 4096);
}

#[test]
fn plans_with_destination_by_strategy() {
    let source = RawDisk::new(FdMemory::new(8192, 512, 512));

    let destination = RawDisk::new(FdMemory::new(8192, 4096, 512));

    let options = CopyOptions::with_alignment(1024, 1024).unwrap();

    let threaded = DataMover::new(options).plan_with_destination(&source, &destination).unwrap();

    assert_eq!(threaded.backend(), ExecutionBackend::Threaded);
    assert_eq!(threaded.alignment(), 1024);
    assert_eq!(threaded.data_bytes(), 8192);

    let native = IoUringExecutionOptions::new(4).unwrap();

    let auto = DataMover::with_execution_strategy(options, ExecutionStrategy::Auto(native))
        .plan_with_destination(&source, &destination)
        .unwrap();

    assert_eq!(auto.backend(), ExecutionBackend::IoUring);
    assert_eq!(auto.alignment(), 4096);

    let small = RawDisk::new(FdMemory::new(4096, 512, 512));

    assert!(matches!(
        DataMover::new(options).plan_with_destination(&source, &small),
        Err(Error::OutOfBounds { offset: 0, length: 8192, size: 4096 })
    ));
}

#[test]
fn checked_threaded_plan_executes() {
    let mut source = RawDisk::new(FdMemory::new(4096, 512, 512));

    let mut destination = RawDisk::new(FdMemory::new(4096, 512, 512));

    source.write_all_at(10, b"plan").unwrap();

    let mover = DataMover::new(CopyOptions::with_alignment(1024, 512).unwrap());

    let plan = mover.plan_with_destination(&source, &destination).unwrap();

    assert!(matches!(
        mover.prepare_execution(&plan, &source, &destination),
        Ok(PlanExecution::Threaded)
    ));

    let report = mover.execute_threaded_plan(&plan, &source, &mut destination).unwrap();

    assert_eq!(report.backend(), ExecutionBackend::Threaded);
    assert_eq!(report.stats().bytes_written(), 4096);

    let mut data = [0_u8; 4];

    destination.read_exact_at(10, &mut data).unwrap();

    assert_eq!(&data, b"plan");

    let other = DataMover::new(CopyOptions::with_alignment(2048, 512).unwrap());

    assert!(matches!(
        other.prepare_execution(&plan, &source, &destination),
        Err(Error::CorruptMetadata(_))
    ));

    let native = DataMover::with_execution_strategy(
        CopyOptions::with_alignment(1024, 512).unwrap(),
        ExecutionStrategy::IoUring(IoUringExecutionOptions::new(2).unwrap()),
    );

    let native_plan = native.plan_with_destination(&source, &destination).unwrap();

    assert!(matches!(
        mover.prepare_execution(&native_plan, &source, &destination),
        Err(Error::NativeExecutionNotSelected)
    ));

    assert!(matches!(
        native.prepare_execution(&native_plan, &source, &destination),
        Ok(PlanExecution::Native { .. })
    ));

    assert!(matches!(
        mover.native_copy_parameters(source.device(), destination.device()),
        Err(Error::NativeExecutionNotSelected)
    ));
}

fn fnv1a(values: &[u64]) -> u64 {
    let mut hash: u64 = 0xcbf2_9ce4_8422_2325;

    for value in values {
        for byte in value.to_le_bytes() {
            hash ^= u64::from(byte);
            hash = hash.wrapping_mul(0x0000_0100_0000_01b3);
        }
    }

    hash
}

#[test]
fn fingerprint_is_fnv1a_of_offsets_lengths_and_kinds() {
    assert_eq!(extent_fingerprint(&[]), 0xcbf2_9ce4_8422_2325);

    let extents = vec![
        Extent::new(0, 4096, ExtentKind::Data).unwrap(),
        Extent::new(4096, 512, ExtentKind::Zero).unwrap(),
        Extent::new(4608, 1, ExtentKind::Hole).unwrap(),
    ];

    assert_eq!(extent_fingerprint(&extents), fnv1a(&[0, 4096, 1, 4096, 512, 2, 4608, 1, 3]));
}

#[test]
fn oversized_buffer_is_an_allocation_error() {
    assert!(matches!(
        AlignedBuffer::new(usize::MAX, 4096),
        Err(Error::BufferAllocation { size: usize::MAX, alignment: 4096 })
    ));

    assert!(matches!(
        AlignedBuffer::new(0, 4096),
        Err(Error::BufferAllocation { size: 0, alignment: 4096 })
    ));
}

#[test]
fn reads_turn_into_writes_and_writes_into_reads() {
    let mut pipeline = CopyPipeline::new(0, 3000, 1024, 1).unwrap();

    let mut stats = IoUringCopyStats::zero();

    assert_eq!(pipeline.next_fill_read(0), Some((0, 1024)));

    let read = completed(IoUringOperationKind::Read, 0, 1024, 1024);

    match on_completion(&mut pipeline, &mut stats, read).unwrap() {
        CompletionStep::Write { offset, length, buffer } => {
            assert_eq!(offset, 0);
            assert_eq!(length, 1024);
            assert_eq!(buffer.as_slice().len(), 4096);
        }
        CompletionStep::Release { .. } => panic!("a read must be written out"),
    }

    let write = completed(IoUringOperationKind::Write, 0, 1024, 1024);

    match on_completion(&mut pipeline, &mut stats, write).unwrap() {
        CompletionStep::Release { next_read, .. } => assert_eq!(next_read, Some((1024, 1024))),
        CompletionStep::Write { .. } => panic!("a write must free its buffer"),
    }

    assert_eq!(stats.bytes_read(), 1024);
    assert_eq!(stats.bytes_written(), 1024);
    assert_eq!(stats.blocks_completed(), 1);
}

#[test]
fn threaded_plan_with_bad_alignment_cannot_get_buffers() {
    let source = RawDisk::new(FdMemory::new(4096, 512, 512));

    let mut destination = RawDisk::new(FdMemory::new(4096, 512, 512));

    let extents = vec![Extent::new(0, 4096, ExtentKind::Data).unwrap()];

    let plan = CopyPlan::new(4096, extents, ExecutionBackend::Threaded, 1024, 3).unwrap();

    let mover = DataMover::new(CopyOptions::with_alignment(1024, 512).unwrap());

    assert!(matches!(
        mover.execute_threaded_plan(&plan, &source, &mut destination),
        Err(Error::InvalidBufferAlignment { alignment: 3 })
    ));
}

#[test]
fn zero_extents_use_write_zero_where_offered() {
    let mut destination = RawDisk::new(MemoryBlockDevice::new(4096).unwrap());

    destination.write_all_at(0, &[1_u8; 4096]).unwrap();

    let extent = Extent::new(0, 2048, ExtentKind::Zero).unwrap();

    let mut stats = IoUringExtentCopyStats::zero();

    process_zero_extent(&mut destination, extent, 0, &mut stats).unwrap();

    assert_eq!(stats.bytes_zeroed(), 2048);
    assert_eq!(stats.bytes_written(), 0);
    assert_eq!(stats.blocks_completed(), 0);
    assert_eq!(stats.extents_processed(), 1);

    let mut data = vec![1_u8; 4096];

    destination.read_exact_at(0, &mut data).unwrap();

    assert!(data[..2048].iter().all(|value| *value == 0));
    assert!(data[2048..].iter().all(|value| *value == 1));
}

#[test]
fn hole_extents_are_discarded_zeroed_or_written() {
    let extent = Extent::new(512, 1024, ExtentKind::Hole).unwrap();

    let mut discarding = RawDisk::new(MemoryBlockDevice::new(4096).unwrap());

    discarding.write_all_at(0, &[1_u8; 4096]).unwrap();

    let mut stats = IoUringExtentCopyStats::zero();

    process_hole_extent(&mut discarding, extent, 256, &mut stats).unwrap();

    assert_eq!(stats.bytes_discarded(), 1024);
    assert_eq!(stats.bytes_zeroed(), 0);
    assert_eq!(stats.bytes_written(), 0);
    assert_eq!(stats.extents_processed(), 1);

    let mut zeroing = RawDisk::new(
        MemoryBlockDevice::with_capabilities(
            4096,
            Capabilities::read() | Capabilities::write() | Capabilities::write_zero(),
        )
        .unwrap(),
    );

    let mut stats = IoUringExtentCopyStats::zero();

    process_hole_extent(&mut zeroing, extent, 256, &mut stats).unwrap();

    assert_eq!(stats.bytes_discarded(), 0);
    assert_eq!(stats.bytes_zeroed(), 1024);
    assert_eq!(stats.bytes_written(), 0);
    assert_eq!(stats.extents_processed(), 1);

    let mut writing = RawDisk::new(
        MemoryBlockDevice::with_capabilities(
            4096,
            Capabilities::read() | Capabilities::write() | Capabilities::flush(),
        )
        .unwrap(),
    );

    writing.write_all_at(0, &[1_u8; 4096]).unwrap();

    let mut stats = IoUringExtentCopyStats::zero();

    process_hole_extent(&mut writing, extent, 256, &mut stats).unwrap();

    assert_eq!(stats.bytes_discarded(), 0);
    assert_eq!(stats.bytes_zeroed(), 0);
    assert_eq!(stats.bytes_written(), 1024);
    assert_eq!(stats.blocks_completed(), 4);
    assert_eq!(stats.extents_processed(), 1);

    let mut data = vec![1_u8; 4096];

    writing.read_exact_at(0, &mut data).unwrap();

    assert!(data[..512].iter().all(|value| *value == 1));
    assert!(data[512..1536].iter().all(|value| *value == 0));
    assert!(data[1536..].iter().all(|value| *value == 1));
}

#[test]
fn completions_are_claimed_by_user_data() {
    let mut engine = IoUringEngine::new(4).unwrap();

    let mut pool = BufferPool::new(2, 4096, 512).unwrap();

    let buffer = pool.acquire();

    let (user_data, _) = engine.prepare_owned(8192, 512, &buffer).unwrap();

    engine.track_owned(user_data, IoUringOperationKind::Write, 8192, 512, buffer);

    assert!(matches!(
        engine.claim_completion(user_data + 1, 512),
        Err(Error::IoUringUnknownCompletion { user_data: unknown }) if unknown == user_data + 1
    ));

    assert_eq!(engine.in_flight(), 1);

    let completed = engine.claim_completion(user_data, 500).unwrap();

    assert_eq!(completed.user_data(), user_data);
    assert_eq!(completed.kind(), IoUringOperationKind::Write);
    assert_eq!(completed.offset(), 8192);
    assert_eq!(completed.length(), 512);
    assert_eq!(completed.bytes_transferred(), 500);
    assert_eq!(engine.in_flight(), 0);

    let other = pool.acquire();

    let (failed, _) = engine.prepare_owned(0, 16, &other).unwrap();

    engine.track_owned(failed, IoUringOperationKind::Read, 0, 16, other);

    assert!(matches!(engine.claim_completion(failed, -5), Err(Error::Io(_))));

    assert_eq!(engine.in_flight(), 0);
}

#[test]
fn borrowed_completions_must_match_their_submission() {
    assert_eq!(borrowed_result(7, 7, 4096).unwrap(), 4096);

    assert!(matches!(
        borrowed_result(7, 8, 4096),
        Err(Error::IoUringUnexpectedCompletion { expected: 7, actual: 8 })
    ));

    assert!(matches!(borrowed_result(7, 7, -22), Err(Error::Io(_))));
}

#[test]
fn summary_overflow_names_the_sum_that_overflowed() {
    let half: u64 = 1 << 63;

    let same_kind = vec![
        Extent::new(0, half, ExtentKind::Data).unwrap(),
        Extent::new(0, 3, ExtentKind::Zero).unwrap(),
        Extent::new(0, half, ExtentKind::Data).unwrap(),
    ];

    assert!(matches!(
        CopyPlanSummary::from_extents(0, &same_kind),
        Err(Error::RangeOverflow { offset, length }) if offset == half && length == half
    ));

    let data_and_zero = vec![
        Extent::new(0, half, ExtentKind::Data).unwrap(),
        Extent::new(0, half + 1, ExtentKind::Zero).unwrap(),
    ];

    assert!(matches!(
        CopyPlanSummary::from_extents(0, &data_and_zero),
        Err(Error::RangeOverflow { offset, length }) if offset == half && length == half + 1
    ));

    let quarter: u64 = 1 << 62;

    let with_holes = vec![
        Extent::new(0, quarter, ExtentKind::Data).unwrap(),
        Extent::new(0, quarter + (1 << 61), ExtentKind::Zero).unwrap(),
        Extent::new(0, half, ExtentKind::Hole).unwrap(),
    ];

    assert!(matches!(
        CopyPlanSummary::from_extents(0, &with_holes),
        Err(Error::RangeOverflow { offset, length })
            if offset == half + (1 << 61) && length == half
    ));
}

#[test]
fn plans_carry_the_source_extent_map() {
    let source = RawDisk::new(FdMemory::new(8192, 512, 512));

    let destination = RawDisk::new(FdMemory::new(8192, 512, 512));

    let options = CopyOptions::with_alignment(1024, 1024).unwrap();

    let mover = DataMover::new(options);

    let expected = vec![Extent::new(0, 8192, ExtentKind::Data).unwrap()];

    assert_eq!(source.extents(0, 8192).unwrap(), expected);

    assert_eq!(mover.plan(&source).unwrap().extents(), expected.as_slice());

    assert_eq!(
        mover.plan_with_destination(&source, &destination).unwrap().extents(),
        expected.as_slice()
    );

    let empty = RawDisk::new(FdMemory::new(0, 512, 512));

    assert!(mover.plan(&empty).unwrap().extents().is_empty());
}

#[test]
fn shutdown_gives_back_every_owned_buffer() {
    let mut engine = IoUringEngine::new(4).unwrap();

    assert!(engine.shutdown().is_empty());

    let mut pool = BufferPool::new(2, 4096, 512).unwrap();

    for offset in [0_u64, 4096] {
        let buffer = pool.acquire();

        let (user_data, _) = engine.prepare_owned(offset, 4096, &buffer).unwrap();

        engine.track_owned(user_data, IoUringOperationKind::Read, offset, 4096, buffer);
    }

    assert_eq!(pool.available(), 0);
    assert_eq!(engine.in_flight(), 2);

    let released = engine.shutdown();

    assert_eq!(released.len(), 2);
    assert_eq!(engine.in_flight(), 0);

    for buffer in released {
        pool.release(buffer);
    }

    assert_eq!(pool.available(), 2);
}

#[test]
fn workers_with_no_work_do_nothing() {
    let source = RawDisk::new(MemoryBlockDevice::new(16).unwrap());

    let mut destination = RawDisk::new(MemoryBlockDevice::new(16).unwrap());

    destination.write_all_at(0, &[5_u8; 16]).unwrap();

    let mut pool = BufferPool::new(1, 16, 8).unwrap();

    let stats = execute(&source, &mut destination, Vec::new(), 3, &mut pool).unwrap();

    assert_eq!(stats, WorkerStats::zero());

    let mut data = [0_u8; 16];

    destination.read_exact_at(0, &mut data).unwrap();

    assert_eq!(data, [5_u8; 16]);
}

fn data_copy_of(length: usize) -> IoUringCopyStats {
    let mut stats = IoUringCopyStats::zero();

    process_read_completion(&mut stats, &completed(IoUringOperationKind::Read, 0, length, length)).unwrap();

    process_write_completion(&mut stats, &completed(IoUringOperationKind::Write, 0, length, length)).unwrap();

    stats
}

#[test]
fn native_plan_copy_hands_out_data_and_zeroes_the_rest() {
    let plan = NativeExtentPlan::new(
        vec![
            Extent::new(0, 1024, ExtentKind::Data).unwrap(),
            Extent::new(1024, 1000, ExtentKind::Zero).unwrap(),
            Extent::new(2024, 1024, ExtentKind::Hole).unwrap(),
            Extent::new(3048, 1048, ExtentKind::Data).unwrap(),
        ],
        4096,
    )
    .unwrap();

    let mut destination = RawDisk::new(
        MemoryBlockDevice::with_capabilities(
            4096,
            Capabilities::read() | Capabilities::write() | Capabilities::flush(),
        )
        .unwrap(),
    );

    destination.write_all_at(0, &[9_u8; 4096]).unwrap();

    let mut copy = NativePlanCopy::new(&plan, 256, destination.capabilities());

    assert!(copy.writes_zero_blocks());

    let first = copy.advance(&mut destination).unwrap().unwrap();

    assert_eq!((first.offset(), first.length()), (0, 1024));

    copy.record_data(data_copy_of(1024)).unwrap();

    let second = copy.advance(&mut destination).unwrap().unwrap();

    assert_eq!((second.offset(), second.length()), (3048, 1048));

    copy.record_data(data_copy_of(1048)).unwrap();

    assert!(copy.advance(&mut destination).unwrap().is_none());

    let stats = copy.stats();

    assert_eq!(stats.bytes_read(), 2072);
    assert_eq!(stats.bytes_written(), 4096);
    assert_eq!(stats.bytes_zeroed(), 0);
    assert_eq!(stats.bytes_discarded(), 0);
    assert_eq!(stats.blocks_completed(), 2 + 4 + 4);
    assert_eq!(stats.extents_processed(), 4);

    let mut data = vec![0_u8; 4096];

    destination.read_exact_at(0, &mut data).unwrap();

    assert!(data[..1024].iter().all(|value| *value == 9));
    assert!(data[1024..3048].iter().all(|value| *value == 0));
    assert!(data[3048..].iter().all(|value| *value == 9));
}

#[test]
fn native_plan_copy_uses_discard_and_write_zero() {
    let plan = NativeExtentPlan::new(
        vec![
            Extent::new(0, 2048, ExtentKind::Zero).unwrap(),
            Extent::new(2048, 2048, ExtentKind::Hole).unwrap(),
        ],
        4096,
    )
    .unwrap();

    let mut destination = RawDisk::new(MemoryBlockDevice::new(4096).unwrap());

    let mut copy = NativePlanCopy::new(&plan, 0, destination.capabilities());

    assert!(!copy.writes_zero_blocks());

    assert!(copy.advance(&mut destination).unwrap().is_none());

    let stats = copy.stats();

    assert_eq!(stats.bytes_zeroed(), 2048);
    assert_eq!(stats.bytes_discarded(), 2048);
    assert_eq!(stats.bytes_written(), 0);
    assert_eq!(stats.extents_processed(), 2);
}

#[test]
fn native_plan_copy_without_destination_refuses_zeros() {
    let plan = NativeExtentPlan::new(
        vec![
            Extent::new(0, 10, ExtentKind::Data).unwrap(),
            Extent::new(10, 6, ExtentKind::Zero).unwrap(),
        ],
        16,
    )
    .unwrap();

    let mut copy = NativePlanCopy::new(&plan, 8, Capabilities::empty());

    let first = copy.advance_without_destination().unwrap().unwrap();

    assert_eq!(first.length(), 10);

    copy.record_data(data_copy_of(10)).unwrap();

    assert!(matches!(
        copy.advance_without_destination(),
        Err(Error::UnsupportedNativeExtent { kind: "zero", offset: 10, length: 6 })
    ));
}
