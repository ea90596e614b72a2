use rvvdk::datamover::uring::capabilities::probe_io_uring;
use rvvdk::datamover::uring::engine::IoUringEngine;
use rvvdk::datamover::uring::extent_plan::NativeExtentPlan;
use rvvdk::error::Error;
use rvvdk::extent::{Extent, ExtentKind};

#[test]
fn capabilities_rejects_zero_queue_depth() {
    let result = probe_io_uring(0);

    assert!(matches!(result, Err(Error::InvalidIoUringQueueDepth)));
}

#[test]
fn creates_io_uring() {
    let capabilities = probe_io_uring(8).unwrap();

    assert_eq!(capabilities.queue_depth(), 8,);
}

#[test]
fn supports_multiple_queue_depths() {
    for queue_depth in [1, 2, 4, 8, 16, 32, 64] {
        let capabilities = probe_io_uring(queue_depth).unwrap();

        assert_eq!(capabilities.queue_depth(), queue_depth,);
    }
}

#[test]
fn accepts_dense_extent_map() {
    let extents = vec![Extent::new(0, 1024 * 1024, ExtentKind::Data).unwrap()];

    let plan = NativeExtentPlan::new(extents, 1024 * 1024).unwrap();

    assert_eq!(plan.len(), 1,);

    assert!(plan.is_data_only());

    assert_eq!(plan.disk_size(), 1024 * 1024,);

    assert_eq!(plan.extents()[0].kind(), ExtentKind::Data,);
}

#[test]
fn accepts_sparse_extent_map() {
    let extents = vec![
        Extent::new(0, 1024, ExtentKind::Data).unwrap(),
        Extent::new(1024, 2048, ExtentKind::Zero).unwrap(),
        Extent::new(3072, 4096, ExtentKind::Hole).unwrap(),
    ];

    let plan = NativeExtentPlan::new(extents, 7168).unwrap();

    assert_eq!(plan.len(), 3,);

    assert!(!plan.is_data_only());

    assert_eq!(plan.extents()[0].kind(), ExtentKind::Data,);

    assert_eq!(plan.extents()[1].kind(), ExtentKind::Zero,);

    assert_eq!(plan.extents()[2].kind(), ExtentKind::Hole,);
}

#[test]
fn accepts_empty_zero_sized_disk() {
    let plan = NativeExtentPlan::new(Vec::new(), 0).unwrap();

    assert!(plan.is_empty());

    assert_eq!(plan.disk_size(), 0,);
}

#[test]
fn rejects_gap_in_extent_map() {
    let extents = vec![
        Extent::new(0, 1024, ExtentKind::Data).unwrap(),
        Extent::new(2048, 1024, ExtentKind::Data).unwrap(),
    ];

    assert!(NativeExtentPlan::new(extents, 3072,).is_err());
}

#[test]
fn rejects_incomplete_extent_map() {
    let extents = vec![Extent::new(0, 1024, ExtentKind::Data).unwrap()];

    assert!(NativeExtentPlan::new(extents, 2048,).is_err());
}

#[test]
fn creates_engine() {
    let engine = IoUringEngine::new(8).unwrap();

    assert_eq!(engine.queue_depth(), 8,);

    assert_eq!(engine.in_flight(), 0,);
}

#[test]
fn engine_rejects_zero_queue_depth() {
    let result = IoUringEngine::new(0);

    assert!(matches!(result, Err(Error::InvalidIoUringQueueDepth)));
}

#[test]
fn owned_completion_without_submission_fails() {
    let mut engine = IoUringEngine::new(8).unwrap();

    let result = engine.wait_owned_completion();

    assert!(matches!(result, Err(Error::IoUringNoInFlight)));
}
