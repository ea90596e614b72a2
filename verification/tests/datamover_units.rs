use rvvdk::datamover::execution::{ExecutionBackend, ExecutionStrategy, IoUringExecutionOptions};
use rvvdk::datamover::plan::{extent_fingerprint, CopyPlan, CopyPlanSummary};
use rvvdk::datamover::planner::plan_extent;
use rvvdk::datamover::uring::copy::{advance_offset, request_length};
use rvvdk::datamover::work::WorkKind;
use rvvdk::error::Error;
use rvvdk::extent::{Extent, ExtentKind};

const MIB: u64 = 1024 * 1024;

fn mixed_extents() -> Vec<Extent> {
    vec![
        Extent::new(0, 2 * MIB, ExtentKind::Data).unwrap(),
        Extent::new(2 * MIB, MIB, ExtentKind::Zero).unwrap(),
        Extent::new(3 * MIB, MIB, ExtentKind::Hole).unwrap(),
    ]
}

#[test]
fn threaded_is_default() {
    assert_eq!(ExecutionStrategy::default(), ExecutionStrategy::Threaded,);
}

#[test]
fn derives_read_window() {
    let options = IoUringExecutionOptions::new(8).unwrap();

    assert_eq!(options.queue_depth(), 8,);

    assert_eq!(options.read_window(), 4,);
}

#[test]
fn derives_odd_read_window() {
    let options = IoUringExecutionOptions::new(7).unwrap();

    assert_eq!(options.read_window(), 4,);
}

#[test]
fn execution_rejects_zero_queue_depth() {
    assert!(IoUringExecutionOptions::new(0).is_none());
}

#[test]
fn execution_supports_custom_read_window() {
    let options = IoUringExecutionOptions::with_read_window(8, 3).unwrap();

    assert_eq!(options.queue_depth(), 8,);

    assert_eq!(options.read_window(), 3,);
}

#[test]
fn rejects_read_window_above_queue_depth() {
    assert!(IoUringExecutionOptions::with_read_window(8, 9,).is_none());
}

#[test]
fn summarizes_extents() {
    let extents = mixed_extents();

    let summary = CopyPlanSummary::from_extents(4 * MIB, &extents).unwrap();

    assert_eq!(summary.logical_bytes(), 4 * MIB,);

    assert_eq!(summary.data_bytes(), 2 * MIB,);

    assert_eq!(summary.zero_bytes(), MIB,);

    assert_eq!(summary.hole_bytes(), MIB,);
}

#[test]
fn stores_copy_plan_metadata() {
    let extents = mixed_extents();

    let plan =
        CopyPlan::new(4 * MIB, extents.clone(), ExecutionBackend::IoUring, 64 * 1024, 4096).unwrap();

    assert_eq!(plan.logical_bytes(), 4 * MIB,);

    assert_eq!(plan.data_bytes(), 2 * MIB,);

    assert_eq!(plan.zero_bytes(), MIB,);

    assert_eq!(plan.hole_bytes(), MIB,);

    assert_eq!(plan.extent_count(), 3,);

    assert_eq!(plan.extents(), extents.as_slice(),);

    assert_eq!(plan.backend(), ExecutionBackend::IoUring,);

    assert_eq!(plan.block_size(), 64 * 1024,);

    assert_eq!(plan.alignment(), 4096,);

    assert_eq!(plan.summary().logical_bytes(), 4 * MIB,);
}

#[test]
fn supports_empty_plan() {
    let plan = CopyPlan::new(0, Vec::new(), ExecutionBackend::Threaded, 64 * 1024, 1).unwrap();

    assert_eq!(plan.logical_bytes(), 0,);

    assert_eq!(plan.data_bytes(), 0,);

    assert_eq!(plan.zero_bytes(), 0,);

    assert_eq!(plan.hole_bytes(), 0,);

    assert_eq!(plan.extent_count(), 0,);

    assert!(plan.extents().is_empty());

    assert_eq!(plan.backend(), ExecutionBackend::Threaded,);

    assert_eq!(plan.block_size(), 64 * 1024,);

    assert_eq!(plan.alignment(), 1,);
}

#[test]
fn rejects_extent_bytes_that_do_not_match_logical_size() {
    let extents = vec![Extent::new(0, 2 * MIB, ExtentKind::Data).unwrap()];

    let result = CopyPlan::new(4 * MIB, extents, ExecutionBackend::Threaded, 64 * 1024, 1);

    assert!(matches!(result, Err(Error::CorruptMetadata(_))));
}

#[test]
fn rejects_accounting_larger_than_logical_size() {
    let extents = vec![
        Extent::new(0, 2 * MIB, ExtentKind::Data).unwrap(),
        Extent::new(2 * MIB, 2 * MIB, ExtentKind::Zero).unwrap(),
    ];

    let result = CopyPlan::new(3 * MIB, extents, ExecutionBackend::Threaded, 64 * 1024, 1);

    assert!(matches!(result, Err(Error::CorruptMetadata(_))));
}

#[test]
fn identical_extent_maps_have_identical_fingerprints() {
    let first = mixed_extents();

    let second = mixed_extents();

    assert_eq!(extent_fingerprint(&first,), extent_fingerprint(&second,),);
}

#[test]
fn extent_kind_changes_fingerprint() {
    let first = vec![Extent::new(0, 4 * MIB, ExtentKind::Data).unwrap()];

    let second = vec![Extent::new(0, 4 * MIB, ExtentKind::Hole).unwrap()];

    assert_ne!(extent_fingerprint(&first,), extent_fingerprint(&second,),);
}

#[test]
fn extent_boundary_changes_fingerprint() {
    let first = vec![Extent::new(0, 4 * MIB, ExtentKind::Data).unwrap()];

    let second = vec![
        Extent::new(0, 2 * MIB, ExtentKind::Data).unwrap(),
        Extent::new(2 * MIB, 2 * MIB, ExtentKind::Data).unwrap(),
    ];

    assert_ne!(extent_fingerprint(&first,), extent_fingerprint(&second,),);
}

#[test]
fn splits_extent_into_blocks() {
    let extent = Extent::new(1000, 2500, ExtentKind::Data).unwrap();

    let items = plan_extent(extent, 1024).unwrap();

    assert_eq!(items.len(), 3,);

    assert_eq!(items[0].offset(), 1000,);

    assert_eq!(items[0].length(), 1024,);

    assert_eq!(items[1].offset(), 2024,);

    assert_eq!(items[1].length(), 1024,);

    assert_eq!(items[2].offset(), 3048,);

    assert_eq!(items[2].length(), 452,);
}

#[test]
fn maps_data_to_copy() {
    let extent = Extent::new(0, 4096, ExtentKind::Data).unwrap();

    let items = plan_extent(extent, 4096).unwrap();

    assert_eq!(items[0].kind(), WorkKind::Copy,);
}

#[test]
fn maps_zero_to_zero() {
    let extent = Extent::new(0, 4096, ExtentKind::Zero).unwrap();

    let items = plan_extent(extent, 4096).unwrap();

    assert_eq!(items[0].kind(), WorkKind::Zero,);
}

#[test]
fn maps_hole_to_discard() {
    let extent = Extent::new(0, 4096, ExtentKind::Hole).unwrap();

    let items = plan_extent(extent, 4096).unwrap();

    assert_eq!(items[0].kind(), WorkKind::Discard,);
}

#[test]
fn request_length_returns_full_block() {
    let length = request_length(0, 1024 * 1024, 64 * 1024).unwrap();

    assert_eq!(length, 64 * 1024,);
}

#[test]
fn request_length_returns_partial_tail() {
    let length = request_length(1024, 1024 + 123, 4096).unwrap();

    assert_eq!(length, 123,);
}

#[test]
fn request_length_returns_zero_at_end() {
    let length = request_length(4096, 4096, 4096).unwrap();

    assert_eq!(length, 0,);
}

#[test]
fn advances_offset() {
    let offset = advance_offset(4096, 8192).unwrap();

    assert_eq!(offset, 12288,);
}
