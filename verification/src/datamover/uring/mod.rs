pub mod capabilities;
pub mod ring;
pub mod compatibility;
pub mod copy;
pub mod engine;
pub mod extent_copy;
pub mod extent_plan;
pub mod operation;
pub mod plan_copy;

pub use self::capabilities::{probe_io_uring, IoUringCapabilities};
pub use self::compatibility::{evaluate_compatibility, IoUringCompatibility};
pub use self::copy::IoUringCopyStats;
pub use self::extent_plan::NativeExtentPlan;
