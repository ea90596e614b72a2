pub mod execution;
pub mod options;
pub mod extent_validation;
pub mod planner;
pub mod work;
pub mod concurrent;
pub mod plan;
pub mod semantics;
pub mod stats;
pub mod mover;
pub mod laws;
pub mod linux_backend;
pub mod native;
pub mod uring;
