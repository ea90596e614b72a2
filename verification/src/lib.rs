use vstd::prelude::*;

pub mod block_device;
pub mod buffer;
pub mod buffer_pool;
pub mod capabilities;
pub mod datamover;
pub mod error;
pub mod extent;
pub mod geometry;
pub mod memory;
pub mod power_of_two;
pub mod range;
pub mod raw;
pub mod virtual_disk;

verus! {

} // verus!
