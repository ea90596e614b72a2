use vstd::prelude::*;

verus! {

#[verifier::external_type_specification]
#[verifier::external_body]
pub struct ExIoError(std::io::Error);

/// Every failure the library reports.
#[derive(Debug)]
pub enum Error {
    Io(std::io::Error),
    RangeOverflow { offset: u64, length: u64 },
    OutOfBounds { offset: u64, length: u64, size: u64 },
    InvalidAlignment { value: u64, alignment: u64 },
    Unsupported,
    UnexpectedEof { offset: u64, remaining: usize },
    WriteZero { offset: u64, remaining: usize },
    InvalidBufferAlignment { alignment: usize },
    BufferAllocation { size: usize, alignment: usize },
    InvalidBufferPoolCapacity,
    InvalidWorkQueueCapacity,
    WorkQueueClosed,
    DirectIoAlignment { offset: u64, length: usize, alignment: usize },
    InvalidIoUringQueueDepth,
    IoUringQueueFull { queue_depth: u32 },
    IoUringNoInFlight,
    IoUringCompletionMissing,
    IoUringUnexpectedCompletion { expected: u64, actual: u64 },
    BufferTooSmall { requested: usize, available: usize },
    IoUringUnknownCompletion { user_data: u64 },
    IoUringOperationModeConflict,
    IoUringEngineShutDown,
    ShortWrite { offset: u64, expected: usize, actual: usize },
    NativeExecutionNotSelected,
    NativeExecutionUnsupported,
    UnsupportedNativeExtent { kind: &'static str, offset: u64, length: u64 },
    CorruptMetadata(String),
}

/// The library's result type.
pub type Result<T> = std::result::Result<T, Error>;

/// The text `head`, `first`, `middle`, `second`, with the numbers in
/// decimal (`format!`).  Nothing is stated of the text.
#[verifier::external_body]
pub(crate) fn numbers_message(head: &str, first: u64, middle: &str, second: u64) -> String {
    format!("{head}{first}{middle}{second}")
}

/// The text `head`, `first`, `middle`, `second`, with the numbers in
/// zero-padded hexadecimal (`format!`).  Nothing is stated of the text.
#[verifier::external_body]
pub(crate) fn hex_numbers_message(head: &str, first: u64, middle: &str, second: u64) -> String {
    format!("{head}{first:#018x}{middle}{second:#018x}")
}

} // verus!
