use std::cell::RefCell;

use rvvdk::buffer::AlignedBuffer;
use rvvdk::buffer_pool::{BufferGuard, BufferPool};
use rvvdk::error::Error;
use rvvdk::extent::{Extent, ExtentKind};

#[test]
fn creates_aligned_buffer() {
    let buffer = AlignedBuffer::new(1024 * 1024, 4096).unwrap();

    assert_eq!(buffer.len(), 1024 * 1024,);

    assert_eq!(buffer.alignment(), 4096,);

    assert_eq!(buffer.address() % 4096, 0,);
}

#[test]
fn buffer_is_zero_initialized() {
    let buffer = AlignedBuffer::new(4096, 4096).unwrap();

    assert!(buffer.as_slice().iter().all(|value| *value == 0));
}

#[test]
fn buffer_can_be_modified() {
    let mut buffer = AlignedBuffer::new(4096, 4096).unwrap();

    buffer.as_mut_slice()[0..5].copy_from_slice(b"rvvdk");

    assert_eq!(&buffer.as_slice()[0..5], b"rvvdk",);
}

#[test]
fn fill_changes_complete_buffer() {
    let mut buffer = AlignedBuffer::new(4096, 4096).unwrap();

    buffer.fill(0xaa);

    assert!(buffer.as_slice().iter().all(|value| *value == 0xaa));
}

#[test]
fn rejects_zero_alignment() {
    let result = AlignedBuffer::new(4096, 0);

    assert!(matches!(result, Err(Error::InvalidBufferAlignment { .. })));
}

#[test]
fn rejects_non_power_of_two_alignment() {
    let result = AlignedBuffer::new(4096, 1000);

    assert!(matches!(result, Err(Error::InvalidBufferAlignment { .. })));
}

#[test]
fn creates_pool() {
    let pool = BufferPool::new(4, 1024 * 1024, 4096).unwrap();

    assert_eq!(pool.capacity(), 4,);

    assert_eq!(pool.buffer_size(), 1024 * 1024,);

    assert_eq!(pool.alignment(), 4096,);

    assert_eq!(pool.available(), 4,);
}

#[test]
fn rejects_zero_capacity() {
    let result = BufferPool::new(0, 4096, 4096);

    assert!(matches!(result, Err(Error::InvalidBufferPoolCapacity)));
}

#[test]
fn acquire_removes_buffer() {
    let mut pool = BufferPool::new(2, 4096, 4096).unwrap();

    let _guard = pool.acquire();

    assert_eq!(pool.available(), 1,);
}

/// A buffer lent out by a pool that its holder shares; dropping it gives
/// it back, as a caller that drops its buffers does with `release`.
struct Lease<'a> {
    pool: &'a RefCell<BufferPool>,
    guard: Option<BufferGuard>,
}

impl Lease<'_> {
    fn guard(&self) -> &BufferGuard {
        self.guard.as_ref().unwrap()
    }
}

impl Drop for Lease<'_> {
    fn drop(&mut self) {
        if let Some(guard) = self.guard.take() {
            self.pool.borrow_mut().release(guard);
        }
    }
}

fn lease(pool: &RefCell<BufferPool>) -> Lease<'_> {
    let guard = pool.borrow_mut().acquire();

    Lease { pool, guard: Some(guard) }
}

#[test]
fn drop_returns_buffer() {
    let pool = RefCell::new(BufferPool::new(2, 4096, 4096).unwrap());

    {
        let _guard = lease(&pool);

        assert_eq!(pool.borrow().available(), 1,);
    }

    assert_eq!(pool.borrow().available(), 2,);
}

#[test]
fn acquired_buffer_is_aligned() {
    let mut pool = BufferPool::new(1, 4096, 4096).unwrap();

    let guard = pool.acquire();

    assert_eq!(guard.buffer().address() % 4096, 0,);
}

#[test]
fn buffer_is_reused_after_release() {
    let pool = RefCell::new(BufferPool::new(1, 4096, 4096).unwrap());

    let first_address = {
        let guard = lease(&pool);

        guard.guard().buffer().address()
    };

    let second_address = {
        let guard = lease(&pool);

        guard.guard().buffer().address()
    };

    assert_eq!(first_address, second_address,);
}

#[test]
fn fill_keeps_length_alignment_and_address() {
    let mut buffer = AlignedBuffer::new(4096, 4096).unwrap();

    let address = buffer.address();

    buffer.fill(0xaa);

    assert_eq!(buffer.len(), 4096);
    assert_eq!(buffer.alignment(), 4096);
    assert_eq!(buffer.address(), address);
    assert_ne!(address, 0);
}

#[test]
fn released_buffer_is_lent_out_next() {
    let mut pool = BufferPool::new(2, 512, 64).unwrap();

    let first = pool.acquire();
    let second = pool.acquire();

    let address = first.buffer().address();

    assert_ne!(address, second.buffer().address());

    pool.release(second);
    pool.release(first);

    let again = pool.acquire();

    assert_eq!(again.buffer().address(), address);
    assert_eq!(again.buffer().address() % 64, 0);
}

#[test]
fn creates_data_extent() {
    let extent = Extent::new(4096, 8192, ExtentKind::Data).unwrap();

    assert_eq!(extent.offset(), 4096);
    assert_eq!(extent.length(), 8192);
    assert_eq!(extent.end(), 12288);
    assert_eq!(extent.kind(), ExtentKind::Data);
}

#[test]
fn rejects_empty_extent() {
    let result = Extent::new(0, 0, ExtentKind::Data);

    assert!(matches!(result, Err(Error::CorruptMetadata(_))));
}

fn assert_send_sync<T>()
where
    T: Send + Sync,
{
}

#[test]
fn buffer_pool_is_send_and_sync() {
    assert_send_sync::<BufferPool>();
}

#[test]
fn partial_write_through_a_guard_keeps_the_rest() {
    let mut pool = BufferPool::new(1, 64, 64).unwrap();

    let mut guard = pool.acquire();

    guard.as_mut_slice()[10..15].copy_from_slice(b"rvvdk");

    assert_eq!(guard.as_slice().len(), 64);
    assert_eq!(&guard.as_slice()[10..15], b"rvvdk");
    assert!(guard.as_slice()[..10].iter().all(|value| *value == 0));
    assert!(guard.as_slice()[15..].iter().all(|value| *value == 0));

    pool.release(guard);
}
