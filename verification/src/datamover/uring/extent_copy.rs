use vstd::prelude::*;

use crate::block_device::{splice, zeros};
use crate::capabilities::Capabilities;
use crate::datamover::semantics::{chunks, lemma_chunks_bounds};
use crate::datamover::uring::copy::IoUringCopyStats;
use crate::error::{Error, Result};
use crate::extent::{Extent, ExtentKind};
use crate::virtual_disk::VirtualDisk;

verus! {

/// What a native copy of an extent plan did.
#[derive(Debug, Default, Clone, Copy, PartialEq, Eq, Structural)]
pub struct IoUringExtentCopyStats {
    bytes_read: u64,
    bytes_written: u64,
    bytes_zeroed: u64,
    bytes_discarded: u64,
    blocks_completed: u64,
    extents_processed: u64,
}

/// `a + b` fits a `u64`.
pub open spec fn fits(a: u64, b: u64) -> bool {
    a + b <= u64::MAX
}

impl IoUringExtentCopyStats {
    pub closed spec fn spec_bytes_read(&self) -> u64 {
        self.bytes_read
    }

    pub closed spec fn spec_bytes_written(&self) -> u64 {
        self.bytes_written
    }

    pub closed spec fn spec_bytes_zeroed(&self) -> u64 {
        self.bytes_zeroed
    }

    pub closed spec fn spec_bytes_discarded(&self) -> u64 {
        self.bytes_discarded
    }

    pub closed spec fn spec_blocks_completed(&self) -> u64 {
        self.blocks_completed
    }

    pub closed spec fn spec_extents_processed(&self) -> u64 {
        self.extents_processed
    }

    /// Nothing done yet.
    pub fn zero() -> (s: IoUringExtentCopyStats)
        ensures
            s.bytes_read() == 0,
            s.bytes_written() == 0,
            s.bytes_zeroed() == 0,
            s.bytes_discarded() == 0,
            s.blocks_completed() == 0,
            s.extents_processed() == 0,
    {
        IoUringExtentCopyStats {
            bytes_read: 0,
            bytes_written: 0,
            bytes_zeroed: 0,
            bytes_discarded: 0,
            blocks_completed: 0,
            extents_processed: 0,
        }
    }

    #[verifier::when_used_as_spec(spec_bytes_read)]
    pub fn bytes_read(&self) -> (b: u64)
        ensures
            b == self.spec_bytes_read(),
    {
        self.bytes_read
    }

    #[verifier::when_used_as_spec(spec_bytes_written)]
    pub fn bytes_written(&self) -> (b: u64)
        ensures
            b == self.spec_bytes_written(),
    {
        self.bytes_written
    }

    #[verifier::when_used_as_spec(spec_bytes_zeroed)]
    pub fn bytes_zeroed(&self) -> (b: u64)
        ensures
            b == self.spec_bytes_zeroed(),
    {
        self.bytes_zeroed
    }

    #[verifier::when_used_as_spec(spec_bytes_discarded)]
    pub fn bytes_discarded(&self) -> (b: u64)
        ensures
            b == self.spec_bytes_discarded(),
    {
        self.bytes_discarded
    }

    #[verifier::when_used_as_spec(spec_blocks_completed)]
    pub fn blocks_completed(&self) -> (b: u64)
        ensures
            b == self.spec_blocks_completed(),
    {
        self.blocks_completed
    }

    #[verifier::when_used_as_spec(spec_extents_processed)]
    pub fn extents_processed(&self) -> (b: u64)
        ensures
            b == self.spec_extents_processed(),
    {
        self.extents_processed
    }

    /// Adds a data extent copied with the counters `stats`; a counter that
    /// would pass `u64::MAX` is a range overflow.
    pub fn add_data_extent(&mut self, stats: IoUringCopyStats) -> (r: Result<()>)
        ensures
            fits(old(self).bytes_read(), stats.bytes_read()) && fits(
                old(self).bytes_written(),
                stats.bytes_written(),
            ) && fits(old(self).blocks_completed(), stats.blocks_completed()) && fits(
                old(self).extents_processed(),
                1,
            ) ==> (r is Ok && final(self).bytes_read() == old(self).bytes_read()
                + stats.bytes_read() && final(self).bytes_written() == old(self).bytes_written()
                + stats.bytes_written() && final(self).blocks_completed() == old(self).blocks_completed() + stats.blocks_completed() && final(self).extents_processed()
                == old(self).extents_processed() + 1 && final(self).bytes_zeroed() == old(self).bytes_zeroed()
                && final(self).bytes_discarded() == old(self).bytes_discarded()),
            !(fits(old(self).bytes_read(), stats.bytes_read()) && fits(
                old(self).bytes_written(),
                stats.bytes_written(),
            ) && fits(old(self).blocks_completed(), stats.blocks_completed()) && fits(
                old(self).extents_processed(),
                1,
            )) ==> (r matches Err(Error::RangeOverflow { .. })),
    {
        self.bytes_read = match self.bytes_read.checked_add(stats.bytes_read()) {
            Some(total) => total,
            None => {
                return Err(
                    Error::RangeOverflow { offset: self.bytes_read, length: stats.bytes_read() },
                );
            },
        };
        self.bytes_written = match self.bytes_written.checked_add(stats.bytes_written()) {
            Some(total) => total,
            None => {
                return Err(
                    Error::RangeOverflow {
                        offset: self.bytes_written,
                        length: stats.bytes_written(),
                    },
                );
            },
        };
        self.blocks_completed = match self.blocks_completed.checked_add(stats.blocks_completed()) {
            Some(total) => total,
            None => {
                return Err(
                    Error::RangeOverflow {
                        offset: self.blocks_completed,
                        length: stats.blocks_completed(),
                    },
                );
            },
        };
        self.extents_processed = match self.extents_processed.checked_add(1) {
            Some(total) => total,
            None => {
                return Err(Error::RangeOverflow { offset: self.extents_processed, length: 1 });
            },
        };
        Ok(())
    }

    /// Adds a zero extent of `length` bytes.
    pub fn add_zero_extent(&mut self, length: u64) -> (r: Result<()>)
        ensures
            fits(old(self).bytes_zeroed(), length) && fits(old(self).extents_processed(), 1) ==> (
            r is Ok && final(self).bytes_zeroed() == old(self).bytes_zeroed() + length && final(self).extents_processed() == old(self).extents_processed() + 1 && final(self).bytes_read()
                == old(self).bytes_read() && final(self).bytes_written() == old(self).bytes_written() && final(self).blocks_completed() == old(self).blocks_completed()
                && final(self).bytes_discarded() == old(self).bytes_discarded()),
            !(fits(old(self).bytes_zeroed(), length) && fits(old(self).extents_processed(), 1))
                ==> (r matches Err(Error::RangeOverflow { .. })),
    {
        self.bytes_zeroed = match self.bytes_zeroed.checked_add(length) {
            Some(total) => total,
            None => {
                return Err(Error::RangeOverflow { offset: self.bytes_zeroed, length });
            },
        };
        self.extents_processed = match self.extents_processed.checked_add(1) {
            Some(total) => total,
            None => {
                return Err(Error::RangeOverflow { offset: self.extents_processed, length: 1 });
            },
        };
        Ok(())
    }

    /// Adds one block of `length` zeros written with an ordinary write.
    pub fn add_fallback_write(&mut self, length: u64) -> (r: Result<()>)
        ensures
            fits(old(self).bytes_written(), length) && fits(old(self).blocks_completed(), 1) ==> (
            r is Ok && final(self).bytes_written() == old(self).bytes_written() + length && final(self).blocks_completed() == old(self).blocks_completed() + 1 && final(self).bytes_read()
                == old(self).bytes_read() && final(self).bytes_zeroed() == old(self).bytes_zeroed()
                && final(self).extents_processed() == old(self).extents_processed()
                && final(self).bytes_discarded() == old(self).bytes_discarded()),
            !(fits(old(self).bytes_written(), length) && fits(old(self).blocks_completed(), 1))
                ==> (r matches Err(Error::RangeOverflow { .. })),
    {
        self.bytes_written = match self.bytes_written.checked_add(length) {
            Some(total) => total,
            None => {
                return Err(Error::RangeOverflow { offset: self.bytes_written, length });
            },
        };
        self.blocks_completed = match self.blocks_completed.checked_add(1) {
            Some(total) => total,
            None => {
                return Err(Error::RangeOverflow { offset: self.blocks_completed, length: 1 });
            },
        };
        Ok(())
    }

    /// Adds a discarded extent of `length` bytes.
    pub fn add_discarded_extent(&mut self, length: u64) -> (r: Result<()>)
        ensures
            fits(old(self).bytes_discarded(), length) && fits(old(self).extents_processed(), 1)
                ==> (r is Ok && final(self).bytes_discarded() == old(self).bytes_discarded() + length
                && final(self).extents_processed() == old(self).extents_processed() + 1
                && final(self).bytes_read() == old(self).bytes_read() && final(self).bytes_written()
                == old(self).bytes_written() && final(self).blocks_completed() == old(self).blocks_completed()
                && final(self).bytes_zeroed() == old(self).bytes_zeroed()),
            !(fits(old(self).bytes_discarded(), length) && fits(old(self).extents_processed(), 1))
                ==> (r matches Err(Error::RangeOverflow { .. })),
    {
        self.bytes_discarded = match self.bytes_discarded.checked_add(length) {
            Some(total) => total,
            None => {
                return Err(Error::RangeOverflow { offset: self.bytes_discarded, length });
            },
        };
        self.extents_processed = match self.extents_processed.checked_add(1) {
            Some(total) => total,
            None => {
                return Err(Error::RangeOverflow { offset: self.extents_processed, length: 1 });
            },
        };
        Ok(())
    }

    /// Counts one more extent whose bytes were already counted as written.
    pub fn count_extent(&mut self) -> (r: Result<()>)
        ensures
            fits(old(self).extents_processed(), 1) ==> (r is Ok && final(self).extents_processed()
                == old(self).extents_processed() + 1 && final(self).bytes_read() == old(self).bytes_read()
                && final(self).bytes_written() == old(self).bytes_written()
                && final(self).blocks_completed() == old(self).blocks_completed()
                && final(self).bytes_zeroed() == old(self).bytes_zeroed()
                && final(self).bytes_discarded() == old(self).bytes_discarded()),
            !fits(old(self).extents_processed(), 1) ==> (r matches Err(
                Error::RangeOverflow { .. },
            )),
    {
        self.extents_processed = match self.extents_processed.checked_add(1) {
            Some(total) => total,
            None => {
                return Err(Error::RangeOverflow { offset: self.extents_processed, length: 1 });
            },
        };
        Ok(())
    }
}

/// What a native copy does with an extent of a plan.
#[derive(Debug, Clone, Copy, PartialEq, Eq, Structural)]
pub enum NativeExtentAction {
    /// Copy the bytes through io_uring.
    CopyData,
    /// Make a zero extent zero on the destination disk.
    ZeroOnDestination,
    /// Make a hole read as zero on the destination disk.
    ClearHoleOnDestination,
}

/// The kind of an extent as native copies name it in errors.
pub open spec fn kind_name(kind: ExtentKind) -> &'static str {
    match kind {
        ExtentKind::Data => "data",
        ExtentKind::Zero => "zero",
        ExtentKind::Hole => "hole",
    }
}

/// What a native copy does with `extent`: data is copied; zeros and holes
/// are made zero through the destination disk when there is one, and are
/// refused without one.
pub fn native_extent_action(extent: &Extent, with_destination: bool) -> (r: Result<
    NativeExtentAction,
>)
    ensures
        extent.spec_kind() == ExtentKind::Data ==> r == Ok::<NativeExtentAction, Error>(
            NativeExtentAction::CopyData,
        ),
        extent.spec_kind() == ExtentKind::Zero && with_destination ==> r == Ok::<
            NativeExtentAction,
            Error,
        >(NativeExtentAction::ZeroOnDestination),
        extent.spec_kind() == ExtentKind::Hole && with_destination ==> r == Ok::<
            NativeExtentAction,
            Error,
        >(NativeExtentAction::ClearHoleOnDestination),
        extent.spec_kind() != ExtentKind::Data && !with_destination ==> (r matches Err(
            Error::UnsupportedNativeExtent { kind: k, offset: o, length: l },
        ) && k@ == kind_name(extent.spec_kind())@ && o == extent.spec_offset() && l
            == extent.spec_length()),
{
    match extent.kind() {
        ExtentKind::Data => Ok(NativeExtentAction::CopyData),
        ExtentKind::Zero => {
            if with_destination {
                Ok(NativeExtentAction::ZeroOnDestination)
            } else {
                Err(
                    Error::UnsupportedNativeExtent {
                        kind: "zero",
                        offset: extent.offset(),
                        length: extent.length(),
                    },
                )
            }
        },
        ExtentKind::Hole => {
            if with_destination {
                Ok(NativeExtentAction::ClearHoleOnDestination)
            } else {
                Err(
                    Error::UnsupportedNativeExtent {
                        kind: "hole",
                        offset: extent.offset(),
                        length: extent.length(),
                    },
                )
            }
        },
    }
}

/// `after` is `before` with one more extent of `length` bytes zeroed by the
/// destination.
pub open spec fn zeroed_count(
    before: IoUringExtentCopyStats,
    after: IoUringExtentCopyStats,
    length: u64,
) -> bool {
    &&& after.bytes_zeroed() == before.bytes_zeroed() + length
    &&& after.extents_processed() == before.extents_processed() + 1
    &&& after.bytes_read() == before.bytes_read()
    &&& after.bytes_written() == before.bytes_written()
    &&& after.blocks_completed() == before.blocks_completed()
    &&& after.bytes_discarded() == before.bytes_discarded()
}

/// `after` is `before` with one more extent of `length` bytes discarded.
pub open spec fn discarded_count(
    before: IoUringExtentCopyStats,
    after: IoUringExtentCopyStats,
    length: u64,
) -> bool {
    &&& after.bytes_discarded() == before.bytes_discarded() + length
    &&& after.extents_processed() == before.extents_processed() + 1
    &&& after.bytes_read() == before.bytes_read()
    &&& after.bytes_written() == before.bytes_written()
    &&& after.blocks_completed() == before.blocks_completed()
    &&& after.bytes_zeroed() == before.bytes_zeroed()
}

/// `after` is `before` with one more extent of `length` bytes written as
/// zeros in blocks of at most `block_size` bytes.
pub open spec fn fallback_count(
    before: IoUringExtentCopyStats,
    after: IoUringExtentCopyStats,
    length: u64,
    block_size: usize,
) -> bool {
    &&& after.bytes_written() == before.bytes_written() + length
    &&& after.blocks_completed() == before.blocks_completed() + chunks(
        length as int,
        block_size as int,
    )
    &&& after.extents_processed() == before.extents_processed() + 1
    &&& after.bytes_read() == before.bytes_read()
    &&& after.bytes_zeroed() == before.bytes_zeroed()
    &&& after.bytes_discarded() == before.bytes_discarded()
}

/// Makes a zero extent zero on the destination: with `write_zero` where the
/// destination has it, by writing blocks of zeros otherwise.  (Without
/// `write_zero`, a zero block size would never finish.)
pub fn process_zero_extent<D>(
    destination: &mut D,
    extent: Extent,
    block_size: usize,
    stats: &mut IoUringExtentCopyStats,
) -> (r: Result<()>) where D: VirtualDisk
    requires
        block_size > 0 || old(destination).spec_capabilities().write_zero,
    ensures
        final(destination).spec_geometry() == old(destination).spec_geometry(),
        final(destination).spec_capabilities() == old(destination).spec_capabilities(),
        r is Ok ==> final(destination).spec_contents() == splice(
            old(destination).spec_contents(),
            extent.spec_offset() as int,
            zeros(extent.spec_length() as nat),
        ),
        r is Ok && old(destination).spec_capabilities().write_zero ==> zeroed_count(
            *old(stats),
            *final(stats),
            extent.spec_length(),
        ),
        r is Ok && !old(destination).spec_capabilities().write_zero ==> fallback_count(
            *old(stats),
            *final(stats),
            extent.spec_length(),
            block_size,
        ),
{
    if destination.capabilities().contains(Capabilities::write_zero()) {
        destination.write_zero_at(extent.offset(), extent.length())?;
        stats.add_zero_extent(extent.length())?;
        return Ok(());
    }
    write_zero_fallback(destination, extent, block_size, stats)
}

/// Makes a hole read as zero on the destination: with `discard` where the
/// destination has it, else with `write_zero`, else by writing blocks of
/// zeros.  (With neither, a zero block size would never finish.)
pub fn process_hole_extent<D>(
    destination: &mut D,
    extent: Extent,
    block_size: usize,
    stats: &mut IoUringExtentCopyStats,
) -> (r: Result<()>) where D: VirtualDisk
    requires
        block_size > 0 || old(destination).spec_capabilities().discard || old(
            destination,
        ).spec_capabilities().write_zero,
    ensures
        final(destination).spec_geometry() == old(destination).spec_geometry(),
        final(destination).spec_capabilities() == old(destination).spec_capabilities(),
        r is Ok ==> final(destination).spec_contents() == splice(
            old(destination).spec_contents(),
            extent.spec_offset() as int,
            zeros(extent.spec_length() as nat),
        ),
        r is Ok && old(destination).spec_capabilities().discard ==> discarded_count(
            *old(stats),
            *final(stats),
            extent.spec_length(),
        ),
        r is Ok && !old(destination).spec_capabilities().discard && old(
            destination,
        ).spec_capabilities().write_zero ==> zeroed_count(
            *old(stats),
            *final(stats),
            extent.spec_length(),
        ),
        r is Ok && !old(destination).spec_capabilities().discard && !old(
            destination,
        ).spec_capabilities().write_zero ==> fallback_count(
            *old(stats),
            *final(stats),
            extent.spec_length(),
            block_size,
        ),
{
    let capabilities = destination.capabilities();
    if capabilities.contains(Capabilities::discard()) {
        destination.discard(extent.offset(), extent.length())?;
        stats.add_discarded_extent(extent.length())?;
        return Ok(());
    }
    if capabilities.contains(Capabilities::write_zero()) {
        destination.write_zero_at(extent.offset(), extent.length())?;
        stats.add_zero_extent(extent.length())?;
        return Ok(());
    }
    write_zero_fallback(destination, extent, block_size, stats)
}

/// Writes zeros over an extent, a block at a time, from one zero-filled
/// buffer, then counts the extent.
fn write_zero_fallback<D>(
    destination: &mut D,
    extent: Extent,
    block_size: usize,
    stats: &mut IoUringExtentCopyStats,
) -> (r: Result<()>) where D: VirtualDisk
    requires
        block_size > 0,
    ensures
        final(destination).spec_geometry() == old(destination).spec_geometry(),
        final(destination).spec_capabilities() == old(destination).spec_capabilities(),
        r is Ok ==> final(destination).spec_contents() == splice(
            old(destination).spec_contents(),
            extent.spec_offset() as int,
            zeros(extent.spec_length() as nat),
        ),
        r is Ok ==> fallback_count(*old(stats), *final(stats), extent.spec_length(), block_size),
{
    let mut buffer: Vec<u8> = Vec::with_capacity(block_size);
    let mut i: usize = 0;
    while i < block_size
        invariant
            i <= block_size,
            buffer@ == zeros(i as nat),
        decreases block_size - i,
    {
        buffer.push(0);
        i = i + 1;
        proof {
            assert(buffer@ =~= zeros(i as nat));
        }
    }
    let mut offset = extent.offset();
    let end = extent.end();
    let ghost start = offset as int;
    let ghost d0 = destination.spec_contents();
    let ghost s0 = *stats;
    let ghost caps = destination.spec_capabilities();
    let ghost geometry = destination.spec_geometry();
    proof {
        lemma_chunks_bounds(extent.spec_length() as int, block_size as int);
    }
    while offset < end
        invariant
            start <= offset <= end,
            start == extent.spec_offset(),
            end == extent.spec_end(),
            buffer@ == zeros(block_size as nat),
            block_size > 0,
            destination.spec_geometry() == geometry,
            destination.spec_capabilities() == caps,
            d0 == old(destination).spec_contents(),
            caps == old(destination).spec_capabilities(),
            geometry == old(destination).spec_geometry(),
            s0 == *old(stats),
            offset == start ==> destination.spec_contents() == d0,
            offset > start ==> offset <= d0.len() && destination.spec_contents() == splice(
                d0,
                start,
                zeros((offset - start) as nat),
            ),
            stats.bytes_read() == s0.bytes_read(),
            stats.bytes_zeroed() == s0.bytes_zeroed(),
            stats.bytes_discarded() == s0.bytes_discarded(),
            stats.extents_processed() == s0.extents_processed(),
            stats.bytes_written() == s0.bytes_written() + (offset - start),
            stats.blocks_completed() + chunks(end - offset, block_size as int) == s0.blocks_completed()
                + chunks(end - start, block_size as int),
        decreases end - offset,
    {
        let remaining = end - offset;
        let request_u64 = if remaining < block_size as u64 {
            remaining
        } else {
            block_size as u64
        };
        let request = request_u64 as usize;
        let chunk = vstd::slice::slice_subrange(buffer.as_slice(), 0, request);
        destination.write_all_at(offset, chunk)?;
        proof {
            assert(chunk@ =~= zeros(request as nat));
            if offset > start {
                crate::datamover::semantics::lemma_splice_adjacent_ranges(
                    d0,
                    start,
                    zeros((offset - start) as nat),
                    chunk@,
                );
                assert(zeros((offset - start) as nat) + chunk@ =~= zeros(
                    (offset + request - start) as nat,
                ));
            }
            lemma_chunks_bounds(end - offset - request, block_size as int);
            if request < end - offset {
                assert(chunks(end - offset, block_size as int) == 1 + chunks(
                    end - offset - request,
                    block_size as int,
                ));
            } else {
                assert(chunks(end - offset, block_size as int) == 1);
            }
        }
        offset = match offset.checked_add(request_u64) {
            Some(next) => next,
            None => {
                return Err(Error::RangeOverflow { offset, length: request_u64 });
            },
        };
        stats.add_fallback_write(request_u64)?;
    }
    proof {
        assert(chunks(0, block_size as int) == 0);
    }
    stats.count_extent()
}

} // verus!
