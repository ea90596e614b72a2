use vstd::prelude::*;

use crate::capabilities::Capabilities;
use crate::datamover::semantics::{
    add_counts, apply_extents, counts_of, counts_of_extents, no_counts, zeroes_directly, Counts,
};
use crate::datamover::extent_validation::tiles;
use crate::datamover::laws::lemma_copy_accounts_every_byte;
use crate::datamover::plan::bytes_of_kind;
use crate::datamover::uring::copy::IoUringCopyStats;
use crate::datamover::uring::extent_copy::{
    fits, kind_name, native_extent_action, process_hole_extent, process_zero_extent, IoUringExtentCopyStats,
};
use crate::datamover::uring::extent_plan::NativeExtentPlan;
use crate::error::{Error, Result};
use crate::extent::{Extent, ExtentKind};
use crate::virtual_disk::VirtualDisk;

verus! {

/// The counters that an io_uring copy of a data extent reported.
pub open spec fn data_counts(s: IoUringCopyStats) -> Counts {
    Counts {
        read: s.bytes_read() as int,
        written: s.bytes_written() as int,
        zeroed: 0,
        discarded: 0,
        blocks: s.blocks_completed() as int,
    }
}

/// The five transfer counters of `s`.
pub open spec fn extent_stats_counts(s: IoUringExtentCopyStats) -> Counts {
    Counts {
        read: s.bytes_read() as int,
        written: s.bytes_written() as int,
        zeroed: s.bytes_zeroed() as int,
        discarded: s.bytes_discarded() as int,
        blocks: s.blocks_completed() as int,
    }
}

/// Number of data extents in `extents`.
pub open spec fn data_extent_count(extents: Seq<Extent>) -> nat
    decreases extents.len(),
{
    if extents.len() == 0 {
        0
    } else if extents.last().spec_kind() == ExtentKind::Data {
        data_extent_count(extents.drop_last()) + 1
    } else {
        data_extent_count(extents.drop_last())
    }
}

/// The counters of a native copy of `extents` whose data extents were
/// copied with the reported counters `data`, one for each, in order, and
/// whose other extents were made zero on a destination with `caps`, in
/// blocks of `block_size` where it has to write zeros.
pub open spec fn native_counts(
    extents: Seq<Extent>,
    data: Seq<IoUringCopyStats>,
    caps: Capabilities,
    block_size: int,
) -> Counts
    decreases extents.len(),
{
    if extents.len() == 0 {
        no_counts()
    } else if extents.last().spec_kind() == ExtentKind::Data {
        add_counts(
            native_counts(extents.drop_last(), data.drop_last(), caps, block_size),
            data_counts(data.last()),
        )
    } else {
        add_counts(
            native_counts(extents.drop_last(), data, caps, block_size),
            counts_of(extents.last(), caps, block_size),
        )
    }
}

/// Each data extent of `extents` was copied whole: the counters `data`
/// reported for it read and wrote its length in as many blocks as it
/// takes.
pub open spec fn whole_data_copies(
    extents: Seq<Extent>,
    data: Seq<IoUringCopyStats>,
    caps: Capabilities,
    block_size: int,
) -> bool
    decreases extents.len(),
{
    if extents.len() == 0 {
        true
    } else if extents.last().spec_kind() == ExtentKind::Data {
        &&& data_counts(data.last()) == counts_of(extents.last(), caps, block_size)
        &&& whole_data_copies(extents.drop_last(), data.drop_last(), caps, block_size)
    } else {
        whole_data_copies(extents.drop_last(), data, caps, block_size)
    }
}

/// Making extent `e` zero on a destination with `caps` takes ordinary
/// writes of zeros.
pub open spec fn needs_block_writes(e: Extent, caps: Capabilities) -> bool {
    e.spec_kind() != ExtentKind::Data && !zeroes_directly(e.spec_kind(), caps)
}

/// Where the data extents of a plan were copied whole, the native copy
/// counts what the threaded copy of the same extents counts: the same
/// bytes read, written, zeroed and discarded, in the same number of blocks.
pub proof fn lemma_native_counts_match_threaded(
    extents: Seq<Extent>,
    data: Seq<IoUringCopyStats>,
    caps: Capabilities,
    block_size: int,
)
    requires
        data.len() == data_extent_count(extents),
        whole_data_copies(extents, data, caps, block_size),
    ensures
        native_counts(extents, data, caps, block_size) == counts_of_extents(
            extents,
            caps,
            block_size,
        ),
    decreases extents.len(),
{
    if extents.len() > 0 {
        if extents.last().spec_kind() == ExtentKind::Data {
            lemma_native_counts_match_threaded(
                extents.drop_last(),
                data.drop_last(),
                caps,
                block_size,
            );
        } else {
            lemma_native_counts_match_threaded(extents.drop_last(), data, caps, block_size);
        }
    }
}

/// A native copy that has done every extent of a plan tiling a disk of
/// `disk_size` bytes, with each data extent copied whole, processed each
/// extent once, read exactly the data bytes, put every byte of the disk on
/// the destination once (written, zeroed or discarded), and counted what
/// the threaded copy of the same plan counts.
pub proof fn lemma_finished_plan_copy(copy: NativePlanCopy, disk_size: int)
    requires
        copy.accounted(),
        copy.spec_next() == copy.spec_extents().len(),
        tiles(copy.spec_extents(), disk_size),
        whole_data_copies(
            copy.spec_extents(),
            copy.spec_data(),
            copy.spec_capabilities(),
            copy.spec_block_size() as int,
        ),
    ensures
        copy.spec_stats().extents_processed() == copy.spec_extents().len(),
        extent_stats_counts(copy.spec_stats()) == counts_of_extents(
            copy.spec_extents(),
            copy.spec_capabilities(),
            copy.spec_block_size() as int,
        ),
        copy.spec_stats().bytes_read() == bytes_of_kind(copy.spec_extents(), ExtentKind::Data),
        copy.spec_stats().bytes_written() + copy.spec_stats().bytes_zeroed()
            + copy.spec_stats().bytes_discarded() == disk_size,
{
    let extents = copy.spec_extents();
    assert(extents.take(extents.len() as int) =~= extents);
    lemma_native_counts_match_threaded(
        extents,
        copy.spec_data(),
        copy.spec_capabilities(),
        copy.spec_block_size() as int,
    );
    lemma_copy_accounts_every_byte(
        extents,
        disk_size,
        copy.spec_capabilities(),
        copy.spec_block_size() as int,
    );
}

/// A native copy of an extent plan in progress: data extents are handed
/// out to be copied through io_uring, one at a time, and their counters
/// handed back; zero and hole extents in between are made zero on the
/// destination.
pub struct NativePlanCopy {
    extents: Vec<Extent>,
    block_size: usize,
    capabilities: Capabilities,
    next: usize,
    stats: IoUringExtentCopyStats,
    data: Ghost<Seq<IoUringCopyStats>>,
}

impl NativePlanCopy {
    pub closed spec fn spec_extents(&self) -> Seq<Extent> {
        self.extents@
    }

    pub closed spec fn spec_block_size(&self) -> usize {
        self.block_size
    }

    pub closed spec fn spec_capabilities(&self) -> Capabilities {
        self.capabilities
    }

    /// How many extents of the plan are done.
    pub closed spec fn spec_next(&self) -> int {
        self.next as int
    }

    /// What the copy has done so far.
    pub closed spec fn spec_stats(&self) -> IoUringExtentCopyStats {
        self.stats
    }

    /// The counters reported for the data extents done so far, in order.
    pub closed spec fn spec_data(&self) -> Seq<IoUringCopyStats> {
        self.data@
    }

    /// The counters add up what was done to the extents done so far, one
    /// extent at a time.
    pub open spec fn accounted(&self) -> bool {
        &&& 0 <= self.spec_next() <= self.spec_extents().len()
        &&& self.spec_data().len() == data_extent_count(
            self.spec_extents().take(self.spec_next()),
        )
        &&& extent_stats_counts(self.spec_stats()) == native_counts(
            self.spec_extents().take(self.spec_next()),
            self.spec_data(),
            self.spec_capabilities(),
            self.spec_block_size() as int,
        )
        &&& self.spec_stats().extents_processed() == self.spec_next()
    }

    /// Starts a copy of `plan` onto a destination with `capabilities`, in
    /// blocks of `block_size` where zeros have to be written.
    pub fn new(plan: &NativeExtentPlan, block_size: usize, capabilities: Capabilities) -> (c:
        NativePlanCopy)
        ensures
            c.accounted(),
            c.spec_extents() == plan.spec_extents(),
            c.spec_block_size() == block_size,
            c.spec_capabilities() == capabilities,
            c.spec_next() == 0,
            c.spec_data().len() == 0,
            extent_stats_counts(c.spec_stats()) == no_counts(),
            c.spec_stats().extents_processed() == 0,
    {
        let extents = vstd::slice::slice_to_vec(plan.extents());
        let stats = IoUringExtentCopyStats::zero();
        let copy = NativePlanCopy {
            extents,
            block_size,
            capabilities,
            next: 0,
            stats,
            data: Ghost(Seq::empty()),
        };
        proof {
            assert(copy.spec_extents().take(0) =~= Seq::<Extent>::empty());
        }
        copy
    }

    /// The destination capabilities the copy was started for.
    pub fn capabilities(&self) -> (c: Capabilities)
        ensures
            c == self.spec_capabilities(),
    {
        self.capabilities
    }

    /// What the copy has done so far.
    pub fn stats(&self) -> (s: IoUringExtentCopyStats)
        ensures
            s == self.spec_stats(),
    {
        self.stats
    }

    /// Whether an extent still to do has to be made zero with ordinary
    /// writes, block by block, on the destination.
    pub fn writes_zero_blocks(&self) -> (b: bool)
        requires
            self.accounted(),
        ensures
            b == exists|i: int|
                self.spec_next() <= i < self.spec_extents().len() && needs_block_writes(
                    #[trigger] self.spec_extents()[i],
                    self.spec_capabilities(),
                ),
    {
        let caps = self.capabilities;
        let mut i: usize = self.next;
        while i < self.extents.len()
            invariant
                self.spec_next() <= i <= self.spec_extents().len(),
                caps == self.spec_capabilities(),
                forall|j: int|
                    self.spec_next() <= j < i ==> !needs_block_writes(
                        #[trigger] self.spec_extents()[j],
                        caps,
                    ),
            decreases self.spec_extents().len() - i,
        {
            let kind = self.extents[i].kind();
            let direct = match kind {
                ExtentKind::Data => true,
                ExtentKind::Zero => caps.write_zero,
                ExtentKind::Hole => caps.discard || caps.write_zero,
            };
            if !direct {
                proof {
                    assert(needs_block_writes(self.spec_extents()[i as int], caps));
                }
                return true;
            }
            i = i + 1;
        }
        false
    }

    /// Makes the zero and hole extents from the next one on zero on
    /// `destination`, up to the next data extent, which it hands out to be
    /// copied; `None` once every extent is done.
    pub fn advance<D>(&mut self, destination: &mut D) -> (r: Result<Option<Extent>>) where
        D: VirtualDisk,
        requires
            old(self).accounted(),
            old(destination).spec_capabilities() == old(self).spec_capabilities(),
            old(self).spec_block_size() > 0 || forall|i: int|
                old(self).spec_next() <= i < old(self).spec_extents().len() ==> !needs_block_writes(
                    #[trigger] old(self).spec_extents()[i],
                    old(self).spec_capabilities(),
                ),
        ensures
            final(self).spec_extents() == old(self).spec_extents(),
            final(self).spec_block_size() == old(self).spec_block_size(),
            final(self).spec_capabilities() == old(self).spec_capabilities(),
            final(self).spec_data() == old(self).spec_data(),
            final(destination).spec_geometry() == old(destination).spec_geometry(),
            final(destination).spec_capabilities() == old(destination).spec_capabilities(),
            r is Ok ==> {
                &&& final(self).accounted()
                &&& old(self).spec_next() <= final(self).spec_next()
                &&& forall|i: int|
                    old(self).spec_next() <= i < final(self).spec_next() ==> #[trigger] old(
                        self,
                    ).spec_extents()[i].spec_kind() != ExtentKind::Data
                &&& final(destination).spec_contents() == apply_extents(
                    old(destination).spec_contents(),
                    old(destination).spec_contents(),
                    old(self).spec_extents().subrange(old(self).spec_next(), final(self).spec_next()),
                )
            },
            r matches Ok(None) ==> final(self).spec_next() == old(self).spec_extents().len(),
            r matches Ok(Some(e)) ==> final(self).spec_next() < old(self).spec_extents().len() && e
                == old(self).spec_extents()[final(self).spec_next()] && e.spec_kind()
                == ExtentKind::Data,
    {
        let ghost start = self.next as int;
        let ghost d0 = destination.spec_contents();
        let ghost caps = self.capabilities;
        proof {
            assert(self.extents@.subrange(start, start) =~= Seq::<Extent>::empty());
        }
        while self.next < self.extents.len()
            invariant
                self.accounted(),
                self.extents@ == old(self).spec_extents(),
                self.block_size == old(self).spec_block_size(),
                self.capabilities == caps,
                caps == old(self).spec_capabilities(),
                self.data@ == old(self).spec_data(),
                start == old(self).spec_next(),
                start <= self.next,
                d0 == old(destination).spec_contents(),
                caps == old(destination).spec_capabilities(),
                destination.spec_geometry() == old(destination).spec_geometry(),
                destination.spec_capabilities() == caps,
                self.block_size > 0 || forall|i: int|
                    start <= i < self.extents@.len() ==> !needs_block_writes(
                        #[trigger] self.extents@[i],
                        caps,
                    ),
                forall|i: int|
                    start <= i < self.next ==> #[trigger] self.extents@[i].spec_kind()
                        != ExtentKind::Data,
                destination.spec_contents() == apply_extents(
                    d0,
                    d0,
                    self.extents@.subrange(start, self.next as int),
                ),
            decreases self.extents@.len() - self.next,
        {
            let extent = self.extents[self.next];
            let ghost before = self.stats;
            let ghost done = self.extents@.subrange(start, self.next as int);
            let ghost n = self.next as int;
            match extent.kind() {
                ExtentKind::Data => {
                    return Ok(Some(extent));
                },
                ExtentKind::Zero => {
                    proof {
                        assert(!needs_block_writes(self.extents@[n], caps) || self.block_size > 0);
                    }
                    process_zero_extent(destination, extent, self.block_size, &mut self.stats)?;
                },
                ExtentKind::Hole => {
                    proof {
                        assert(!needs_block_writes(self.extents@[n], caps) || self.block_size > 0);
                    }
                    process_hole_extent(destination, extent, self.block_size, &mut self.stats)?;
                },
            }
            self.next = self.next + 1;
            proof {
                let taken = self.extents@.take(self.next as int);
                assert(taken.drop_last() =~= self.extents@.take(n));
                assert(taken.last() == extent);
                assert(extent_stats_counts(self.stats) == add_counts(
                    extent_stats_counts(before),
                    counts_of(extent, caps, self.block_size as int),
                ));
                let now = self.extents@.subrange(start, self.next as int);
                assert(now.drop_last() =~= done);
                assert(now.last() == extent);
            }
        }
        Ok(None)
    }

    /// Hands out the next extent when it is data, for a copy without a
    /// destination disk; `None` once every extent is done.  Zero and hole
    /// extents cannot be made zero without one and are refused.
    pub fn advance_without_destination(&self) -> (r: Result<Option<Extent>>)
        requires
            self.accounted(),
        ensures
            self.spec_next() == self.spec_extents().len() ==> r matches Ok(None),
            self.spec_next() < self.spec_extents().len() && self.spec_extents()[self.spec_next()].spec_kind()
                == ExtentKind::Data ==> r == Ok::<Option<Extent>, Error>(
                Some(self.spec_extents()[self.spec_next()]),
            ),
            self.spec_next() < self.spec_extents().len() && self.spec_extents()[self.spec_next()].spec_kind()
                != ExtentKind::Data ==> (r matches Err(
                Error::UnsupportedNativeExtent { kind: k, offset: o, length: l },
            ) && k@ == kind_name(self.spec_extents()[self.spec_next()].spec_kind())@ && o
                == self.spec_extents()[self.spec_next()].spec_offset() && l == self.spec_extents()[self.spec_next()].spec_length()),
    {
        if self.next >= self.extents.len() {
            return Ok(None);
        }
        let extent = self.extents[self.next];
        native_extent_action(&extent, false)?;
        Ok(Some(extent))
    }

    /// Counts the data extent handed out last as copied with the counters
    /// `copied`; a counter that would pass `u64::MAX` is a range overflow.
    pub fn record_data(&mut self, copied: IoUringCopyStats) -> (r: Result<()>)
        requires
            old(self).accounted(),
            old(self).spec_next() < old(self).spec_extents().len(),
            old(self).spec_extents()[old(self).spec_next()].spec_kind() == ExtentKind::Data,
        ensures
            final(self).spec_extents() == old(self).spec_extents(),
            final(self).spec_block_size() == old(self).spec_block_size(),
            final(self).spec_capabilities() == old(self).spec_capabilities(),
            r is Ok ==> {
                &&& final(self).accounted()
                &&& final(self).spec_next() == old(self).spec_next() + 1
                &&& final(self).spec_data() == old(self).spec_data().push(copied)
            },
            old(self).spec_stats().bytes_read() + copied.bytes_read() <= u64::MAX
                && old(self).spec_stats().bytes_written() + copied.bytes_written() <= u64::MAX
                && old(self).spec_stats().blocks_completed() + copied.blocks_completed()
                <= u64::MAX <==> r is Ok,
            r is Err ==> r matches Err(Error::RangeOverflow { .. }),
    {
        let ghost before = self.stats;
        let ghost n = self.next as int;
        let count = self.extents.len();
        proof {
            assert(self.stats.extents_processed() == self.next);
            assert(self.next < count);
            assert(fits(self.stats.extents_processed(), 1));
        }
        self.stats.add_data_extent(copied)?;
        self.next = self.next + 1;
        self.data = Ghost(self.data@.push(copied));
        proof {
            let taken = self.extents@.take(self.next as int);
            assert(taken.drop_last() =~= self.extents@.take(n));
            assert(self.data@.drop_last() =~= old(self).spec_data());
        }
        Ok(())
    }
}

} // verus!
