use vstd::prelude::*;

use crate::datamover::execution::ExecutionBackend;
use crate::datamover::extent_validation::tiles;
use crate::error::{numbers_message, Error, Result};
use crate::extent::{Extent, ExtentKind};

verus! {

/// Number of bytes that the extents of `kind` in `extents` cover.
pub open spec fn bytes_of_kind(extents: Seq<Extent>, kind: ExtentKind) -> int
    decreases extents.len(),
{
    if extents.len() == 0 {
        0
    } else {
        bytes_of_kind(extents.drop_last(), kind) + if extents.last().spec_kind() == kind {
            extents.last().spec_length() as int
        } else {
            0
        }
    }
}

/// Number of bytes that all of `extents` cover.
pub open spec fn accounted_bytes(extents: Seq<Extent>) -> int {
    bytes_of_kind(extents, ExtentKind::Data) + bytes_of_kind(extents, ExtentKind::Zero)
        + bytes_of_kind(extents, ExtentKind::Hole)
}

/// A prefix of a map covers no more bytes of a kind than the whole map.
pub proof fn lemma_bytes_of_kind_prefix(extents: Seq<Extent>, kind: ExtentKind, n: int)
    requires
        0 <= n <= extents.len(),
    ensures
        0 <= bytes_of_kind(extents.take(n), kind) <= bytes_of_kind(extents, kind),
    decreases extents.len(),
{
    if n < extents.len() {
        lemma_bytes_of_kind_prefix(extents.drop_last(), kind, n);
        assert(extents.drop_last().take(n) =~= extents.take(n));
    } else {
        assert(extents.take(n) =~= extents);
        lemma_bytes_of_kind_nonnegative(extents, kind);
    }
}

proof fn lemma_bytes_of_kind_nonnegative(extents: Seq<Extent>, kind: ExtentKind)
    ensures
        bytes_of_kind(extents, kind) >= 0,
    decreases extents.len(),
{
    if extents.len() > 0 {
        lemma_bytes_of_kind_nonnegative(extents.drop_last(), kind);
    }
}

/// A tiling map accounts for every byte of the disk exactly once.
pub proof fn lemma_tiles_accounted(extents: Seq<Extent>, disk_size: int)
    requires
        tiles(extents, disk_size),
    ensures
        accounted_bytes(extents) == disk_size,
{
    lemma_prefix_accounted(extents, disk_size, extents.len() as int);
    assert(extents.take(extents.len() as int) =~= extents);
}

proof fn lemma_prefix_accounted(extents: Seq<Extent>, disk_size: int, k: int)
    requires
        tiles(extents, disk_size),
        0 <= k <= extents.len(),
    ensures
        accounted_bytes(extents.take(k)) == if k == 0 {
            0
        } else {
            extents[k - 1].spec_end()
        },
    decreases k,
{
    if k > 0 {
        lemma_prefix_accounted(extents, disk_size, k - 1);
        assert(extents.take(k).drop_last() =~= extents.take(k - 1));
        assert(extents[k - 1].spec_offset() == if k - 1 == 0 {
            0
        } else {
            extents[k - 2].spec_end()
        });
    }
}

/// How many bytes of a plan are data, zero and hole.
#[derive(Debug, Clone, Copy, PartialEq, Eq, Structural)]
pub struct CopyPlanSummary {
    logical_bytes: u64,
    data_bytes: u64,
    zero_bytes: u64,
    hole_bytes: u64,
}

/// Adding the `i`-th extent to the bytes of its kind before it passes
/// `u64::MAX`.
pub open spec fn kind_overflows_at(extents: Seq<Extent>, i: int) -> bool {
    bytes_of_kind(extents.take(i), extents[i].spec_kind()) + extents[i].spec_length() > u64::MAX
}

/// No extent before the `n`-th passes `u64::MAX` when added to its kind.
pub open spec fn no_kind_overflow_before(extents: Seq<Extent>, n: int) -> bool {
    forall|j: int| 0 <= j < n ==> !#[trigger] kind_overflows_at(extents, j)
}

/// `r` reports that the `i`-th extent passed `u64::MAX` when added to the
/// bytes of its kind before it.
pub open spec fn kind_overflow_error(extents: Seq<Extent>, i: int, r: Result<CopyPlanSummary>) -> bool {
    r matches Err(Error::RangeOverflow { offset: o, length: l }) && o == bytes_of_kind(
        extents.take(i),
        extents[i].spec_kind(),
    ) && l == extents[i].spec_length()
}

/// The range overflow that summing `extents` runs into: the first extent
/// that passes `u64::MAX` within its kind; else the data bytes plus the
/// zero bytes; else those plus the hole bytes.
pub open spec fn overflow_outcome(extents: Seq<Extent>, r: Result<CopyPlanSummary>) -> bool {
    if !no_kind_overflow_before(extents, extents.len() as int) {
        exists|i: int|
            0 <= i < extents.len() && no_kind_overflow_before(extents, i) && #[trigger] kind_overflows_at(
                extents,
                i,
            ) && kind_overflow_error(extents, i, r)
    } else if bytes_of_kind(extents, ExtentKind::Data) + bytes_of_kind(extents, ExtentKind::Zero)
        > u64::MAX {
        r matches Err(Error::RangeOverflow { offset: o, length: l }) && o == bytes_of_kind(
            extents,
            ExtentKind::Data,
        ) && l == bytes_of_kind(extents, ExtentKind::Zero)
    } else {
        r matches Err(Error::RangeOverflow { offset: o, length: l }) && o == bytes_of_kind(
            extents,
            ExtentKind::Data,
        ) + bytes_of_kind(extents, ExtentKind::Zero) && l == bytes_of_kind(
            extents,
            ExtentKind::Hole,
        )
    }
}

/// The outcome of summarizing `extents` against a logical size: sums that
/// overflow `u64` are a range overflow, sums that differ from the size are
/// corrupt metadata.
pub open spec fn summary_outcome(logical_bytes: u64, extents: Seq<Extent>, r: Result<CopyPlanSummary>) -> bool {
    if accounted_bytes(extents) > u64::MAX {
        overflow_outcome(extents, r)
    } else if accounted_bytes(extents) != logical_bytes {
        r matches Err(Error::CorruptMetadata(_))
    } else {
        r matches Ok(s) && s.logical_bytes() == logical_bytes && s.data_bytes() == bytes_of_kind(
            extents,
            ExtentKind::Data,
        ) && s.zero_bytes() == bytes_of_kind(extents, ExtentKind::Zero) && s.hole_bytes()
            == bytes_of_kind(extents, ExtentKind::Hole)
    }
}

impl CopyPlanSummary {
    pub closed spec fn spec_logical_bytes(&self) -> u64 {
        self.logical_bytes
    }

    pub closed spec fn spec_data_bytes(&self) -> u64 {
        self.data_bytes
    }

    pub closed spec fn spec_zero_bytes(&self) -> u64 {
        self.zero_bytes
    }

    pub closed spec fn spec_hole_bytes(&self) -> u64 {
        self.hole_bytes
    }

    /// Adds up the bytes of each kind and checks that together they make up
    /// `logical_bytes`.
    pub fn from_extents(logical_bytes: u64, extents: &[Extent]) -> (r: Result<CopyPlanSummary>)
        ensures
            summary_outcome(logical_bytes, extents@, r),
    {
        let mut data_bytes: u64 = 0;
        let mut zero_bytes: u64 = 0;
        let mut hole_bytes: u64 = 0;
        let mut i: usize = 0;
        while i < extents.len()
            invariant
                0 <= i <= extents@.len(),
                data_bytes == bytes_of_kind(extents@.take(i as int), ExtentKind::Data),
                zero_bytes == bytes_of_kind(extents@.take(i as int), ExtentKind::Zero),
                hole_bytes == bytes_of_kind(extents@.take(i as int), ExtentKind::Hole),
                no_kind_overflow_before(extents@, i as int),
            decreases extents@.len() - i,
        {
            let extent = &extents[i];
            let length = extent.length();
            proof {
                assert(extents@.take(i + 1).drop_last() =~= extents@.take(i as int));
            }
            match extent.kind() {
                ExtentKind::Data => {
                    data_bytes = match data_bytes.checked_add(length) {
                        Some(sum) => sum,
                        None => {
                            proof {
                                lemma_bytes_of_kind_prefix(extents@, ExtentKind::Data, i + 1);
                                assert(kind_overflows_at(extents@, i as int));
                                lemma_bytes_of_kind_nonnegative(extents@, ExtentKind::Zero);
                                lemma_bytes_of_kind_nonnegative(extents@, ExtentKind::Hole);
                            }
                            return Err(Error::RangeOverflow { offset: data_bytes, length });
                        },
                    };
                },
                ExtentKind::Zero => {
                    zero_bytes = match zero_bytes.checked_add(length) {
                        Some(sum) => sum,
                        None => {
                            proof {
                                lemma_bytes_of_kind_prefix(extents@, ExtentKind::Zero, i + 1);
                                assert(kind_overflows_at(extents@, i as int));
                                lemma_bytes_of_kind_nonnegative(extents@, ExtentKind::Data);
                                lemma_bytes_of_kind_nonnegative(extents@, ExtentKind::Hole);
                            }
                            return Err(Error::RangeOverflow { offset: zero_bytes, length });
                        },
                    };
                },
                ExtentKind::Hole => {
                    hole_bytes = match hole_bytes.checked_add(length) {
                        Some(sum) => sum,
                        None => {
                            proof {
                                lemma_bytes_of_kind_prefix(extents@, ExtentKind::Hole, i + 1);
                                assert(kind_overflows_at(extents@, i as int));
                                lemma_bytes_of_kind_nonnegative(extents@, ExtentKind::Data);
                                lemma_bytes_of_kind_nonnegative(extents@, ExtentKind::Zero);
                            }
                            return Err(Error::RangeOverflow { offset: hole_bytes, length });
                        },
                    };
                },
            }
            proof {
                assert(!kind_overflows_at(extents@, i as int));
            }
            i = i + 1;
        }
        proof {
            assert(extents@.take(extents@.len() as int) =~= extents@);
        }
        let data_and_zero = match data_bytes.checked_add(zero_bytes) {
            Some(sum) => sum,
            None => {
                proof {
                    lemma_bytes_of_kind_nonnegative(extents@, ExtentKind::Hole);
                }
                return Err(Error::RangeOverflow { offset: data_bytes, length: zero_bytes });
            },
        };
        let accounted = match data_and_zero.checked_add(hole_bytes) {
            Some(sum) => sum,
            None => {
                return Err(Error::RangeOverflow { offset: data_and_zero, length: hole_bytes });
            },
        };
        if accounted != logical_bytes {
            return Err(
                Error::CorruptMetadata(
                    numbers_message(
                        "extent bytes do not match logical size: logical=",
                        logical_bytes,
                        ", accounted=",
                        accounted,
                    ),
                ),
            );
        }
        Ok(CopyPlanSummary { logical_bytes, data_bytes, zero_bytes, hole_bytes })
    }

    #[verifier::when_used_as_spec(spec_logical_bytes)]
    pub fn logical_bytes(&self) -> (b: u64)
        ensures
            b == self.spec_logical_bytes(),
    {
        self.logical_bytes
    }

    #[verifier::when_used_as_spec(spec_data_bytes)]
    pub fn data_bytes(&self) -> (b: u64)
        ensures
            b == self.spec_data_bytes(),
    {
        self.data_bytes
    }

    #[verifier::when_used_as_spec(spec_zero_bytes)]
    pub fn zero_bytes(&self) -> (b: u64)
        ensures
            b == self.spec_zero_bytes(),
    {
        self.zero_bytes
    }

    #[verifier::when_used_as_spec(spec_hole_bytes)]
    pub fn hole_bytes(&self) -> (b: u64)
        ensures
            b == self.spec_hole_bytes(),
    {
        self.hole_bytes
    }
}


/// Starting value of the extent-map fingerprint (the FNV-1a 64-bit offset basis).
pub const FINGERPRINT_OFFSET_BASIS: u64 = 0xcbf2_9ce4_8422_2325;

/// Multiplier of the extent-map fingerprint (the FNV-1a 64-bit prime).
pub const FINGERPRINT_PRIME: u64 = 0x0000_0100_0000_01b3;

/// One FNV-1a step: fold one byte into the hash.
pub open spec fn fnv_step(hash: u64, byte: u64) -> u64 {
    (((hash ^ byte) as nat * FINGERPRINT_PRIME as nat) % 0x1_0000_0000_0000_0000) as u64
}

/// Byte `k` of `value` in little-endian order.
pub open spec fn le_byte(value: u64, k: nat) -> u64 {
    (value >> ((8 * k) as u64)) & 0xff
}

/// Folds the `k` lowest bytes of `value`, least significant first.
pub open spec fn fnv_bytes(hash: u64, value: u64, k: nat) -> u64
    decreases k,
{
    if k == 0 {
        hash
    } else {
        fnv_step(fnv_bytes(hash, value, (k - 1) as nat), le_byte(value, (k - 1) as nat))
    }
}

/// Folds all eight bytes of `value`, least significant first.
pub open spec fn fnv_u64(hash: u64, value: u64) -> u64 {
    fnv_bytes(hash, value, 8)
}

/// The eight bytes of `value`, least significant first: byte `k` is
/// `value / 256^k % 256`.
pub open spec fn le_bytes(value: u64) -> Seq<u8> {
    seq![
        (value % 0x100) as u8,
        (value / 0x100 % 0x100) as u8,
        (value / 0x1_0000 % 0x100) as u8,
        (value / 0x100_0000 % 0x100) as u8,
        (value / 0x1_0000_0000 % 0x100) as u8,
        (value / 0x100_0000_0000 % 0x100) as u8,
        (value / 0x1_0000_0000_0000 % 0x100) as u8,
        (value / 0x100_0000_0000_0000 % 0x100) as u8,
    ]
}

/// 64-bit FNV-1a over `bytes`, from `hash`: each byte is xored into the
/// hash, which is then multiplied by the FNV prime modulo `2^64`.
pub open spec fn fnv1a(hash: u64, bytes: Seq<u8>) -> u64
    decreases bytes.len(),
{
    if bytes.len() == 0 {
        hash
    } else {
        let before = fnv1a(hash, bytes.drop_last());
        (((before ^ (bytes.last() as u64)) as int * 0x100_0000_01b3) % 0x1_0000_0000_0000_0000) as u64
    }
}

/// Byte `k` of a value, as the fingerprint folds it, is its `k`-th
/// little-endian byte.
proof fn lemma_le_byte(value: u64, k: nat)
    requires
        k < 8,
    ensures
        le_byte(value, k) == le_bytes(value)[k as int] as u64,
{
    let v = value;
    if k == 0 {
        assert((v >> 0u64) & 0xff == v % 0x100) by (bit_vector);
    } else if k == 1 {
        assert((v >> 8u64) & 0xff == v / 0x100 % 0x100) by (bit_vector);
    } else if k == 2 {
        assert((v >> 16u64) & 0xff == v / 0x1_0000 % 0x100) by (bit_vector);
    } else if k == 3 {
        assert((v >> 24u64) & 0xff == v / 0x100_0000 % 0x100) by (bit_vector);
    } else if k == 4 {
        assert((v >> 32u64) & 0xff == v / 0x1_0000_0000 % 0x100) by (bit_vector);
    } else if k == 5 {
        assert((v >> 40u64) & 0xff == v / 0x100_0000_0000 % 0x100) by (bit_vector);
    } else if k == 6 {
        assert((v >> 48u64) & 0xff == v / 0x1_0000_0000_0000 % 0x100) by (bit_vector);
    } else {
        assert((v >> 56u64) & 0xff == v / 0x100_0000_0000_0000 % 0x100) by (bit_vector);
    }
}

/// Folding the `k` lowest bytes of a value is FNV-1a over its first `k`
/// little-endian bytes.
proof fn lemma_fnv_bytes_prefix(hash: u64, value: u64, k: nat)
    requires
        k <= 8,
    ensures
        fnv_bytes(hash, value, k) == fnv1a(hash, le_bytes(value).take(k as int)),
    decreases k,
{
    let bytes = le_bytes(value);
    if k == 0 {
        assert(bytes.take(0) =~= Seq::<u8>::empty());
    } else {
        lemma_fnv_bytes_prefix(hash, value, (k - 1) as nat);
        lemma_le_byte(value, (k - 1) as nat);
        assert(bytes.take(k as int).drop_last() =~= bytes.take(k - 1));
        assert(bytes.take(k as int).last() == bytes[k - 1]);
    }
}

/// Folding a value into the fingerprint is 64-bit FNV-1a over the value's
/// eight little-endian bytes: every bit of the value reaches the hash.
pub proof fn lemma_fnv_u64_is_fnv1a(hash: u64, value: u64)
    ensures
        fnv_u64(hash, value) == fnv1a(hash, le_bytes(value)),
{
    lemma_fnv_bytes_prefix(hash, value, 8);
    assert(le_bytes(value).take(8) =~= le_bytes(value));
}

/// The code of an extent kind in the fingerprint.
pub open spec fn kind_code(kind: ExtentKind) -> u64 {
    match kind {
        ExtentKind::Data => 1,
        ExtentKind::Zero => 2,
        ExtentKind::Hole => 3,
    }
}

/// The FNV-1a hash of the offset, length and kind code of each extent, in
/// order.
pub open spec fn fingerprint(extents: Seq<Extent>) -> u64
    decreases extents.len(),
{
    if extents.len() == 0 {
        FINGERPRINT_OFFSET_BASIS
    } else {
        let e = extents.last();
        fnv_u64(
            fnv_u64(fnv_u64(fingerprint(extents.drop_last()), e.spec_offset()), e.spec_length()),
            kind_code(e.spec_kind()),
        )
    }
}

/// Different values have different little-endian bytes, so the bytes a
/// value is fingerprinted over carry all of it.
pub proof fn lemma_le_bytes_injective(a: u64, b: u64)
    requires
        le_bytes(a) == le_bytes(b),
    ensures
        a == b,
{
    assert(le_bytes(a)[0] == le_bytes(b)[0]);
    assert(le_bytes(a)[1] == le_bytes(b)[1]);
    assert(le_bytes(a)[2] == le_bytes(b)[2]);
    assert(le_bytes(a)[3] == le_bytes(b)[3]);
    assert(le_bytes(a)[4] == le_bytes(b)[4]);
    assert(le_bytes(a)[5] == le_bytes(b)[5]);
    assert(le_bytes(a)[6] == le_bytes(b)[6]);
    assert(le_bytes(a)[7] == le_bytes(b)[7]);
    assert(a == b) by (bit_vector)
        requires
            a % 0x100 == b % 0x100,
            a / 0x100 % 0x100 == b / 0x100 % 0x100,
            a / 0x1_0000 % 0x100 == b / 0x1_0000 % 0x100,
            a / 0x100_0000 % 0x100 == b / 0x100_0000 % 0x100,
            a / 0x1_0000_0000 % 0x100 == b / 0x1_0000_0000 % 0x100,
            a / 0x100_0000_0000 % 0x100 == b / 0x100_0000_0000 % 0x100,
            a / 0x1_0000_0000_0000 % 0x100 == b / 0x1_0000_0000_0000 % 0x100,
            a / 0x100_0000_0000_0000 % 0x100 == b / 0x100_0000_0000_0000 % 0x100,
    ;
}

/// The bytes an extent map is fingerprinted over: for each extent in
/// order, the little-endian bytes of its offset, its length and its kind
/// code.
pub open spec fn map_bytes(extents: Seq<Extent>) -> Seq<u8>
    decreases extents.len(),
{
    if extents.len() == 0 {
        Seq::empty()
    } else {
        let e = extents.last();
        map_bytes(extents.drop_last()) + le_bytes(e.spec_offset()) + le_bytes(e.spec_length())
            + le_bytes(kind_code(e.spec_kind()))
    }
}

/// FNV-1a over two byte strings one after the other continues from the
/// hash of the first.
proof fn lemma_fnv1a_concat(hash: u64, first: Seq<u8>, second: Seq<u8>)
    ensures
        fnv1a(hash, first + second) == fnv1a(fnv1a(hash, first), second),
    decreases second.len(),
{
    if second.len() > 0 {
        lemma_fnv1a_concat(hash, first, second.drop_last());
        assert((first + second).drop_last() =~= first + second.drop_last());
        assert((first + second).last() == second.last());
    } else {
        assert(first + second =~= first);
    }
}

/// The fingerprint of an extent map is 64-bit FNV-1a, from the offset
/// basis, over the little-endian bytes of every offset, length and kind
/// code of the map, in order.
pub proof fn lemma_fingerprint_is_fnv1a(extents: Seq<Extent>)
    ensures
        fingerprint(extents) == fnv1a(FINGERPRINT_OFFSET_BASIS, map_bytes(extents)),
    decreases extents.len(),
{
    if extents.len() > 0 {
        let e = extents.last();
        let before = map_bytes(extents.drop_last());
        lemma_fingerprint_is_fnv1a(extents.drop_last());
        let h0 = fingerprint(extents.drop_last());
        let h1 = fnv_u64(h0, e.spec_offset());
        let h2 = fnv_u64(h1, e.spec_length());
        lemma_fnv_u64_is_fnv1a(h0, e.spec_offset());
        lemma_fnv_u64_is_fnv1a(h1, e.spec_length());
        lemma_fnv_u64_is_fnv1a(h2, kind_code(e.spec_kind()));
        lemma_fnv1a_concat(FINGERPRINT_OFFSET_BASIS, before, le_bytes(e.spec_offset()));
        lemma_fnv1a_concat(
            FINGERPRINT_OFFSET_BASIS,
            before + le_bytes(e.spec_offset()),
            le_bytes(e.spec_length()),
        );
        lemma_fnv1a_concat(
            FINGERPRINT_OFFSET_BASIS,
            before + le_bytes(e.spec_offset()) + le_bytes(e.spec_length()),
            le_bytes(kind_code(e.spec_kind())),
        );
    } else {
        assert(map_bytes(extents) =~= Seq::<u8>::empty());
    }
}

fn mix(start: u64, value: u64) -> (h: u64)
    ensures
        h == fnv_u64(start, value),
{
    let mut hash = start;
    let mut k: u64 = 0;
    while k < 8
        invariant
            k <= 8,
            hash == fnv_bytes(start, value, k as nat),
        decreases 8 - k,
    {
        let byte = (value >> (8 * k)) & 0xff;
        hash = (hash ^ byte).wrapping_mul(FINGERPRINT_PRIME);
        k = k + 1;
    }
    hash
}

/// A fingerprint of the structure of an extent map: offsets, lengths and
/// kinds, not contents.
pub fn extent_fingerprint(extents: &[Extent]) -> (h: u64)
    ensures
        h == fingerprint(extents@),
{
    let mut hash = FINGERPRINT_OFFSET_BASIS;
    let mut i: usize = 0;
    while i < extents.len()
        invariant
            0 <= i <= extents@.len(),
            hash == fingerprint(extents@.take(i as int)),
        decreases extents@.len() - i,
    {
        let extent = &extents[i];
        hash = mix(hash, extent.offset());
        hash = mix(hash, extent.length());
        let kind = match extent.kind() {
            ExtentKind::Data => 1u64,
            ExtentKind::Zero => 2u64,
            ExtentKind::Hole => 3u64,
        };
        hash = mix(hash, kind);
        proof {
            assert(extents@.take(i + 1).drop_last() =~= extents@.take(i as int));
        }
        i = i + 1;
    }
    proof {
        assert(extents@.take(extents@.len() as int) =~= extents@);
    }
    hash
}

/// A structural plan of a copy: the extent map it was made from, its
/// summary and fingerprint, and the backend, block size and alignment to
/// execute it with.
#[derive(Debug, PartialEq, Eq)]
pub struct CopyPlan {
    summary: CopyPlanSummary,
    extents: Vec<Extent>,
    extent_fingerprint: u64,
    backend: ExecutionBackend,
    block_size: usize,
    alignment: usize,
}

/// The summary of a planning result.
pub open spec fn summary_of(r: Result<CopyPlan>) -> Result<CopyPlanSummary> {
    match r {
        Ok(p) => Ok(p.spec_summary()),
        Err(e) => Err(e),
    }
}

impl CopyPlan {
    /// The summary accounts for exactly the bytes of the extent map.
    #[verifier::type_invariant]
    spec fn summary_matches(self) -> bool {
        accounted_bytes(self.extents@) == self.summary.spec_logical_bytes()
    }

    pub closed spec fn spec_summary(&self) -> CopyPlanSummary {
        self.summary
    }

    pub closed spec fn spec_extents(&self) -> Seq<Extent> {
        self.extents@
    }

    pub closed spec fn spec_extent_fingerprint(&self) -> u64 {
        self.extent_fingerprint
    }

    pub closed spec fn spec_backend(&self) -> ExecutionBackend {
        self.backend
    }

    pub closed spec fn spec_block_size(&self) -> usize {
        self.block_size
    }

    pub closed spec fn spec_alignment(&self) -> usize {
        self.alignment
    }

    /// A plan for a source of `logical_bytes` bytes with this extent map; a
    /// map whose bytes do not add up to the size is refused as in
    /// `CopyPlanSummary::from_extents`.
    pub fn new(
        logical_bytes: u64,
        extents: Vec<Extent>,
        backend: ExecutionBackend,
        block_size: usize,
        alignment: usize,
    ) -> (r: Result<CopyPlan>)
        ensures
            summary_outcome(logical_bytes, extents@, summary_of(r)),
            r matches Ok(p) ==> p.spec_extents() == extents@ && p.extent_fingerprint() == fingerprint(
                extents@,
            ) && p.backend() == backend && p.block_size() == block_size && p.alignment()
                == alignment,
    {
        let summary = CopyPlanSummary::from_extents(logical_bytes, extents.as_slice())?;
        let extent_fingerprint = extent_fingerprint(extents.as_slice());
        Ok(CopyPlan { summary, extent_fingerprint, extents, backend, block_size, alignment })
    }

    #[verifier::when_used_as_spec(spec_extent_fingerprint)]
    pub fn extent_fingerprint(&self) -> (h: u64)
        ensures
            h == self.spec_extent_fingerprint(),
    {
        self.extent_fingerprint
    }

    pub fn summary(&self) -> (s: &CopyPlanSummary)
        ensures
            *s == self.spec_summary(),
    {
        &self.summary
    }

    pub fn logical_bytes(&self) -> (b: u64)
        ensures
            b == self.spec_summary().logical_bytes(),
    {
        self.summary.logical_bytes()
    }

    pub fn data_bytes(&self) -> (b: u64)
        ensures
            b == self.spec_summary().data_bytes(),
    {
        self.summary.data_bytes()
    }

    pub fn zero_bytes(&self) -> (b: u64)
        ensures
            b == self.spec_summary().zero_bytes(),
    {
        self.summary.zero_bytes()
    }

    pub fn hole_bytes(&self) -> (b: u64)
        ensures
            b == self.spec_summary().hole_bytes(),
    {
        self.summary.hole_bytes()
    }

    pub fn extent_count(&self) -> (n: usize)
        ensures
            n == self.spec_extents().len(),
    {
        self.extents.len()
    }

    pub fn extents(&self) -> (e: &[Extent])
        ensures
            e@ == self.spec_extents(),
            accounted_bytes(e@) == self.spec_summary().logical_bytes(),
    {
        proof {
            use_type_invariant(self);
        }
        self.extents.as_slice()
    }

    #[verifier::when_used_as_spec(spec_backend)]
    pub fn backend(&self) -> (b: ExecutionBackend)
        ensures
            b == self.spec_backend(),
    {
        self.backend
    }

    #[verifier::when_used_as_spec(spec_block_size)]
    pub fn block_size(&self) -> (b: usize)
        ensures
            b == self.spec_block_size(),
    {
        self.block_size
    }

    #[verifier::when_used_as_spec(spec_alignment)]
    pub fn alignment(&self) -> (a: usize)
        ensures
            a == self.spec_alignment(),
    {
        self.alignment
    }
}

impl Clone for CopyPlan {
    fn clone(&self) -> (c: CopyPlan)
        ensures
            c.spec_summary() == self.spec_summary(),
            c.spec_extents() == self.spec_extents(),
            c.spec_extent_fingerprint() == self.spec_extent_fingerprint(),
            c.spec_backend() == self.spec_backend(),
            c.spec_block_size() == self.spec_block_size(),
            c.spec_alignment() == self.spec_alignment(),
    {
        proof {
            use_type_invariant(self);
        }
        let extents = self.extents.clone();
        proof {
            assert(extents@ =~= self.extents@);
        }
        CopyPlan {
            summary: self.summary,
            extents,
            extent_fingerprint: self.extent_fingerprint,
            backend: self.backend,
            block_size: self.block_size,
            alignment: self.alignment,
        }
    }
}

} // verus!
