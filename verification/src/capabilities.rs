use vstd::prelude::*;
use vstd::std_specs::ops::BitOrSpecImpl;

verus! {

/// The set of operations that a device or disk supports.
///
/// Each operation is one flag; a set is built from the single-flag
/// constructors with `|` (or `union`) and queried with `contains`.
#[derive(Debug, Clone, Copy, PartialEq, Eq, Structural)]
pub struct Capabilities {
    pub read: bool,
    pub write: bool,
    pub flush: bool,
    pub write_zero: bool,
    pub discard: bool,
    pub extents: bool,
}

impl Capabilities {
    /// The empty set.
    pub fn empty() -> (c: Capabilities)
        ensures
            c == Capabilities::spec_empty(),
    {
        Capabilities {
            read: false,
            write: false,
            flush: false,
            write_zero: false,
            discard: false,
            extents: false,
        }
    }

    pub open spec fn spec_empty() -> Capabilities {
        Capabilities {
            read: false,
            write: false,
            flush: false,
            write_zero: false,
            discard: false,
            extents: false,
        }
    }

    /// Reading is supported.
    pub fn read() -> (c: Capabilities)
        ensures
            c == (Capabilities { read: true, ..Capabilities::spec_empty() }),
    {
        Capabilities { read: true, ..Capabilities::empty() }
    }

    /// Writing is supported.
    pub fn write() -> (c: Capabilities)
        ensures
            c == (Capabilities { write: true, ..Capabilities::spec_empty() }),
    {
        Capabilities { write: true, ..Capabilities::empty() }
    }

    /// Flushing is supported.
    pub fn flush() -> (c: Capabilities)
        ensures
            c == (Capabilities { flush: true, ..Capabilities::spec_empty() }),
    {
        Capabilities { flush: true, ..Capabilities::empty() }
    }

    /// Zeroing a range without a data transfer is supported.
    pub fn write_zero() -> (c: Capabilities)
        ensures
            c == (Capabilities { write_zero: true, ..Capabilities::spec_empty() }),
    {
        Capabilities { write_zero: true, ..Capabilities::empty() }
    }

    /// Discarding (deallocating) a range is supported.
    pub fn discard() -> (c: Capabilities)
        ensures
            c == (Capabilities { discard: true, ..Capabilities::spec_empty() }),
    {
        Capabilities { discard: true, ..Capabilities::empty() }
    }

    /// The device can describe its extent map.
    pub fn extents() -> (c: Capabilities)
        ensures
            c == (Capabilities { extents: true, ..Capabilities::spec_empty() }),
    {
        Capabilities { extents: true, ..Capabilities::empty() }
    }

    /// Set union.
    pub open spec fn spec_union(self, other: Capabilities) -> Capabilities {
        Capabilities {
            read: self.read || other.read,
            write: self.write || other.write,
            flush: self.flush || other.flush,
            write_zero: self.write_zero || other.write_zero,
            discard: self.discard || other.discard,
            extents: self.extents || other.extents,
        }
    }

    /// Set inclusion: every flag of `other` is in `self`.
    pub open spec fn spec_contains(self, other: Capabilities) -> bool {
        &&& other.read ==> self.read
        &&& other.write ==> self.write
        &&& other.flush ==> self.flush
        &&& other.write_zero ==> self.write_zero
        &&& other.discard ==> self.discard
        &&& other.extents ==> self.extents
    }

    pub fn union(self, other: Capabilities) -> (c: Capabilities)
        ensures
            c == self.spec_union(other),
    {
        Capabilities {
            read: self.read || other.read,
            write: self.write || other.write,
            flush: self.flush || other.flush,
            write_zero: self.write_zero || other.write_zero,
            discard: self.discard || other.discard,
            extents: self.extents || other.extents,
        }
    }

    pub fn contains(&self, other: Capabilities) -> (r: bool)
        ensures
            r == self.spec_contains(other),
    {
        (!other.read || self.read) && (!other.write || self.write) && (!other.flush || self.flush)
            && (!other.write_zero || self.write_zero) && (!other.discard || self.discard) && (
        !other.extents || self.extents)
    }
}

impl core::ops::BitOr for Capabilities {
    type Output = Capabilities;

    fn bitor(self, rhs: Capabilities) -> (c: Capabilities) {
        self.union(rhs)
    }
}

impl BitOrSpecImpl for Capabilities {
    open spec fn obeys_bitor_spec() -> bool {
        true
    }

    open spec fn bitor_req(self, rhs: Capabilities) -> bool {
        true
    }

    open spec fn bitor_spec(self, rhs: Capabilities) -> Capabilities {
        self.spec_union(rhs)
    }
}


} // verus!
