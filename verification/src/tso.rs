//! Timestamps handed out by the timestamp oracle: a 64-bit value whose high
//! part is physical milliseconds and whose low 18 bits are a logical counter.
//! Timestamps are totally ordered; zero marks "absent" in rollback records.

use vstd::prelude::*;

verus! {

/// Number of low bits reserved for the logical counter.
pub const TS_LOGICAL_BITS: u64 = 18;

/// A transaction timestamp.
#[derive(Clone, Copy, PartialEq, Eq, Structural, Debug, Hash)]
pub struct TimeStamp(pub u64);

impl TimeStamp {
    /// Wraps a plain 64-bit value.
    pub fn new(v: u64) -> (r: TimeStamp)
        ensures
            r.0 == v,
    {
        TimeStamp(v)
    }

    /// The zero timestamp, used as the "absent" marker.
    pub fn zero() -> (r: TimeStamp)
        ensures
            r.0 == 0,
    {
        TimeStamp(0)
    }

    /// The largest possible timestamp.
    pub fn max_value() -> (r: TimeStamp)
        ensures
            r.0 == u64::MAX,
    {
        TimeStamp(u64::MAX)
    }

    /// Builds a timestamp from a physical part (milliseconds) and a logical
    /// counter.
    pub fn compose(physical: u64, logical: u64) -> (r: TimeStamp)
        requires
            physical < 0x4000_0000_0000u64,
            logical < 0x4_0000u64,
        ensures
            r.0 == physical * 0x4_0000 + logical,
    {
        proof {
            assert(physical * 0x4_0000 <= 0x3FFF_FFFF_FFFFu64 * 0x4_0000) by (nonlinear_arith)
                requires
                    physical <= 0x3FFF_FFFF_FFFFu64,
            ;
        }
        TimeStamp(physical * 0x4_0000u64 + logical)
    }

    /// The physical (millisecond) part of the timestamp.
    pub fn physical(&self) -> (r: u64)
        ensures
            r == self.0 >> 18,
    {
        self.0 >> 18
    }

    /// The raw 64-bit value.
    pub fn into_inner(self) -> (r: u64)
        ensures
            r == self.0,
    {
        self.0
    }

    /// Whether this is the zero timestamp.
    pub fn is_zero(&self) -> (r: bool)
        ensures
            r == (self.0 == 0),
    {
        self.0 == 0
    }

    /// Whether this is the largest timestamp.
    pub fn is_max(&self) -> (r: bool)
        ensures
            r == (self.0 == u64::MAX),
    {
        self.0 == u64::MAX
    }

    /// The next timestamp.
    pub fn next(self) -> (r: TimeStamp)
        requires
            self.0 < u64::MAX,
        ensures
            r.0 == self.0 + 1,
    {
        TimeStamp(self.0 + 1)
    }

    /// Advances this timestamp by one.
    pub fn incr(&mut self)
        requires
            old(self).0 < u64::MAX,
        ensures
            final(self).0 == old(self).0 + 1,
    {
        self.0 = self.0 + 1;
    }
}

} // verus!
