//! The cost meter: counts of logical reads and writes.

use vstd::prelude::*;

verus! {

/// `a + b`, clamped to the largest `u64`.
pub open spec fn saturating_sum(a: u64, b: nat) -> u64 {
    if a + b > u64::MAX {
        u64::MAX
    } else {
        (a + b) as u64
    }
}

/// Counts of the logical reads and writes that an operation performed. The
/// counts saturate; pricing them is left to the caller.
#[derive(Clone, Copy, Debug, PartialEq, Eq, Structural)]
pub struct Weight {
    pub reads: u64,
    pub writes: u64,
}

impl Weight {
    /// The meter after `reads` more reads and `writes` more writes.
    pub open spec fn accrued(self, reads: nat, writes: nat) -> Weight {
        Weight {
            reads: saturating_sum(self.reads, reads),
            writes: saturating_sum(self.writes, writes),
        }
    }

    /// A meter that has counted nothing.
    pub fn zero() -> (w: Weight)
        ensures
            w == (Weight { reads: 0, writes: 0 }),
    {
        Weight { reads: 0, writes: 0 }
    }

    /// A meter that has counted `reads` reads and `writes` writes.
    pub fn from_reads_writes(reads: u64, writes: u64) -> (w: Weight)
        ensures
            w == (Weight { reads, writes }),
    {
        Weight { reads, writes }
    }

    /// Counts `reads` more reads and `writes` more writes.
    pub fn saturating_accrue(&mut self, reads: u64, writes: u64)
        ensures
            *final(self) == old(self).accrued(reads as nat, writes as nat),
    {
        self.reads = self.reads.saturating_add(reads);
        self.writes = self.writes.saturating_add(writes);
    }
}

} // verus!
