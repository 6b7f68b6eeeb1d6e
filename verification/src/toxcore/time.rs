//! Points in time, as the caller's clock gives them.

use vstd::prelude::*;

verus! {

/// Number of nanoseconds in a second.
pub const NANOS_PER_SEC: u64 = 1_000_000_000;

/// A point in time: the nanoseconds that a monotonic clock has counted since
/// an origin that the caller picks.
#[derive(Clone, Copy, Debug, PartialEq, Eq, Structural)]
pub struct Instant(pub u64);

impl Instant {
    /// The point `secs` seconds after the origin, or the last point that can
    /// be told where that is too far.
    pub fn from_secs(secs: u64) -> (t: Instant)
        ensures
            t.0 == if secs * NANOS_PER_SEC <= u64::MAX {
                secs * NANOS_PER_SEC
            } else {
                u64::MAX as int
            },
    {
        if secs <= u64::MAX / NANOS_PER_SEC {
            assert(secs * NANOS_PER_SEC <= u64::MAX) by (nonlinear_arith)
                requires
                    secs <= u64::MAX / NANOS_PER_SEC,
                    NANOS_PER_SEC == 1_000_000_000,
            ;
            Instant(secs * NANOS_PER_SEC)
        } else {
            assert(secs * NANOS_PER_SEC > u64::MAX) by (nonlinear_arith)
                requires
                    secs > u64::MAX / NANOS_PER_SEC,
                    NANOS_PER_SEC == 1_000_000_000,
            ;
            Instant(u64::MAX)
        }
    }

    /// The point `secs` seconds after this one, or the last point that can
    /// be told where that is too far.
    pub fn plus_secs(self, secs: u64) -> (t: Instant)
        ensures
            t.0 == if self.0 + secs * NANOS_PER_SEC <= u64::MAX {
                self.0 + secs * NANOS_PER_SEC
            } else {
                u64::MAX as int
            },
    {
        let step = Instant::from_secs(secs);
        if step.0 <= u64::MAX - self.0 {
            Instant(self.0 + step.0)
        } else {
            Instant(u64::MAX)
        }
    }

    /// The nanoseconds from `earlier` to this point; zero where `earlier` is
    /// the later of the two.
    pub open spec fn spec_since(self, earlier: Instant) -> int {
        if self.0 >= earlier.0 {
            self.0 - earlier.0
        } else {
            0
        }
    }

    /// Computes [`Self::spec_since`].
    pub fn since(self, earlier: Instant) -> (nanos: u64)
        ensures
            nanos == self.spec_since(earlier),
    {
        if self.0 >= earlier.0 {
            self.0 - earlier.0
        } else {
            0
        }
    }
}

} // verus!
