//! Absolute instants.
//!
//! An instant is a point on the UTC timeline, held as whole seconds since the
//! Unix epoch plus a nanosecond remainder. The second count is bounded by
//! what an RFC 3339 timestamp with a four-digit year and an explicit offset
//! can denote, so every stored instant can be rendered back as text.

use vstd::prelude::*;
use crate::calendar::{days_before_year, DAYS_TO_UNIX_EPOCH};

verus! {

/// Smallest second count an accepted timestamp can denote:
/// 0000-01-01T00:00:00 with offset +23:59.
pub open spec fn min_epoch_secs() -> int {
    (0 - DAYS_TO_UNIX_EPOCH) * 86400 - 86340
}

/// Largest second count an accepted timestamp can denote:
/// 9999-12-31T23:59:59 with offset -23:59.
pub open spec fn max_epoch_secs() -> int {
    (days_before_year(10000) - 1 - DAYS_TO_UNIX_EPOCH) * 86400 + 86399 + 86340
}

/// An absolute point in time, zone-independent.
#[derive(Clone, Copy, Debug, PartialEq, Eq, Structural)]
pub struct Instant {
    /// Whole seconds since 1970-01-01T00:00:00 UTC (negative before it).
    pub secs: i64,
    /// Nanoseconds past `secs`, always below one second.
    pub nanos: u32,
}

impl Instant {
    pub open spec fn wf(self) -> bool {
        &&& min_epoch_secs() <= self.secs as int <= max_epoch_secs()
        &&& self.nanos < 1_000_000_000
    }
}

} // verus!
