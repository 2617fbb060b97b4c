//! When a poller may read again: not before its interval has passed.
//! Times are readings of one monotonic clock, in milliseconds.

use vstd::prelude::*;

verus! {

/// Whether a refresh is due at `now`, the last one having been at `last`: at
/// least `interval` has passed. A clock that went back makes nothing due.
pub open spec fn is_due(last: u64, now: u64, interval: u64) -> bool {
    now - last >= interval
}

/// Decides `is_due`.
pub fn due(last: u64, now: u64, interval: u64) -> (r: bool)
    ensures
        r == is_due(last, now, interval),
{
    now >= last && now - last >= interval
}

} // verus!
