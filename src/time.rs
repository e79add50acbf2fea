//! Local time, counted in milliseconds.
use vstd::prelude::*;

verus! {

/// A point in local time, in milliseconds since an arbitrary epoch.
pub type LocalTime = u64;

/// A span of local time, in milliseconds.
pub type LocalDuration = u64;

/// One second.
pub const SECOND: LocalDuration = 1000;

/// One minute.
pub const MINUTE: LocalDuration = 60_000;

/// Time elapsed from `since` to `now`: zero when `since` lies after `now`.
pub open spec fn elapsed_spec(now: LocalTime, since: LocalTime) -> LocalDuration {
    if now >= since {
        (now - since) as u64
    } else {
        0
    }
}

/// Time elapsed from `since` to `now`, saturating at zero.
pub fn elapsed(now: LocalTime, since: LocalTime) -> (r: LocalDuration)
    ensures
        r == elapsed_spec(now, since),
{
    now.saturating_sub(since)
}

} // verus!
