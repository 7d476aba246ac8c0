//! The anti-spam cooldown: a sound attributable to a user may play at most
//! once every thirty seconds, counting the more recent of the user's local
//! and global playback timestamps.

use vstd::prelude::*;

verus! {

/// Minimum number of seconds between two playbacks attributable to one user.
pub const COOLDOWN_SECONDS: u64 = 30;

/// The more recent of two optional timestamps; `None` only when both are absent.
pub open spec fn spec_more_recent(a: Option<u64>, b: Option<u64>) -> Option<u64> {
    match (a, b) {
        (Some(x), Some(y)) => if x >= y { Some(x) } else { Some(y) },
        (Some(x), None) => Some(x),
        (None, Some(y)) => Some(y),
        (None, None) => None,
    }
}

/// Whether a playback at `now` is still blocked by a last playback at `last`.
/// A timestamp in the future (clock skew) also blocks, as a negative age would.
pub open spec fn spec_cooldown_active(last: Option<u64>, now: u64) -> bool {
    match last {
        Some(t) => now < t + COOLDOWN_SECONDS,
        None => false,
    }
}

/// Pick the more recent of two optional timestamps, the instant that governs
/// the cooldown across a user's local and global rows.
pub fn more_recent(a: Option<u64>, b: Option<u64>) -> (r: Option<u64>)
    ensures
        r == spec_more_recent(a, b),
{
    match (a, b) {
        (Some(x), Some(y)) => if x >= y { Some(x) } else { Some(y) },
        (Some(x), None) => Some(x),
        (None, Some(y)) => Some(y),
        (None, None) => None,
    }
}

/// Whether the cooldown still blocks a playback at `now`.
pub fn cooldown_active(last: Option<u64>, now: u64) -> (r: bool)
    ensures
        r == spec_cooldown_active(last, now),
{
    match last {
        Some(t) => t >= now || now - t < COOLDOWN_SECONDS,
        None => false,
    }
}

} // verus!
