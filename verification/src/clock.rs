//! The wall clock. Timestamps in the registry are whole seconds since the
//! Unix epoch; the one reading of the clock lives here, behind a trusted
//! boundary, and everything computed from a timestamp takes it as a plain
//! value.

use vstd::prelude::*;

use crate::registry::{spec_bumped, SoundRecord, SoundRegistry};

verus! {

/// Relies on chrono::Utc::now, which reads the system clock, and
/// DateTime::timestamp, which renders that instant as whole seconds since
/// the Unix epoch. Nothing is assumed of the value: the clock belongs to the
/// environment. (On a clock set before the epoch the call itself aborts.)
#[verifier::external_body]
fn current_unix_seconds() -> (t: i64) {
    chrono::Utc::now().timestamp()
}

/// The present moment as the registry counts it: whole seconds since the
/// epoch. Whatever the clock returns is handled; a pre-epoch reading counts
/// as the epoch itself.
pub fn now_timestamp() -> (t: u64) {
    let raw = current_unix_seconds();
    if raw >= 0 {
        raw as u64
    } else {
        0
    }
}

/// Stamp the row at this scope with the present moment and hand the used
/// timestamp back; the row's timestamp never moves backwards, so it stays
/// monotone even across clock skew.
pub fn set_last_played_now(reg: &mut SoundRegistry, user_id: u64, scope: Option<u64>) -> (t: u64)
    requires
        old(reg).wf(),
    ensures
        final(reg).wf(),
        if old(reg).table().dom().contains((user_id, scope)) {
            final(reg).table() == old(reg).table().insert(
                (user_id, scope),
                SoundRecord {
                    path: old(reg).table()[(user_id, scope)].path,
                    last_played: Some(
                        spec_bumped(old(reg).table()[(user_id, scope)].last_played, t),
                    ),
                },
            )
        } else {
            final(reg).table() == old(reg).table()
        },
{
    let t = now_timestamp();
    reg.set_last_played(user_id, scope, t);
    t
}

} // verus!
