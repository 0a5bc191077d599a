//! The wall clock, behind trusted wrappers.
//!
//! The tracker core works on plain epoch seconds and local clock parts;
//! only the functions here touch the clock itself.

use vstd::prelude::*;

verus! {

/// Relies on chrono::Local::now and chrono::DateTime::timestamp: the wall
/// clock now, as whole seconds since the Unix epoch. The value depends on
/// the machine's clock, so nothing is promised of it.
#[verifier::external_body]
fn now_timestamp() -> i64 {
    chrono::Local::now().timestamp()
}

/// The wall clock now, clamped below at the epoch.
pub(crate) fn now_seconds() -> u64 {
    let t = now_timestamp();
    if t < 0 {
        0
    } else {
        t as u64
    }
}

/// Relies on chrono::DateTime::from_timestamp_secs, DateTime::with_timezone
/// and the chrono::Timelike accessors hour, minute and second: the local
/// wall-clock parts of the given epoch second, or None when it lies outside
/// chrono's representable range. chrono documents the hour as 0 to 23 and
/// the minute and second as 0 to 59; the exact values depend on the
/// machine's time zone, so only those bounds are promised.
#[verifier::external_body]
pub(crate) fn local_clock_parts(t: u64) -> (r: Option<(u32, u32, u32)>)
    ensures
        r matches Some(p) ==> p.0 < 24 && p.1 < 60 && p.2 < 60,
{
    match chrono::DateTime::from_timestamp_secs(t as i64) {
        Some(utc) => {
            let local = utc.with_timezone(&chrono::Local);
            Some((
                chrono::Timelike::hour(&local),
                chrono::Timelike::minute(&local),
                chrono::Timelike::second(&local),
            ))
        },
        None => None,
    }
}

} // verus!
