//! The wall clock, in whole seconds since the Unix epoch.

use vstd::prelude::*;
use std::time::{Duration, SystemTime, UNIX_EPOCH};

verus! {

/// `std::time::SystemTime`, carried through opaquely.
#[verifier::external_type_specification]
#[verifier::external_body]
pub struct ExSystemTime(SystemTime);

/// Reads the system clock with `SystemTime::now`.
///
/// Trusted: nothing is claimed of the reading.
#[verifier::external_body]
fn system_time_now() -> (now: SystemTime) {
    SystemTime::now()
}

/// The time from the Unix epoch to `time`, by `SystemTime::duration_since`.
///
/// Trusted: nothing is claimed of the result. It is `None` where the call
/// reports that `time` lies before the epoch.
#[verifier::external_body]
fn since_unix_epoch(time: &SystemTime) -> (elapsed: Option<Duration>) {
    time.duration_since(UNIX_EPOCH).ok()
}

/// The whole seconds of a duration, by `Duration::as_secs`.
///
/// Trusted: nothing is claimed of the result.
#[verifier::external_body]
fn whole_seconds(elapsed: &Duration) -> (secs: u64) {
    elapsed.as_secs()
}

/// The current wall-clock time in seconds since the Unix epoch, or `None`
/// while the system clock stands before the epoch.
pub(crate) fn unix_seconds() -> (secs: Option<u64>) {
    let now = system_time_now();
    match since_unix_epoch(&now) {
        Some(elapsed) => Some(whole_seconds(&elapsed)),
        None => None,
    }
}

} // verus!
