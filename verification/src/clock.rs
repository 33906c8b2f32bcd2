//! Wall-clock time. Nothing is claimed about the values read: they depend on
//! the machine's clock.

use vstd::prelude::*;
use core::time::Duration;
use std::time::{SystemTime, SystemTimeError};

verus! {

#[verifier::external_type_specification]
#[verifier::external_body]
pub struct ExSystemTime(SystemTime);

#[verifier::external_type_specification]
#[verifier::external_body]
pub struct ExSystemTimeError(SystemTimeError);

/// `SystemTime::now`.
#[verifier::external_body]
fn system_now() -> SystemTime {
    SystemTime::now()
}

/// `SystemTime::duration_since(UNIX_EPOCH)`.
#[verifier::external_body]
fn since_unix_epoch(t: &SystemTime) -> Result<Duration, SystemTimeError> {
    t.duration_since(std::time::UNIX_EPOCH)
}

/// `Duration::as_secs`.
#[verifier::external_body]
fn whole_seconds(d: &Duration) -> u64 {
    d.as_secs()
}

/// `Duration::as_nanos`.
#[verifier::external_body]
fn whole_nanos(d: &Duration) -> u128 {
    d.as_nanos()
}

/// Seconds since the Unix epoch (0 if the clock is before it).
pub fn now() -> u64 {
    match since_unix_epoch(&system_now()) {
        Ok(d) => whole_seconds(&d),
        Err(_) => 0,
    }
}

/// Nanoseconds since the Unix epoch (0 if the clock is before it).
pub fn now_nanos() -> u128 {
    match since_unix_epoch(&system_now()) {
        Ok(d) => whole_nanos(&d),
        Err(_) => 0,
    }
}

} // verus!
