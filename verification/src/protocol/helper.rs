use std::time::{Duration, SystemTime, UNIX_EPOCH};
use vstd::prelude::*;

verus! {

#[verifier::external_type_specification]
#[verifier::external_body]
pub struct ExSystemTime(SystemTime);

/// The MD5 digest of a byte string. What it is takes pages to state; it depends on the bytes
/// alone.
pub uninterp spec fn md5_of(data: Seq<u8>) -> Seq<u8>;

/// `md5::compute`: the digest is `md5_of` the bytes, sixteen bytes long.
#[verifier::external_body]
pub(crate) fn md5_digest(data: &[u8]) -> (digest: [u8; 16])
    ensures
        digest@ == md5_of(data@),
{
    md5::compute(data).0
}

/// `rand::random::<[u8; 16]>`: sixteen bytes drawn by the thread's generator; nothing is
/// promised of their values.
#[verifier::external_body]
pub(crate) fn random_block() -> (block: [u8; 16]) {
    rand::random::<[u8; 16]>()
}

/// `SystemTime::now`: the clock's reading, of which nothing is promised.
#[verifier::external_body]
pub(crate) fn system_now() -> (now: SystemTime) {
    SystemTime::now()
}

/// `SystemTime::duration_since(UNIX_EPOCH)`: `None` when the time lies before the epoch. The
/// length of the duration is left unsaid.
#[verifier::external_body]
fn since_unix_epoch(time: &SystemTime) -> (elapsed: Option<Duration>) {
    time.duration_since(UNIX_EPOCH).ok()
}

/// `Duration::as_secs`: the whole seconds of a duration; `Duration` is opaque here, so nothing
/// ties the number to it.
#[verifier::external_body]
fn whole_secs(duration: &Duration) -> (secs: u64) {
    duration.as_secs()
}

/// `Duration::as_millis`: the whole milliseconds of a duration; `Duration` is opaque here, so
/// nothing ties the number to it.
#[verifier::external_body]
fn whole_millis(duration: &Duration) -> (millis: u128) {
    duration.as_millis()
}

/// Seconds since the Unix epoch by the system clock, 0 for a clock set before the epoch.
pub fn current_unix_timestamp_as_secs() -> (secs: u64) {
    match since_unix_epoch(&system_now()) {
        Some(elapsed) => whole_secs(&elapsed),
        None => 0,
    }
}

/// Milliseconds since the Unix epoch by the system clock, 0 for a clock set before the epoch.
pub fn current_unix_timestamp_as_millis() -> (millis: u128) {
    match since_unix_epoch(&system_now()) {
        Some(elapsed) => whole_millis(&elapsed),
        None => 0,
    }
}

} // verus!
