//! Wall-clock time as plain integers.
use vstd::prelude::*;

verus! {

/// Nanoseconds since the UNIX epoch.
pub type Timestamp = u64;

/// Nanoseconds in a second.
pub const NANOS_PER_SECOND: u64 = 1_000_000_000;

#[verifier::external_type_specification]
#[verifier::external_body]
pub struct ExSystemTime(std::time::SystemTime);

/// Reads the system clock with `SystemTime::now`. Nothing is stated of the
/// value: it is the time.
#[verifier::external_body]
fn system_time_now() -> (t: std::time::SystemTime) {
    std::time::SystemTime::now()
}

/// `SystemTime::duration_since(UNIX_EPOCH)`: the time elapsed since the epoch,
/// or `None` for a time before it. Nothing is stated of the value: it depends
/// on the time read.
#[verifier::external_body]
fn duration_since_epoch(t: &std::time::SystemTime) -> (d: Option<std::time::Duration>) {
    match t.duration_since(std::time::UNIX_EPOCH) {
        Ok(d) => Some(d),
        Err(_) => None,
    }
}

/// `Duration::as_nanos`: the whole nanoseconds of `d`. Nothing is stated of
/// the value, since the duration is opaque here.
#[verifier::external_body]
fn duration_as_nanos(d: &std::time::Duration) -> (n: u128) {
    d.as_nanos()
}

/// The system clock as nanoseconds since the UNIX epoch: 0 for a clock set
/// before the epoch, and the low 64 bits of the count otherwise.
pub fn now() -> (t: Timestamp) {
    let time = system_time_now();
    match duration_since_epoch(&time) {
        Some(d) => {
            let nanos = duration_as_nanos(&d);
            #[verifier::truncate]
            (nanos as u64)
        },
        None => 0,
    }
}

/// Whole seconds elapsed from `since` to `now`, as `SystemTime::elapsed().as_secs()`
/// counts them.
pub open spec fn elapsed_secs(since: Timestamp, now: Timestamp) -> int {
    (now - since) / (NANOS_PER_SECOND as int)
}

/// Whole seconds elapsed from `since` to `now`.
pub fn elapsed_seconds(since: Timestamp, now: Timestamp) -> (s: u64)
    requires
        since <= now,
    ensures
        s == elapsed_secs(since, now),
{
    (now - since) / NANOS_PER_SECOND
}

} // verus!
