//! Reading the system clock.
use vstd::prelude::*;

verus! {

#[verifier::external_type_specification]
#[verifier::external_body]
pub struct ExSystemTime(std::time::SystemTime);

/// `std::time::Instant`, held opaque by `RequestStatus::Loading`, which
/// records when a request started.
#[verifier::external_type_specification]
#[verifier::external_body]
pub struct ExInstant(std::time::Instant);

/// `SystemTime::now`: the current time; nothing is known of it.
#[verifier::external_body]
fn system_now() -> std::time::SystemTime {
    std::time::SystemTime::now()
}

/// `SystemTime::duration_since(UNIX_EPOCH)`: the time elapsed since the
/// epoch, or `None` when the time lies before it; nothing is known of the
/// result.
#[verifier::external_body]
fn since_epoch(t: &std::time::SystemTime) -> Option<std::time::Duration> {
    match t.duration_since(std::time::UNIX_EPOCH) {
        Ok(d) => Some(d),
        Err(_) => None,
    }
}

/// `Duration::as_secs`; the duration is opaque, so nothing is known of it.
#[verifier::external_body]
fn whole_secs(d: &std::time::Duration) -> u64 {
    d.as_secs()
}

/// `Duration::as_millis`: the whole milliseconds of the duration. The
/// duration is opaque; all that is stated is that a duration holds at most
/// `u64::MAX` seconds and less than a second more (`Duration::MAX`).
#[verifier::external_body]
fn whole_millis(d: &std::time::Duration) -> (r: u128)
    ensures
        r <= u64::MAX as u128 * 1000 + 999,
{
    d.as_millis()
}

/// `Duration::as_nanos`: the whole nanoseconds of the duration. The
/// duration is opaque; all that is stated is that a duration holds at most
/// `u64::MAX` seconds and less than a second more (`Duration::MAX`).
#[verifier::external_body]
fn whole_nanos(d: &std::time::Duration) -> (r: u128)
    ensures
        r <= u64::MAX as u128 * 1_000_000_000 + 999_999_999,
{
    d.as_nanos()
}

/// Whole seconds since the Unix epoch (0 before it).
pub fn unix_secs() -> u64 {
    let t = system_now();
    match since_epoch(&t) {
        Some(d) => whole_secs(&d),
        None => 0,
    }
}

/// Whole milliseconds since the Unix epoch (0 before it): at most the
/// milliseconds in `u64::MAX` seconds and 999 more.
pub fn unix_millis() -> (r: u128)
    ensures
        r <= u64::MAX as u128 * 1000 + 999,
{
    let t = system_now();
    match since_epoch(&t) {
        Some(d) => whole_millis(&d),
        None => 0,
    }
}

/// Whole nanoseconds since the Unix epoch (0 before it): at most the
/// nanoseconds in `u64::MAX` seconds and 999999999 more.
pub fn unix_nanos() -> (r: u128)
    ensures
        r <= u64::MAX as u128 * 1_000_000_000 + 999_999_999,
{
    let t = system_now();
    match since_epoch(&t) {
        Some(d) => whole_nanos(&d),
        None => 0,
    }
}

} // verus!
