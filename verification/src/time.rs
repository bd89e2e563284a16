//! Time on the service's own epoch.

use vstd::prelude::*;

verus! {

/// The time epoch used for the database. Equivalent to 2023-01-01T00:00:00Z,
/// in milliseconds since the Unix epoch.
pub const DB_EPOCH: i64 = 1672531200000;

/// `std::time::SystemTime`, carried through as it is.
#[verifier::external_type_specification]
#[verifier::external_body]
pub struct ExSystemTime(std::time::SystemTime);

/// `chrono::Utc::now().timestamp_millis()`: the system clock in milliseconds
/// since the Unix epoch. The reading is never negative: chrono takes it from
/// the time that has passed since 1970, and does not return where the clock
/// is set before that.
#[verifier::external_body]
fn unix_millis_now() -> (r: i64)
    ensures
        0 <= r,
{
    chrono::Utc::now().timestamp_millis()
}

/// `std::time::Duration::from_millis`: the span of `millis` milliseconds.
#[verifier::external_body]
fn duration_from_millis(millis: u64) -> std::time::Duration {
    std::time::Duration::from_millis(millis)
}

/// `std::time::SystemTime::checked_add` on `UNIX_EPOCH`: the point in time
/// that lies `span` after the Unix epoch, or `None` where the machine's
/// clock type cannot hold it.
#[verifier::external_body]
fn systime_after_unix_epoch(span: std::time::Duration) -> Option<std::time::SystemTime> {
    std::time::UNIX_EPOCH.checked_add(span)
}

/// Milliseconds since the Unix epoch of a timestamp on the database epoch.
pub open spec fn unix_millis(timestamp: u64) -> int {
    timestamp + DB_EPOCH
}

/// Returns the current (UTC) time in milliseconds since the database epoch.
pub fn now() -> (r: i64)
    ensures
        -DB_EPOCH <= r,
{
    unix_millis_now() - DB_EPOCH
}

/// Shifts a timestamp from the database epoch to the Unix epoch, or gives
/// `None` when the sum does not fit in 64 bits.
pub fn checked_unix_millis(timestamp: u64) -> (r: Option<u64>)
    ensures
        match r {
            Some(millis) => millis == unix_millis(timestamp),
            None => unix_millis(timestamp) > u64::MAX,
        },
{
    timestamp.checked_add(1672531200000u64)
}

/// Converts a timestamp in (UTC) milliseconds since the database epoch to a
/// [`std::time::SystemTime`]. The result is `None` when the milliseconds
/// since the Unix epoch do not fit in 64 bits, or the machine's clock type
/// cannot hold the point in time.
pub fn into_systime(timestamp: u64) -> (r: Option<std::time::SystemTime>)
    ensures
        unix_millis(timestamp) > u64::MAX ==> r is None,
{
    match checked_unix_millis(timestamp) {
        Some(millis) => systime_after_unix_epoch(duration_from_millis(millis)),
        None => None,
    }
}

} // verus!
