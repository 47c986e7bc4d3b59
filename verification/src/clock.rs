//! The wall clock, read as milliseconds since the Unix epoch.
use vstd::prelude::*;

verus! {

#[verifier::external_type_specification]
#[verifier::external_body]
pub struct ExSystemTime(std::time::SystemTime);

/// `SystemTime::now`: the current time of the system clock. Nothing is
/// stated of it: it is whatever the clock shows.
#[verifier::external_body]
fn system_now() -> (r: std::time::SystemTime) {
    std::time::SystemTime::now()
}

/// `SystemTime::duration_since(UNIX_EPOCH)`, with the error for a time
/// before the epoch read as `None`. Nothing is stated of the duration.
#[verifier::external_body]
fn since_epoch(t: &std::time::SystemTime) -> (r: Option<core::time::Duration>) {
    t.duration_since(std::time::UNIX_EPOCH).ok()
}

/// `Duration::as_millis`: the whole milliseconds of a duration. The
/// duration is opaque here, so nothing is stated of the count.
#[verifier::external_body]
fn whole_millis(d: &core::time::Duration) -> (r: u128) {
    d.as_millis()
}

/// A clock reading in whole milliseconds since the epoch (`None` for a
/// clock set before the epoch) as the library uses it: zero before the
/// epoch, else the count cut to an `i64` as `as` does.
pub fn millis_or_zero(d: Option<u128>) -> (r: i64)
    ensures
        r == (match d {
            Some(ms) => ms as i64,
            None => 0i64,
        }),
{
    match d {
        Some(ms) => {
            #[verifier::truncate]
            (ms as i64)
        },
        None => 0,
    }
}

/// Milliseconds since the Unix epoch by the system clock (zero for a
/// clock set before the epoch), cut to an `i64` as `as` does: the reading
/// of `SystemTime::now` handed to `millis_or_zero`.
pub fn now_ms() -> (r: i64) {
    let reading = match since_epoch(&system_now()) {
        Some(d) => Some(whole_millis(&d)),
        None => None,
    };
    millis_or_zero(reading)
}

} // verus!
