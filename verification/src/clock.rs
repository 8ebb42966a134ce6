//! The wall clock, in milliseconds since the Unix epoch.

use std::time::{Duration, SystemTime};
use vstd::prelude::*;

verus! {

/// Makes `std::time::SystemTime` known to the verifier, as an opaque type.
#[verifier::external_type_specification]
#[verifier::external_body]
pub struct ExSystemTime(SystemTime);

/// The whole milliseconds that a span of time holds.
pub uninterp spec fn duration_millis(span: Duration) -> u128;

/// Calls `SystemTime::now`. Nothing is promised of the instant.
#[verifier::external_body]
fn system_now() -> SystemTime {
    SystemTime::now()
}

/// Calls `SystemTime::duration_since` with `UNIX_EPOCH`; `None` stands for
/// its error. Trusted: the span is a function of the instant.
#[verifier::external_body]
fn since_epoch(instant: &SystemTime) -> (elapsed: Option<Duration>)
    ensures
        elapsed == span_since_epoch(*instant),
{
    instant.duration_since(std::time::UNIX_EPOCH).ok()
}

/// Calls `Duration::as_millis`. Trusted: the count is a function of the span.
#[verifier::external_body]
fn whole_millis(span: &Duration) -> (ms: u128)
    ensures
        ms == duration_millis(*span),
{
    span.as_millis()
}

/// The milliseconds of a span since the epoch, 0 where there is none.
pub fn millis_or_zero(elapsed: Option<Duration>) -> (ms: u128)
    ensures
        ms == match elapsed {
            Some(span) => duration_millis(span),
            None => 0,
        },
{
    match elapsed {
        Some(span) => whole_millis(&span),
        None => 0,
    }
}

/// The time of day in milliseconds since the Unix epoch, 0 where the clock
/// stands before it.
pub fn now_ms() -> (ms: u128)
    ensures
        exists|instant: SystemTime| ms == #[trigger] epoch_millis(instant),
{
    let instant = system_now();
    let ms = millis_or_zero(since_epoch(&instant));
    assert(ms == epoch_millis(instant));
    ms
}

/// The span from the Unix epoch to an instant; `None` for an instant before it.
pub uninterp spec fn span_since_epoch(instant: SystemTime) -> Option<Duration>;

/// The milliseconds from the Unix epoch to an instant, 0 for an instant
/// before it. The clock decides the instant; this is all else that `now_ms`
/// does.
pub open spec fn epoch_millis(instant: SystemTime) -> u128 {
    match span_since_epoch(instant) {
        Some(span) => duration_millis(span),
        None => 0,
    }
}

} // verus!
