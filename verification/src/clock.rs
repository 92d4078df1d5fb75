//! A total reading of the system clock as whole seconds since the Unix
//! epoch: negative for clocks set before it, saturating at the ends of the
//! `i64` range. Every branch of the conversion is verified; only the raw
//! clock reads are trusted.
use vstd::prelude::*;

verus! {

/// Relies on std's `SystemTime`, declared opaque: a reading of the clock.
#[verifier::external_type_specification]
#[verifier::external_body]
pub struct ExSystemTime(std::time::SystemTime);

/// Relies on std's `SystemTimeError`, declared opaque: the span by which a
/// clock reading lies before the reference time.
#[verifier::external_type_specification]
#[verifier::external_body]
pub struct ExSystemTimeError(std::time::SystemTimeError);

/// Relies on std's `SystemTime::now`: reads the system clock. Nothing is
/// assumed of the value, and the call does not panic.
#[verifier::external_body]
fn system_time_now() -> std::time::SystemTime {
    std::time::SystemTime::now()
}

/// Relies on std's `SystemTime::duration_since`, against `UNIX_EPOCH`:
/// `Ok` with the span since the epoch, `Err` when the clock reads earlier;
/// it never panics.
#[verifier::external_body]
fn duration_since_unix_epoch(t: &std::time::SystemTime) -> Result<
    core::time::Duration,
    std::time::SystemTimeError,
> {
    t.duration_since(std::time::UNIX_EPOCH)
}

/// Relies on std's `Duration::as_secs`: the whole seconds of the span.
#[verifier::external_body]
fn duration_secs(d: &core::time::Duration) -> u64 {
    d.as_secs()
}

/// Relies on std's `SystemTimeError::duration`: how far the clock reading
/// lies before the reference time.
#[verifier::external_body]
fn error_duration(e: &std::time::SystemTimeError) -> core::time::Duration {
    e.duration()
}

/// The clock as whole seconds since the Unix epoch. Total: a clock before
/// the epoch gives the negated span, and spans beyond the `i64` range
/// saturate. Nothing is assumed of the value drawn.
pub fn now_unix_seconds() -> i64 {
    let t = system_time_now();
    match duration_since_unix_epoch(&t) {
        Ok(d) => {
            let s = duration_secs(&d);
            if s > i64::MAX as u64 {
                i64::MAX
            } else {
                s as i64
            }
        },
        Err(e) => {
            let d = error_duration(&e);
            let s = duration_secs(&d);
            if s >= 9223372036854775808u64 {
                i64::MIN
            } else {
                -(s as i64)
            }
        },
    }
}

} // verus!
