//! Clock readings: the time since the Unix epoch in milliseconds and in
//! whole seconds.

use vstd::prelude::*;

verus! {

#[verifier::external_type_specification]
#[verifier::external_body]
pub struct ExSystemTime(std::time::SystemTime);

/// The current time.
///
/// Trusted: calls `SystemTime::now`. The time depends on the clock, so
/// nothing is claimed of it.
#[verifier::external_body]
fn system_now() -> (r: std::time::SystemTime)
{
    std::time::SystemTime::now()
}

/// The time elapsed from the Unix epoch to `t`; `None` when `t` lies
/// before the epoch.
///
/// Trusted: calls `SystemTime::duration_since(UNIX_EPOCH)` and drops its
/// error. Which duration comes back depends on `t`, which is opaque here,
/// so nothing more is claimed.
#[verifier::external_body]
fn since_epoch(t: &std::time::SystemTime) -> (r: Option<std::time::Duration>)
{
    t.duration_since(std::time::UNIX_EPOCH).ok()
}

/// The whole seconds of a duration.
///
/// Trusted: calls `Duration::as_secs`. The duration is opaque here, so
/// nothing is claimed of the result.
#[verifier::external_body]
fn duration_secs(d: &std::time::Duration) -> (r: u64)
{
    d.as_secs()
}

/// The fractional part of a duration, in nanoseconds.
///
/// Trusted: calls `Duration::subsec_nanos`, which the standard library
/// documents as always below one second.
#[verifier::external_body]
fn duration_subsec_nanos(d: &std::time::Duration) -> (r: u32)
    ensures
        r < 1_000_000_000,
{
    d.subsec_nanos()
}

/// Reads the clock: whole seconds and remaining nanoseconds since the Unix
/// epoch, or `None` when the clock is set before it.
fn read_clock() -> (r: Option<(u64, u32)>)
    ensures
        r matches Some(d) ==> d.1 < 1_000_000_000,
{
    match since_epoch(&system_now()) {
        Some(d) => Some((duration_secs(&d), duration_subsec_nanos(&d))),
        None => None,
    }
}

/// The whole milliseconds of an elapsed time.
pub open spec fn elapsed_millis(secs: u64, nanos: u32) -> int {
    secs * 1000 + nanos / 1_000_000
}

/// The millisecond reading of an elapsed time, as `Duration::as_millis`
/// followed by a cast to `i64` gives it (the cast keeps the low 64 bits);
/// zero when the time lies before the epoch.
pub fn millis_of(elapsed: Option<(u64, u32)>) -> (r: i64)
    ensures
        r == millis_of_spec(elapsed),
{
    match elapsed {
        Some((secs, nanos)) => {
            let millis: u128 = (secs as u128) * 1000 + ((nanos / 1_000_000) as u128);
            #[verifier::truncate]
            (millis as i64)
        },
        None => 0,
    }
}

/// The second reading of an elapsed time; zero when the time lies before
/// the epoch.
pub fn secs_of(elapsed: Option<(u64, u32)>) -> (r: u64)
    ensures
        r == secs_of_spec(elapsed),
{
    match elapsed {
        Some((secs, _)) => secs,
        None => 0,
    }
}

/// Milliseconds since the Unix epoch (zero when the clock is set before it).
pub fn now() -> (r: i64)
    ensures
        exists|e: Option<(u64, u32)>| r == millis_of_spec(e),
{
    let e = read_clock();
    let r = millis_of(e);
    assert(r == millis_of_spec(e));
    r
}

/// Whole seconds since the Unix epoch (zero when the clock is set before it).
pub fn unix() -> (r: u64)
    ensures
        exists|e: Option<(u64, u32)>| r == secs_of_spec(e),
{
    let e = read_clock();
    let r = secs_of(e);
    assert(r == secs_of_spec(e));
    r
}

/// What `millis_of` returns.
pub open spec fn millis_of_spec(elapsed: Option<(u64, u32)>) -> i64 {
    match elapsed {
        Some(d) => elapsed_millis(d.0, d.1) as i64,
        None => 0,
    }
}

/// What `secs_of` returns.
pub open spec fn secs_of_spec(elapsed: Option<(u64, u32)>) -> u64 {
    match elapsed {
        Some(d) => d.0,
        None => 0,
    }
}

/// Law: for one clock reading, the millisecond reading divided by 1000 is
/// the second reading, whenever the milliseconds fit in an `i64`.
pub proof fn lemma_millis_agree_with_secs(secs: u64, nanos: u32)
    requires
        nanos < 1_000_000_000,
        secs * 1000 + 999 <= i64::MAX,
    ensures
        millis_of_spec(Some((secs, nanos))) / 1000 == secs_of_spec(Some((secs, nanos))),
        millis_of_spec(Some((secs, nanos))) >= 0,
{
    assert(nanos / 1_000_000 < 1000);
    assert((secs * 1000 + nanos / 1_000_000) / 1000 == secs as int) by (nonlinear_arith)
        requires
            0 <= nanos / 1_000_000 < 1000,
            secs >= 0,
    ;
}

} // verus!
