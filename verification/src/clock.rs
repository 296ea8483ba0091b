//! Instants: nanoseconds since the Unix epoch, read and printed with `chrono`.
use vstd::prelude::*;

verus! {

/// One day in nanoseconds.
pub const DAY_NANOS: i128 = 86_400_000_000_000;

/// One hour in nanoseconds.
pub const HOUR_NANOS: i128 = 3_600_000_000_000;

/// One minute in nanoseconds.
pub const MINUTE_NANOS: i128 = 60_000_000_000;

/// The earliest instant `chrono` represents (`DateTime::<Utc>::MIN_UTC`).
pub const MIN_INSTANT: i128 = -8_334_601_228_800_000_000_000;

/// The latest instant `chrono` represents (`DateTime::<Utc>::MAX_UTC`, to the nanosecond).
pub const MAX_INSTANT: i128 = 8_210_266_876_799_999_999_999;

/// `t` is an instant that `chrono` can represent.
pub open spec fn representable(t: int) -> bool {
    MIN_INSTANT <= t <= MAX_INSTANT
}

/// One second in nanoseconds.
pub const SECOND_NANOS: i128 = 1_000_000_000;

/// The whole seconds of the instant `t` (rounded down).
pub open spec fn seconds_of(t: int) -> int {
    t / (SECOND_NANOS as int)
}

/// The nanoseconds of the instant `t` past its whole second.
pub open spec fn subsec_of(t: int) -> int {
    t % (SECOND_NANOS as int)
}

/// The date (`%Y-%m-%d`, UTC) that `chrono` writes for the instant `secs`
/// seconds and `nanos` nanoseconds after the epoch.
pub uninterp spec fn utc_date_text(secs: i64, nanos: u32) -> Seq<char>;

/// The date (`%Y-%m-%d`, UTC) of the instant `t`.
pub open spec fn date_of(t: int) -> Seq<char> {
    utc_date_text(seconds_of(t) as i64, subsec_of(t) as u32)
}

/// The current instant as `Utc::now()` gives it: its `timestamp()` (whole
/// seconds) and `timestamp_subsec_nanos()`. It depends on the clock; what is
/// promised is that `Utc::now` builds it from a `Duration` since the epoch, so
/// the nanoseconds are below one second, and that chrono represents it.
#[verifier::external_body]
fn clock_now() -> (r: (i64, u32))
    ensures
        r.1 < SECOND_NANOS,
        representable(r.0 * SECOND_NANOS + r.1),
{
    let d = chrono::Utc::now();
    (d.timestamp(), d.timestamp_subsec_nanos())
}

/// The current instant, in nanoseconds since the epoch. It depends on the
/// clock; the only thing promised is that chrono can represent it.
pub(crate) fn now_nanos() -> (t: i128)
    ensures
        representable(t as int),
{
    let (secs, nanos) = clock_now();
    assert(-9223372036854775808 * 1_000_000_000 <= secs * 1_000_000_000 <= 9223372036854775807 * 1_000_000_000)
        by (nonlinear_arith)
        requires -9223372036854775808 <= secs <= 9223372036854775807;
    (secs as i128) * SECOND_NANOS + (nanos as i128)
}

/// `DateTime::from_timestamp(secs, nanos)` written with `format("%Y-%m-%d")`;
/// the text is named by `utc_date_text`.
#[verifier::external_body]
fn format_date(secs: i64, nanos: u32) -> (s: String)
    requires
        nanos < SECOND_NANOS,
        representable(secs * SECOND_NANOS + nanos),
    ensures
        s@ == utc_date_text(secs, nanos),
{
    match chrono::DateTime::from_timestamp(secs, nanos) {
        Some(d) => d.format("%Y-%m-%d").to_string(),
        None => String::new(),
    }
}

/// The UTC date of the instant `t`, as chrono's `format("%Y-%m-%d")` writes it.
pub(crate) fn date_text(t: i128) -> (s: String)
    requires
        representable(t as int),
    ensures
        s@ == date_of(t as int),
{
    let mut secs = t / SECOND_NANOS;
    let mut nanos = t % SECOND_NANOS;
    if nanos < 0 {
        secs = secs - 1;
        nanos = nanos + SECOND_NANOS;
    }
    assert(secs == seconds_of(t as int) && nanos == subsec_of(t as int));
    assert(secs * SECOND_NANOS + nanos == t);
    format_date(secs as i64, nanos as u32)
}

/// The start (midnight UTC) of the day that holds `t`.
pub open spec fn day_start_of(t: int) -> int {
    t - t % (DAY_NANOS as int)
}

/// The start (midnight UTC) of the day that holds `t`, as
/// `date_naive().and_hms_opt(0, 0, 0).and_utc()` gives it.
pub fn day_start(t: i128) -> (r: i128)
    requires
        representable(t as int),
    ensures
        r == day_start_of(t as int),
{
    let rem = t % DAY_NANOS;
    if rem >= 0 {
        t - rem
    } else {
        t - (rem + DAY_NANOS)
    }
}

} // verus!
