use vstd::prelude::*;

verus! {

/// The Unix time in milliseconds of an RFC 3339 text, as
/// `str::parse::<chrono::DateTime<chrono::Utc>>` reads it and
/// `DateTime::timestamp_millis` counts it; `None` where chrono refuses it.
pub uninterp spec fn utc_millis_of(ts: Seq<char>) -> Option<i64>;

/// Reads a timestamp with chrono; the result is named [`utc_millis_of`].
#[verifier::external_body]
pub(crate) fn utc_millis(ts: &str) -> (r: Option<i64>)
    ensures
        r == utc_millis_of(ts@),
{
    ts.parse::<chrono::DateTime<chrono::Utc>>().ok().map(|t| t.timestamp_millis())
}


/// The instant of an RFC 3339 text as chrono reads it into a
/// `DateTime<Utc>`: whole Unix seconds and the nanoseconds past them
/// (`timestamp`, `timestamp_subsec_nanos`); `None` where chrono refuses it.
pub uninterp spec fn utc_instant_of(ts: Seq<char>) -> Option<(i64, u32)>;

/// Reads a timestamp with chrono; the result is named [`utc_instant_of`].
#[verifier::external_body]
pub(crate) fn utc_instant(ts: &str) -> (r: Option<(i64, u32)>)
    ensures
        r == utc_instant_of(ts@),
{
    ts.parse::<chrono::DateTime<chrono::Utc>>().ok().map(|t| (t.timestamp(), t.timestamp_subsec_nanos()))
}

/// Whether instant `a` comes before instant `b`.
pub open spec fn instant_lt(a: (i64, u32), b: (i64, u32)) -> bool {
    a.0 < b.0 || (a.0 == b.0 && a.1 < b.1)
}

pub open spec fn instant_min(a: (i64, u32), b: (i64, u32)) -> (i64, u32) {
    if instant_lt(b, a) { b } else { a }
}

pub open spec fn instant_max(a: (i64, u32), b: (i64, u32)) -> (i64, u32) {
    if instant_lt(a, b) { b } else { a }
}

pub fn earlier(a: (i64, u32), b: (i64, u32)) -> (r: (i64, u32))
    ensures
        r == instant_min(a, b),
{
    if b.0 < a.0 || (b.0 == a.0 && b.1 < a.1) { b } else { a }
}

pub fn later(a: (i64, u32), b: (i64, u32)) -> (r: (i64, u32))
    ensures
        r == instant_max(a, b),
{
    if a.0 < b.0 || (a.0 == b.0 && a.1 < b.1) { b } else { a }
}


/// The whole minutes from one instant to another as chrono counts them:
/// each made a `DateTime<Utc>` with `DateTime::from_timestamp` (whole
/// seconds and nanoseconds) and `(last - first).num_minutes()` taken;
/// `None` where chrono refuses either instant.
pub uninterp spec fn minutes_between_of(first: (i64, u32), last: (i64, u32)) -> Option<i64>;

/// Counts the minutes between two instants with chrono; the result is
/// named [`minutes_between_of`].  How chrono counts across a leap second is
/// left unsaid.
#[verifier::external_body]
pub(crate) fn minutes_between(first: (i64, u32), last: (i64, u32)) -> (r: Option<i64>)
    ensures
        r == minutes_between_of(first, last),
{
    chrono::DateTime::from_timestamp(first.0, first.1)
        .zip(chrono::DateTime::from_timestamp(last.0, last.1))
        .map(|(a, b)| (b - a).num_minutes())
}

/// Unix times in milliseconds that chrono holds as a `DateTime`: its dates
/// reach about 262,000 years on either side of the common era, so every
/// time within 8e15 ms (about 253,000 years) of 1970 is one.
pub open spec fn millis_in_chrono_range(ms: i64) -> bool {
    -8_000_000_000_000_000 <= ms <= 8_000_000_000_000_000
}

/// The local wall-clock time (hour, minute, second) of a Unix time in
/// milliseconds, as `chrono::Local.timestamp_millis_opt` gives it where it
/// gives a single answer.  That call answers with a single time whenever
/// `DateTime::from_timestamp_millis` accepts the time, whatever the zone;
/// which time it is depends on the machine's time zone, so only the ranges
/// that chrono's `Timelike` documents are stated of it.
#[verifier::external_body]
pub(crate) fn local_clock(ms: i64) -> (r: Option<(u32, u32, u32)>)
    ensures
        r matches Some((h, m, s)) ==> h < 24 && m < 60 && s < 60,
        millis_in_chrono_range(ms) ==> r is Some,
{
    match chrono::TimeZone::timestamp_millis_opt(&chrono::Local, ms) {
        chrono::LocalResult::Single(dt) => Some((chrono::Timelike::hour(&dt), chrono::Timelike::minute(&dt), chrono::Timelike::second(&dt))),
        _ => None,
    }
}

/// The current time in Unix milliseconds, from `chrono::Utc::now()`.  It
/// depends on the clock, so nothing is stated of it.
#[verifier::external_body]
pub(crate) fn now_millis() -> i64 {
    chrono::Utc::now().timestamp_millis()
}

/// The Unix milliseconds of midnight at the start of the local calendar
/// day that holds `ms`, from `chrono::Local`, where both that day and its
/// midnight have a single reading.  It depends on the machine's time zone,
/// so nothing is stated of it.
#[verifier::external_body]
fn local_midnight(ms: i64) -> Option<i64> {
    chrono::TimeZone::timestamp_millis_opt(&chrono::Local, ms)
        .single()
        .and_then(|d| d.date_naive().and_hms_opt(0, 0, 0))
        .and_then(|n| chrono::TimeZone::from_local_datetime(&chrono::Local, &n).single())
        .map(|d| d.timestamp_millis())
}

/// The start of the day: its local midnight where there is one, else the
/// time itself.
pub fn day_start(now_ms: i64, midnight: Option<i64>) -> (r: i64)
    ensures
        r == match midnight {
            Some(m) => m,
            None => now_ms,
        },
{
    match midnight {
        Some(m) => m,
        None => now_ms,
    }
}

/// The Unix milliseconds at which the local day began (see [`day_start`]).
pub fn today_start_ms() -> i64 {
    let now = now_millis();
    day_start(now, local_midnight(now))
}

} // verus!
