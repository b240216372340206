//! How a listing shows a time: the hour and minute of a recent time, the day and
//! month of one from this year or the last half year, else the year. Times are
//! whole seconds on the local clock, counted from 1970-01-01 00:00.
use crate::fuzzy::trunc_div;
use crate::list::{display_time_format, TimeFormat};
use chrono::Datelike;
use vstd::prelude::*;

verus! {

/// The calendar year and day of the year of the time `secs` seconds after
/// 1970-01-01 00:00, as `chrono` computes them; `None` where `chrono` cannot
/// represent the time.
pub uninterp spec fn calendar_date(secs: i64) -> Option<(i32, u32)>;

/// The text `chrono` writes for the time `secs` with the `strftime` pattern
/// `pattern`; `None` where `chrono` cannot represent the time.
pub uninterp spec fn formatted_time(secs: i64, pattern: Seq<char>) -> Option<Seq<char>>;

/// The patterns a listing writes times with.
pub open spec fn listing_pattern(p: Seq<char>) -> bool {
    p == "%H:%M"@ || p == "%d %b"@ || p == "%Y"@
}

/// `chrono::NaiveDateTime::from_timestamp_opt(secs, 0)`, read as its year
/// (`Datelike::year`) and day of the year (`Datelike::ordinal`). Claimed: the
/// result is `calendar_date(secs)`, a function of `secs` alone.
#[verifier::external_body]
#[allow(deprecated)]
fn date_of(secs: i64) -> (r: Option<(i32, u32)>)
    ensures
        r == calendar_date(secs),
{
    match chrono::NaiveDateTime::from_timestamp_opt(secs, 0) {
        Some(t) => Some((t.year(), t.ordinal())),
        None => None,
    }
}

/// `chrono::NaiveDateTime::from_timestamp_opt(secs, 0)` written with
/// `NaiveDateTime::format(pattern)`. Claimed: the result is
/// `formatted_time(secs, pattern)`, a function of the two alone, and it is there
/// exactly where the time can be represented, as for `date_of`. Writing panics on
/// a pattern `chrono` cannot read, so only the listing's patterns are taken.
#[verifier::external_body]
#[allow(deprecated)]
fn format_time(secs: i64, pattern: &str) -> (r: Option<String>)
    requires
        listing_pattern(pattern@),
    ensures
        match r {
            Some(s) => formatted_time(secs, pattern@) == Some(s@),
            None => formatted_time(secs, pattern@) is None,
        },
        r is Some <==> calendar_date(secs) is Some,
{
    match chrono::NaiveDateTime::from_timestamp_opt(secs, 0) {
        Some(t) => Some(t.format(pattern).to_string()),
        None => None,
    }
}

/// The format for a time `time` shown when it is `now`, given both dates: by the
/// whole hours and days between them, and whether they fall on the same day or
/// in the same year.
pub open spec fn format_for(now: i64, time: i64, now_date: (i32, u32), time_date: (i32, u32)) -> TimeFormat {
    let d = now - time;
    if trunc_div(d, 3600) < 12 || now_date == time_date {
        TimeFormat::HourMinute
    } else if trunc_div(d, 86400) < 180 || now_date.0 == time_date.0 {
        TimeFormat::DayMonth
    } else {
        TimeFormat::Year
    }
}

/// The `strftime` pattern of a format.
pub open spec fn pattern_of(f: TimeFormat) -> Seq<char> {
    match f {
        TimeFormat::HourMinute => "%H:%M"@,
        TimeFormat::DayMonth => "%d %b"@,
        TimeFormat::Year => "%Y"@,
    }
}

/// Whole units of `unit` seconds in `d`, rounded toward zero.
fn whole_units(d: i128, unit: i128) -> (r: i64)
    requires
        -0x1_0000_0000_0000_0000 <= d <= 0x1_0000_0000_0000_0000,
        3600 <= unit <= 86400,
    ensures
        r == trunc_div(d as int, unit as int),
{
    if d >= 0 {
        let q = d / unit;
        assert(q <= d / 3600) by (nonlinear_arith)
            requires
                0 <= d,
                3600 <= unit,
                q == d / unit,
        ;
        assert(d / 3600 <= 0x1_0000_0000_0000_0000int / 3600) by (nonlinear_arith)
            requires
                0 <= d <= 0x1_0000_0000_0000_0000,
        ;
        q as i64
    } else {
        let m = -d;
        let q = m / unit;
        assert(q <= m / 3600) by (nonlinear_arith)
            requires
                0 <= m,
                3600 <= unit,
                q == m / unit,
        ;
        assert(m / 3600 <= 0x1_0000_0000_0000_0000int / 3600) by (nonlinear_arith)
            requires
                0 <= m <= 0x1_0000_0000_0000_0000,
        ;
        -(q as i64)
    }
}

/// The format a listing shows `time` with when it is `now`; `None` where a
/// time cannot be represented.
pub fn time_format(now: i64, time: i64) -> (r: Option<TimeFormat>)
    ensures
        match (calendar_date(now), calendar_date(time)) {
            (Some(dn), Some(dt)) => r == Some(format_for(now, time, dn, dt)),
            _ => r is None,
        },
{
    let dn = match date_of(now) {
        Some(x) => x,
        None => return None,
    };
    let dt = match date_of(time) {
        Some(x) => x,
        None => return None,
    };
    let d: i128 = now as i128 - time as i128;
    let hours = whole_units(d, 3600);
    let days = whole_units(d, 86400);
    let same_date = dn.0 == dt.0 && dn.1 == dt.1;
    Some(display_time_format(hours, same_date, days, dn.0 == dt.0))
}

/// The time `time` as a listing shows it when it is `now`; `None` where a time
/// cannot be represented.
pub fn display_time(now: i64, time: i64) -> (r: Option<String>)
    ensures
        match (calendar_date(now), calendar_date(time)) {
            (Some(dn), Some(dt)) => r matches Some(s) && formatted_time(time, pattern_of(format_for(now, time, dn, dt)))
                == Some(s@),
            _ => r is None,
        },
{
    match time_format(now, time) {
        None => None,
        Some(f) => {
            let p = f.pattern();
            format_time(time, p)
        },
    }
}

} // verus!
