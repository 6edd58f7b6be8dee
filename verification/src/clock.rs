//! The clock and calendar readings the library takes from `chrono`.
use vstd::prelude::*;
use chrono::Datelike;
use chrono::Timelike;

verus! {

/// The day number (days since January 1 of year 1, counted from 1) of the
/// calendar date written as `YYYY-MM-DD`, or `None` where the text is no
/// such date.
pub uninterp spec fn ymd_day_number(s: Seq<char>) -> Option<int>;

/// Calls `chrono::NaiveDate::parse_from_str` with the format `%Y-%m-%d` and
/// turns the parsed date into its day number with `Datelike::num_days_from_ce`.
/// The contract claims only that the result is the named value for the text;
/// what chrono accepts as a date is not restated here.
#[verifier::external_body]
pub(crate) fn parse_ymd_day(s: &str) -> (r: Option<i32>)
    ensures
        match r {
            Some(d) => ymd_day_number(s@) == Some(d as int),
            None => ymd_day_number(s@) is None,
        },
{
    match chrono::NaiveDate::parse_from_str(s, "%Y-%m-%d") {
        Ok(d) => Some(d.num_days_from_ce()),
        Err(_) => None,
    }
}

/// The latest instant `chrono` can represent, 262142-12-31 23:59:59.999
/// UTC, in milliseconds since the Unix epoch.
pub open spec fn latest_clock_ms() -> int {
    8_210_266_876_799_999
}

/// A wall-clock reading in milliseconds: not before the Unix epoch and not
/// after the latest instant `chrono` can represent.
pub open spec fn clock_reading(now: i64) -> bool {
    0 <= now <= latest_clock_ms()
}

/// Calls `chrono::Utc::now().timestamp_millis()`: the wall-clock time in
/// milliseconds since the Unix epoch. Which time it gives depends on the
/// clock alone; the contract claims only the range of `chrono`'s readings:
/// `Utc::now` panics when the system clock is set before 1970 and unwraps the
/// conversion that fails past `chrono`'s latest instant.
#[verifier::external_body]
pub(crate) fn now_millis() -> (r: i64)
    ensures
        clock_reading(r),
{
    chrono::Utc::now().timestamp_millis()
}

/// Calls `chrono::Local::now().date_naive()` and renders the date with
/// `format("%Y-%m-%d")`: today's local date as text. Which date it gives
/// depends on the clock and the time zone; the contract claims only that the
/// text reads back as a date: a `NaiveDate` is always a valid date, its year
/// is written with a sign where it has more than four digits, and
/// `parse_from_str` with the same format takes such a sign. (`date_naive`
/// panics where the local date would pass `chrono`'s last date.)
#[verifier::external_body]
pub(crate) fn local_date_string() -> (r: String)
    ensures
        ymd_day_number(r@) is Some,
{
    chrono::Local::now().date_naive().format("%Y-%m-%d").to_string()
}

/// Calls `chrono::Local::now()` and reads its local time of day as whole
/// seconds since midnight (`Timelike::num_seconds_from_midnight`) and the
/// nanoseconds of the current second (`Timelike::nanosecond`). chrono keeps
/// seconds of a day below 86400; a reading of the system clock carries no
/// leap second, so the nanoseconds stay below one second.
#[verifier::external_body]
pub(crate) fn local_time_of_day() -> (r: (u32, u32))
    ensures
        r.0 < 86400,
        r.1 < 1_000_000_000,
{
    let t = chrono::Local::now().time();
    (t.num_seconds_from_midnight(), t.nanosecond())
}

} // verus!
