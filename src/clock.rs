//! The calls into chrono: reading the local clock and reading a time of day.
use crate::temporal::{CalDate, CalDateTime, ClockTime};
use chrono::{Datelike, Timelike};
use vstd::prelude::*;

verus! {

/// What chrono's `NaiveTime::parse_from_str(s, "%H:%M:%S")` gives for `s`:
/// the time, or `None` when `s` is no such time.
pub uninterp spec fn clock_literal(s: Seq<char>) -> Option<ClockTime>;

/// Relies on chrono's `NaiveTime::parse_from_str` with the format
/// `%H:%M:%S`, and on `Timelike::num_seconds_from_midnight` (below 86400)
/// and `Timelike::nanosecond` (below two billion) of the time it gives.
#[verifier::external_body]
pub(crate) fn parse_clock(s: &str) -> (r: Option<ClockTime>)
    ensures
        r == clock_literal(s@),
        r matches Some(t) ==> t.wf(),
{
    match chrono::NaiveTime::parse_from_str(s, "%H:%M:%S") {
        Ok(t) => Some(ClockTime { secs: t.num_seconds_from_midnight(), frac: t.nanosecond() }),
        Err(_) => None,
    }
}

/// Relies on chrono's `Local::now` and `DateTime::naive_local`: a valid
/// date of the proleptic Gregorian calendar (`Datelike::year`, `month` from
/// 1 to 12, `day` within the month) and a time of day as above.
#[verifier::external_body]
pub(crate) fn read_clock() -> (r: CalDateTime)
    ensures
        r.wf(),
{
    let now = chrono::Local::now().naive_local();
    let (d, t) = (now.date(), now.time());
    CalDateTime {
        date: CalDate { year: d.year(), month: d.month(), day: d.day() },
        time: ClockTime { secs: t.num_seconds_from_midnight(), frac: t.nanosecond() },
    }
}

} // verus!
