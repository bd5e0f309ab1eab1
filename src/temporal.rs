//! Calendar and clock values, held as plain integers.
use std::cmp::Ordering;
use vstd::prelude::*;

verus! {

/// Number of seconds in a day.
pub const SECS_PER_DAY: u32 = 86400;

/// Upper bound (exclusive) of the sub-second part; values of a billion and
/// more stand for a leap second.
pub const FRAC_LIMIT: u32 = 2_000_000_000;

/// Three-way comparison of two mathematical integers.
pub open spec fn cmp_int(a: int, b: int) -> Ordering {
    if a < b {
        Ordering::Less
    } else if a > b {
        Ordering::Greater
    } else {
        Ordering::Equal
    }
}

/// Lexicographic combination: the second comparison decides only on a tie.
pub open spec fn then_cmp(first: Ordering, second: Ordering) -> Ordering {
    match first {
        Ordering::Equal => second,
        _ => first,
    }
}

fn cmp_u32(a: u32, b: u32) -> (r: Ordering)
    ensures
        r == cmp_int(a as int, b as int),
{
    if a < b {
        Ordering::Less
    } else if a > b {
        Ordering::Greater
    } else {
        Ordering::Equal
    }
}

fn cmp_i32(a: i32, b: i32) -> (r: Ordering)
    ensures
        r == cmp_int(a as int, b as int),
{
    if a < b {
        Ordering::Less
    } else if a > b {
        Ordering::Greater
    } else {
        Ordering::Equal
    }
}

fn chain_cmp(first: Ordering, second: Ordering) -> (r: Ordering)
    ensures
        r == then_cmp(first, second),
{
    match first {
        Ordering::Equal => second,
        _ => first,
    }
}

/// A time of day: whole seconds since midnight and the nanoseconds past them.
#[derive(Clone, Copy, Debug, PartialEq, Eq, Structural)]
pub struct ClockTime {
    pub secs: u32,
    pub frac: u32,
}

impl ClockTime {
    pub open spec fn wf(self) -> bool {
        self.secs < SECS_PER_DAY && self.frac < FRAC_LIMIT
    }

    pub open spec fn order(self, o: ClockTime) -> Ordering {
        then_cmp(cmp_int(self.secs as int, o.secs as int), cmp_int(self.frac as int, o.frac as int))
    }

    /// The time `hour:minute:second`, or `None` when a field is out of range.
    pub fn from_hms(hour: u32, minute: u32, second: u32) -> (r: Option<ClockTime>)
        ensures
            r is Some <==> hour < 24 && minute < 60 && second < 60,
            r matches Some(t) ==> t.wf() && t.frac == 0 && t.secs == hour * 3600 + minute * 60
                + second,
    {
        if hour < 24 && minute < 60 && second < 60 {
            Some(ClockTime { secs: hour * 3600 + minute * 60 + second, frac: 0 })
        } else {
            None
        }
    }

    pub fn hour(&self) -> (r: u32)
        requires
            self.wf(),
        ensures
            r == self.secs / 3600,
            r < 24,
    {
        self.secs / 3600
    }

    pub fn minute(&self) -> (r: u32)
        requires
            self.wf(),
        ensures
            r == (self.secs / 60) % 60,
            r < 60,
    {
        (self.secs / 60) % 60
    }

    pub fn second(&self) -> (r: u32)
        requires
            self.wf(),
        ensures
            r == self.secs % 60,
            r < 60,
    {
        self.secs % 60
    }

    pub fn compare(&self, o: &ClockTime) -> (r: Ordering)
        ensures
            r == self.order(*o),
    {
        chain_cmp(cmp_u32(self.secs, o.secs), cmp_u32(self.frac, o.frac))
    }
}

/// Shifts a year by a multiple of 400 so that it is never negative; the
/// Gregorian leap rule is the same on the shifted value.
pub open spec fn shifted_year(y: int) -> int {
    y + 2_400_000_000
}

pub open spec fn is_leap(y: int) -> bool {
    let s = shifted_year(y);
    s % 4 == 0 && (s % 100 != 0 || s % 400 == 0)
}

pub open spec fn days_in_month(y: int, m: int) -> int {
    if m == 2 {
        if is_leap(y) {
            29
        } else {
            28
        }
    } else if m == 4 || m == 6 || m == 9 || m == 11 {
        30
    } else {
        31
    }
}

fn leap_year(y: i32) -> (r: bool)
    ensures
        r == is_leap(y as int),
{
    let s: u64 = (y as i64 + 2_400_000_000i64) as u64;
    s % 4 == 0 && (s % 100 != 0 || s % 400 == 0)
}

fn month_length(y: i32, m: u32) -> (r: u32)
    ensures
        r == days_in_month(y as int, m as int),
{
    if m == 2 {
        if leap_year(y) {
            29
        } else {
            28
        }
    } else if m == 4 || m == 6 || m == 9 || m == 11 {
        30
    } else {
        31
    }
}

/// A day of the proleptic Gregorian calendar.
#[derive(Clone, Copy, Debug, PartialEq, Eq, Structural)]
pub struct CalDate {
    pub year: i32,
    pub month: u32,
    pub day: u32,
}

impl CalDate {
    pub open spec fn wf(self) -> bool {
        1 <= self.month <= 12 && 1 <= self.day <= days_in_month(self.year as int, self.month as int)
    }

    pub open spec fn order(self, o: CalDate) -> Ordering {
        then_cmp(
            cmp_int(self.year as int, o.year as int),
            then_cmp(
                cmp_int(self.month as int, o.month as int),
                cmp_int(self.day as int, o.day as int),
            ),
        )
    }

    /// The date `year-month-day`, or `None` when no such day exists.
    pub fn from_ymd(year: i32, month: u32, day: u32) -> (r: Option<CalDate>)
        ensures
            r is Some <==> (CalDate { year, month, day }).wf(),
            r matches Some(d) ==> d == (CalDate { year, month, day }),
    {
        if 1 <= month && month <= 12 && 1 <= day && day <= month_length(year, month) {
            Some(CalDate { year, month, day })
        } else {
            None
        }
    }

    pub fn compare(&self, o: &CalDate) -> (r: Ordering)
        ensures
            r == self.order(*o),
    {
        chain_cmp(
            cmp_i32(self.year, o.year),
            chain_cmp(cmp_u32(self.month, o.month), cmp_u32(self.day, o.day)),
        )
    }
}

/// A calendar day together with a time of day.
#[derive(Clone, Copy, Debug, PartialEq, Eq, Structural)]
pub struct CalDateTime {
    pub date: CalDate,
    pub time: ClockTime,
}

impl CalDateTime {
    pub open spec fn wf(self) -> bool {
        self.date.wf() && self.time.wf()
    }

    pub open spec fn order(self, o: CalDateTime) -> Ordering {
        then_cmp(self.date.order(o.date), self.time.order(o.time))
    }

    pub fn new(date: CalDate, time: ClockTime) -> (r: CalDateTime)
        ensures
            r.date == date && r.time == time,
    {
        CalDateTime { date, time }
    }

    pub fn compare(&self, o: &CalDateTime) -> (r: Ordering)
        ensures
            r == self.order(*o),
    {
        chain_cmp(self.date.compare(&o.date), self.time.compare(&o.time))
    }
}

/// Midnight, the start of a day.
pub open spec fn midnight() -> ClockTime {
    ClockTime { secs: 0, frac: 0 }
}

} // verus!
