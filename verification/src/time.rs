//! Real time clock: the current time is the system start time (once known) plus the uptime.
//!
//! Times are microseconds since the Unix epoch (1970-01-01 00:00:00 UTC); system times (uptime,
//! instants) are microseconds since system start.

use crate::vereinsflieger::proto_articles::Date;
use vstd::prelude::*;

verus! {

/// Time (microseconds since the Unix epoch) that an RFC 2822 date and time text gives, as
/// `chrono::DateTime::parse_from_rfc2822` reads it; none if it does not parse
pub uninterp spec fn rfc2822_time(s: Seq<char>) -> Option<i64>;

/// Day of a time (microseconds since the Unix epoch): days since 1970-01-01, rounded down
pub open spec fn day_of_time(us: int) -> int {
    us / 86_400_000_000
}

/// Date (year, month, day) in the proleptic Gregorian calendar of a day counted from 1970-01-01
/// (day 0). Days are counted in 400-year eras that start on March 1st, so that leap days come
/// last in each year of an era.
pub open spec fn civil_from_days(days: int) -> (int, int, int) {
    let z = days + 719_468;
    let era = z / 146_097;
    let doe = z - era * 146_097;
    let yoe = (doe - doe / 1460 + doe / 36_524 - doe / 146_096) / 365;
    let doy = doe - (365 * yoe + yoe / 4 - yoe / 100);
    let mp = (5 * doy + 2) / 153;
    let d = doy - (153 * mp + 2) / 5 + 1;
    let m = if mp < 10 {
        mp + 3
    } else {
        mp - 9
    };
    let y = yoe + era * 400 + if m <= 2 {
        1int
    } else {
        0int
    };
    (y, m, d)
}

/// Years of the dates that `chrono` represents
pub open spec fn chrono_year_in_range(y: int) -> bool {
    -262_143 <= y <= 262_142
}

/// Calendar date (year, month, day, UTC) of a time (microseconds since the Unix epoch); none for
/// a date whose year `chrono` does not represent
pub open spec fn civil_date(us: i64) -> Option<(i32, u32, u32)> {
    let (y, m, d) = civil_from_days(day_of_time(us as int));
    if chrono_year_in_range(y) {
        Some((y as i32, m as u32, d as u32))
    } else {
        None
    }
}

/// `chrono::DateTime::parse_from_rfc2822`, the result taken as microseconds since the epoch
/// (`timestamp_micros`). Stated: the result is the name `rfc2822_time` of the text; how the
/// text is parsed is not stated.
#[verifier::external_body]
fn parse_rfc2822(s: &str) -> (r: Option<i64>)
    ensures
        r == rfc2822_time(s@),
{
    match chrono::DateTime::parse_from_rfc2822(s) {
        Ok(t) => Some(t.timestamp_micros()),
        Err(_) => None,
    }
}

/// `chrono::DateTime::<Utc>::from_timestamp_micros` and its `date_naive`, the date taken as year,
/// month and day. Stated: the proleptic Gregorian date of the day the time falls on, none where
/// its year is outside of `chrono`'s range of years.
#[verifier::external_body]
fn date_of_time(us: i64) -> (r: Option<(i32, u32, u32)>)
    ensures
        r == civil_date(us),
{
    match chrono::DateTime::<chrono::Utc>::from_timestamp_micros(us) {
        Some(t) => {
            let d = t.date_naive();
            Some((chrono::Datelike::year(&d), chrono::Datelike::month(&d), chrono::Datelike::day(&d)))
        },
        None => None,
    }
}

/// Time that the `Date` header of a server response gives, if it has one that parses
pub fn response_time(date_header: Option<&str>) -> (r: Option<i64>)
    ensures
        match date_header {
            Some(s) => r == rfc2822_time(s@),
            None => r is None,
        },
{
    match date_header {
        Some(s) => parse_rfc2822(s),
        None => None,
    }
}

/// The calendar date of a clock at an uptime: none while the time of system start is unknown
pub open spec fn clock_date(clock: Clock, uptime: u64) -> Option<Date> {
    match clock.start() {
        Some(s) => match civil_date((s + uptime) as i64) {
            Some((y, m, d)) => Some(Date { year: y, month: m, day: d }),
            None => None,
        },
        None => None,
    }
}

/// Real time clock
#[derive(Debug)]
pub struct Clock {
    /// Time of system start, once known
    start_time: Option<i64>,
}

impl Clock {
    /// Time of system start, if known
    pub closed spec fn start(&self) -> Option<i64> {
        self.start_time
    }

    /// Clock that does not know the time yet
    pub fn new() -> (r: Self)
        ensures
            r.start() is None,
    {
        Clock { start_time: None }
    }

    /// Set the time by a known time at the given system time: the system started that long
    /// before it
    pub fn set_by_reference(&mut self, absolute_time: i64, system_time: u64)
        requires
            system_time <= i64::MAX,
            absolute_time - system_time >= i64::MIN,
        ensures
            final(self).start() == Some((absolute_time - system_time) as i64),
    {
        self.start_time = Some(absolute_time - system_time as i64);
    }

    /// Current time at the given uptime, if known
    pub fn now(&self, uptime: u64) -> (r: Option<i64>)
        requires
            uptime <= i64::MAX,
            self.start() matches Some(s) ==> s + uptime <= i64::MAX,
        ensures
            match self.start() {
                Some(s) => r == Some((s + uptime) as i64),
                None => r is None,
            },
    {
        match self.start_time {
            Some(s) => Some(s + uptime as i64),
            None => None,
        }
    }

    /// Time of the given system time, if the current time is known (and the system time fits
    /// a time)
    pub fn instant_to_datetime(&self, system_time: u64) -> (r: Option<i64>)
        requires
            self.start() matches Some(s) ==> s + system_time <= i64::MAX || system_time > i64::MAX,
        ensures
            match self.start() {
                Some(s) => if system_time <= i64::MAX {
                    r == Some((s + system_time) as i64)
                } else {
                    r is None
                },
                None => r is None,
            },
    {
        if system_time > i64::MAX as u64 {
            return None;
        }
        match self.start_time {
            Some(s) => Some(s + system_time as i64),
            None => None,
        }
    }

    /// Current date at the given uptime, if known
    pub fn today(&self, uptime: u64) -> (r: Option<Date>)
        requires
            uptime <= i64::MAX,
            self.start() matches Some(s) ==> s + uptime <= i64::MAX,
        ensures
            match self.start() {
                Some(s) => match civil_date((s + uptime) as i64) {
                    Some((y, m, d)) => r == Some(Date { year: y, month: m, day: d }),
                    None => r is None,
                },
                None => r is None,
            },
    {
        match self.now(uptime) {
            Some(t) => match date_of_time(t) {
                Some((y, m, d)) => Some(Date { year: y, month: m, day: d }),
                None => None,
            },
            None => None,
        }
    }
}

} // verus!

