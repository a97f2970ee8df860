//! Time arithmetic on commit timestamps: calendar slots, the trailing-year
//! window and days of the week.

use vstd::prelude::*;

verus! {

/// Seconds in one day.
pub const SECONDS_PER_DAY: u64 = 86_400;

/// Seconds in the trailing-year window of 365 days.
pub const SECONDS_PER_YEAR: u64 = 31_536_000;

/// Number of slots in the calendar array.
pub const CALENDAR_SLOTS: usize = 365;

/// The last timestamp that names a calendar date: 31 December 262142, 23:59:59 UTC.
pub const LAST_DATED_TIMESTAMP: u64 = 8_210_266_876_799;

/// A day of the week, Monday first.
#[derive(Clone, Copy, PartialEq, Eq, Structural, Debug)]
pub enum Weekday {
    Mon,
    Tue,
    Wed,
    Thu,
    Fri,
    Sat,
    Sun,
}

impl Weekday {
    /// Days since Monday, as a mathematical integer.
    pub open spec fn index(self) -> int {
        match self {
            Weekday::Mon => 0,
            Weekday::Tue => 1,
            Weekday::Wed => 2,
            Weekday::Thu => 3,
            Weekday::Fri => 4,
            Weekday::Sat => 5,
            Weekday::Sun => 6,
        }
    }

    /// The weekday that lies `i mod 7` days after a Monday.
    pub open spec fn at(i: int) -> Weekday {
        let r = i % 7;
        if r == 0 {
            Weekday::Mon
        } else if r == 1 {
            Weekday::Tue
        } else if r == 2 {
            Weekday::Wed
        } else if r == 3 {
            Weekday::Thu
        } else if r == 4 {
            Weekday::Fri
        } else if r == 5 {
            Weekday::Sat
        } else {
            Weekday::Sun
        }
    }

    /// Days since Monday: 0 for Monday up to 6 for Sunday.
    pub fn num_days_from_monday(self) -> (r: usize)
        ensures
            r == self.index(),
            r < 7,
    {
        match self {
            Weekday::Mon => 0,
            Weekday::Tue => 1,
            Weekday::Wed => 2,
            Weekday::Thu => 3,
            Weekday::Fri => 4,
            Weekday::Sat => 5,
            Weekday::Sun => 6,
        }
    }

    /// The weekday with the given number of days since Monday, taken modulo 7.
    pub fn from_days_from_monday(days: u32) -> (r: Weekday)
        ensures
            r == Weekday::at(days as int),
            r.index() == days as int % 7,
    {
        let rest: u32 = days % 7;
        if rest == 0 {
            Weekday::Mon
        } else if rest == 1 {
            Weekday::Tue
        } else if rest == 2 {
            Weekday::Wed
        } else if rest == 3 {
            Weekday::Thu
        } else if rest == 4 {
            Weekday::Fri
        } else if rest == 5 {
            Weekday::Sat
        } else {
            Weekday::Sun
        }
    }
}

/// The calendar slot of a timestamp: its day number since the epoch, modulo 365.
pub open spec fn slot_of(timestamp: int) -> int {
    (timestamp / 86_400) % 365
}

/// Whether a timestamp lies after `now` minus 365 days.
pub open spec fn within_trailing_year(timestamp: int, now: int) -> bool {
    timestamp > now - 31_536_000
}

/// Whether the commit at `current` follows the one at `previous` within one day:
/// it is not a full day or more older.
pub open spec fn within_one_day(previous: int, current: int) -> bool {
    current > previous - 86_400
}

/// The weekday of the UTC calendar date of a timestamp, where it names a date.
/// 1 January 1970 was a Thursday.
pub open spec fn weekday_on(timestamp: int) -> Option<Weekday> {
    if 0 <= timestamp <= LAST_DATED_TIMESTAMP {
        Some(Weekday::at(timestamp / 86_400 + 3))
    } else {
        None
    }
}

/// The slot of the calendar array that a timestamp falls into.
pub fn calendar_slot(timestamp: u64) -> (slot: usize)
    ensures
        slot == slot_of(timestamp as int),
        slot < CALENDAR_SLOTS,
{
    let day: u64 = timestamp / SECONDS_PER_DAY;
    (day % 365) as usize
}

/// Tells whether a commit made at `timestamp` falls into the 365 days before `now`.
pub fn in_trailing_year(timestamp: u64, now: u64) -> (inside: bool)
    ensures
        inside == within_trailing_year(timestamp as int, now as int),
{
    if now < SECONDS_PER_YEAR {
        true
    } else {
        timestamp > now - SECONDS_PER_YEAR
    }
}

/// Tells whether two consecutive commits are less than a day apart, the later
/// visited one measured against the one before it.
pub fn follows_within_one_day(previous: u64, current: u64) -> (close: bool)
    ensures
        close == within_one_day(previous as int, current as int),
{
    if previous < SECONDS_PER_DAY {
        true
    } else {
        current > previous - SECONDS_PER_DAY
    }
}

/// Calls `chrono::DateTime::from_timestamp` and, on the date it gives,
/// `Datelike::weekday` and `Weekday::num_days_from_monday`.
///
/// Trusted: for a timestamp from the epoch up to the last second of the year
/// 262142 chrono yields a date, whose weekday advances by one each 86 400
/// seconds from the Thursday of 1 January 1970; past that second it yields none.
#[verifier::external_body]
fn chrono_days_from_monday(secs: i64) -> (days: Option<u32>)
    ensures
        0 <= secs <= LAST_DATED_TIMESTAMP ==> days == Some(((secs / 86_400 + 3) % 7) as u32),
        secs > LAST_DATED_TIMESTAMP ==> days is None,
{
    match chrono::DateTime::from_timestamp(secs, 0) {
        Some(date) => Some(chrono::Datelike::weekday(&date).num_days_from_monday()),
        None => None,
    }
}

/// The weekday of a timestamp read as a UTC calendar date; `None` where the
/// timestamp is past the last date that can be named.
pub fn weekday_of(timestamp: u64) -> (day: Option<Weekday>)
    ensures
        day == weekday_on(timestamp as int),
{
    if timestamp > LAST_DATED_TIMESTAMP {
        return None;
    }
    match chrono_days_from_monday(timestamp as i64) {
        Some(days) => Some(Weekday::from_days_from_monday(days)),
        None => None,
    }
}

/// The UTC date and time of a timestamp written day first, as in
/// "15-05-2015 00:00:00", in the form that chrono gives it; `None` where
/// chrono names no date for the timestamp.
pub uninterp spec fn utc_text(secs: int) -> Option<Seq<char>>;

/// Calls `chrono::DateTime::from_timestamp` and writes the date it gives
/// with `DateTime::format` and the pattern "%d-%m-%Y %H:%M:%S".
///
/// Trusted: the text depends on the timestamp alone; chrono yields a date
/// for every timestamp from the epoch up to the last second of the year
/// 262142, and none past that second.
#[verifier::external_body]
fn chrono_utc_text(secs: i64) -> (text: Option<String>)
    ensures
        match text {
            Some(written) => utc_text(secs as int) == Some(written@),
            None => utc_text(secs as int) is None,
        },
        0 <= secs <= LAST_DATED_TIMESTAMP ==> text is Some,
        secs > LAST_DATED_TIMESTAMP ==> text is None,
{
    match chrono::DateTime::from_timestamp(secs, 0) {
        Some(date) => Some(date.format("%d-%m-%Y %H:%M:%S").to_string()),
        None => None,
    }
}

/// The UTC date and time of a timestamp as text, day first; `None` where the
/// timestamp is past the last date that can be named.
pub fn timestamp_text(timestamp: u64) -> (text: Option<String>)
    ensures
        timestamp <= LAST_DATED_TIMESTAMP ==> text is Some && utc_text(timestamp as int) == Some(
            text->0@,
        ),
        timestamp > LAST_DATED_TIMESTAMP ==> text is None,
{
    if timestamp > LAST_DATED_TIMESTAMP {
        return None;
    }
    chrono_utc_text(timestamp as i64)
}

} // verus!
