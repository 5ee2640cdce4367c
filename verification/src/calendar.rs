//! Calendar values: dates as day numbers, times of day as minutes.
//!
//! A `Date` holds the number of days counted from the Common Era the way
//! chrono counts them (0001-01-01 is day 1). The calendar arithmetic that
//! needs the Gregorian rules (building a date from year, month and day,
//! reading and writing date text) is done by chrono.
use chrono::{Datelike, Days, NaiveDate};
use vstd::prelude::*;

verus! {

/// Minutes in one day.
pub const MINUTES_PER_DAY: u32 = 1440;

/// Whether `year` is a leap year of the proleptic Gregorian calendar.
pub open spec fn is_leap_year(year: int) -> bool {
    year % 4 == 0 && (year % 100 != 0 || year % 400 == 0)
}

/// The number of days of a month (1 to 12) of `year`.
pub open spec fn days_in_month(year: int, month: int) -> int {
    if month == 2 {
        if is_leap_year(year) {
            29
        } else {
            28
        }
    } else if month == 4 || month == 6 || month == 9 || month == 11 {
        30
    } else {
        31
    }
}

/// The number of days of `year` before the first of `month` (1 to 12).
pub open spec fn days_before_month(year: int, month: int) -> int {
    let before: int = if month == 1 {
        0
    } else if month == 2 {
        31
    } else if month == 3 {
        59
    } else if month == 4 {
        90
    } else if month == 5 {
        120
    } else if month == 6 {
        151
    } else if month == 7 {
        181
    } else if month == 8 {
        212
    } else if month == 9 {
        243
    } else if month == 10 {
        273
    } else if month == 11 {
        304
    } else {
        334
    };
    before + if month > 2 && is_leap_year(year) {
        1int
    } else {
        0int
    }
}

/// The day number of a year, month and day of the proleptic Gregorian
/// calendar (0001-01-01 is day 1); `None` where that day does not exist or
/// its year lies outside chrono's range (262144 BCE to 262142 CE, that is
/// the years -262143 to 262142).
pub open spec fn ymd_day_number(year: int, month: int, day: int) -> Option<int> {
    if -262143 <= year <= 262142 && 1 <= month <= 12 && 1 <= day <= days_in_month(year, month) {
        Some(
            365 * (year - 1) + (year - 1) / 4 - (year - 1) / 100 + (year - 1) / 400 + days_before_month(
                year,
                month,
            ) + day,
        )
    } else {
        None
    }
}

/// The day number that chrono reads from `text` with `format`.
pub uninterp spec fn parsed_day_number(text: Seq<char>, format: Seq<char>) -> Option<int>;

/// The text that chrono writes for a day number (`%Y-%m-%d`).
pub uninterp spec fn day_number_text(days: int) -> Seq<char>;

/// Calls `chrono::NaiveDate::from_ymd_opt` and returns the day number of the
/// date it builds: chrono builds the day of the proleptic Gregorian calendar
/// where the month and day exist and the year is within its range, and
/// counts days from 0001-01-01 as day 1 (see `ymd_day_number`). Like every
/// `NaiveDate`, the date lies within `NaiveDate::MIN ..= NaiveDate::MAX`.
#[verifier::external_body]
fn chrono_from_ymd(year: i32, month: u32, day: u32) -> (res: Option<i32>)
    ensures
        res matches Some(d) ==> in_calendar_range(d as int),
        res matches Some(d) ==> ymd_day_number(year as int, month as int, day as int) == Some(d as int),
        res is None ==> ymd_day_number(year as int, month as int, day as int) is None,
{
    NaiveDate::from_ymd_opt(year, month, day).map(|d| d.num_days_from_ce())
}

/// Calls `chrono::NaiveDate::parse_from_str` and returns the day number of
/// the parsed date; the contract names the result and states that the date,
/// a `NaiveDate`, lies within `NaiveDate::MIN ..= NaiveDate::MAX`.
#[verifier::external_body]
fn chrono_parse(text: &str, format: &str) -> (res: Option<i32>)
    ensures
        res matches Some(d) ==> in_calendar_range(d as int),
        res matches Some(d) ==> parsed_day_number(text@, format@) == Some(d as int),
        res is None ==> parsed_day_number(text@, format@) is None,
{
    NaiveDate::parse_from_str(text, format).ok().map(|d| d.num_days_from_ce())
}

/// The day number of chrono's earliest date, `NaiveDate::MIN`
/// (January 1, 262144 BCE).
pub open spec fn first_day_number() -> int {
    -95_746_129
}

/// The day number of chrono's latest date, `NaiveDate::MAX`
/// (December 31, 262142 CE).
pub open spec fn last_day_number() -> int {
    95_745_399
}

/// Whether a day number names a date that chrono can hold.
pub open spec fn in_calendar_range(day: int) -> bool {
    first_day_number() <= day <= last_day_number()
}

/// Calls `chrono::NaiveDate::from_num_days_from_ce_opt` and then
/// `checked_add_days` on that date. The first returns `None` exactly for day
/// numbers outside `NaiveDate::MIN ..= NaiveDate::MAX`; the second adds `n`
/// days and returns `None` exactly where the result would leave that range
/// (a count above `i32::MAX` always does).
#[verifier::external_body]
fn chrono_add_days(days: i32, n: u32) -> (res: Option<i32>)
    ensures
        res is Some <==> (in_calendar_range(days as int) && in_calendar_range(days + n)),
        res matches Some(d) ==> d == days + n,
{
    NaiveDate::from_num_days_from_ce_opt(days)
        .and_then(|d| d.checked_add_days(Days::new(n as u64)))
        .map(|d| d.num_days_from_ce())
}

/// Calls `chrono::NaiveDate::from_num_days_from_ce_opt` and then
/// `checked_sub_days`: `None` where the day number or the result lies
/// outside `NaiveDate::MIN ..= NaiveDate::MAX`, else the date `n` days
/// earlier.
#[verifier::external_body]
fn chrono_sub_days(days: i32, n: u32) -> (res: Option<i32>)
    ensures
        res is Some <==> (in_calendar_range(days as int) && in_calendar_range(days - n)),
        res matches Some(d) ==> d == days - n,
{
    NaiveDate::from_num_days_from_ce_opt(days)
        .and_then(|d| d.checked_sub_days(Days::new(n as u64)))
        .map(|d| d.num_days_from_ce())
}

/// Calls chrono's `Display` for `NaiveDate` (`%Y-%m-%d`); the contract names
/// the text.
#[verifier::external_body]
fn chrono_date_text(days: i32) -> (res: String)
    requires
        in_calendar_range(days as int),
    ensures
        res@ == day_number_text(days as int),
{
    NaiveDate::from_num_days_from_ce_opt(days).map(|d| d.to_string()).unwrap_or_default()
}

/// A calendar date.
#[derive(Clone, Copy, Debug, PartialEq, Eq, Structural, Hash)]
pub struct Date {
    days: i32,
}

impl Date {
    /// The day number of the date.
    pub closed spec fn day_number(self) -> int {
        self.days as int
    }

    /// A date lies in the calendar's range.
    #[verifier::type_invariant]
    spec fn in_range(self) -> bool {
        in_calendar_range(self.days as int)
    }

    /// Builds the date from a year, a month and a day, if that day exists.
    pub fn from_ymd(year: i32, month: u32, day: u32) -> (res: Option<Date>)
        ensures
            res matches Some(d) ==> ymd_day_number(year as int, month as int, day as int) == Some(
                d.day_number(),
            ),
            res matches Some(d) ==> in_calendar_range(d.day_number()),
            res is None ==> ymd_day_number(year as int, month as int, day as int) is None,
    {
        match chrono_from_ymd(year, month, day) {
            Some(d) => Some(Date { days: d }),
            None => None,
        }
    }

    /// Reads a date from `text` in the chrono `format` (such as `%d.%m.%Y`).
    pub fn parse(text: &str, format: &str) -> (res: Option<Date>)
        ensures
            res matches Some(d) ==> parsed_day_number(text@, format@) == Some(d.day_number()),
            res matches Some(d) ==> in_calendar_range(d.day_number()),
            res is None ==> parsed_day_number(text@, format@) is None,
    {
        match chrono_parse(text, format) {
            Some(d) => Some(Date { days: d }),
            None => None,
        }
    }

    /// Dates with the same day number are the same date.
    pub proof fn lemma_day_number_injective(a: Date, b: Date)
        ensures
            a.day_number() == b.day_number() ==> a == b,
    {
    }

    /// The day number of the date.
    pub fn days(&self) -> (res: i32)
        ensures
            res == self.day_number(),
    {
        self.days
    }

    /// The date `n` days later, if it lies in the calendar's range.
    pub fn checked_add_days(&self, n: u32) -> (res: Option<Date>)
        ensures
            res is Some <==> (in_calendar_range(self.day_number()) && in_calendar_range(
                self.day_number() + n,
            )),
            res matches Some(d) ==> d.day_number() == self.day_number() + n,
    {
        match chrono_add_days(self.days, n) {
            Some(d) => Some(Date { days: d }),
            None => None,
        }
    }

    /// The date `n` days earlier, if it lies in the calendar's range.
    pub fn checked_sub_days(&self, n: u32) -> (res: Option<Date>)
        ensures
            res is Some <==> (in_calendar_range(self.day_number()) && in_calendar_range(
                self.day_number() - n,
            )),
            res matches Some(d) ==> d.day_number() == self.day_number() - n,
    {
        match chrono_sub_days(self.days, n) {
            Some(d) => Some(Date { days: d }),
            None => None,
        }
    }

    /// Whether this date comes before `other` or is the same day.
    pub fn is_on_or_before(&self, other: &Date) -> (res: bool)
        ensures
            res == (self.day_number() <= other.day_number()),
    {
        self.days <= other.days
    }

    /// Whether both are the same day.
    pub fn same_day(&self, other: &Date) -> (res: bool)
        ensures
            res == (self.day_number() == other.day_number()),
    {
        self.days == other.days
    }

    /// The date as `%Y-%m-%d` text.
    pub fn to_text(&self) -> (res: String)
        ensures
            res@ == day_number_text(self.day_number()),
    {
        proof {
            use_type_invariant(self);
        }
        chrono_date_text(self.days)
    }
}

/// A time of day, to the minute.
#[derive(Clone, Copy, Debug, PartialEq, Eq, Structural, Hash)]
pub struct Time {
    minutes: u32,
}

impl Time {
    /// Minutes since midnight.
    pub closed spec fn minute_of_day(self) -> int {
        self.minutes as int
    }

    /// A time always lies within one day.
    pub closed spec fn wf(self) -> bool {
        self.minutes < MINUTES_PER_DAY
    }

    /// The time `hour:minute`, if both are in range.
    pub fn from_hm(hour: u32, minute: u32) -> (res: Option<Time>)
        ensures
            res is Some <==> (hour < 24 && minute < 60),
            res matches Some(t) ==> t.wf() && t.minute_of_day() == hour * 60 + minute,
    {
        if hour < 24 && minute < 60 {
            Some(Time { minutes: hour * 60 + minute })
        } else {
            None
        }
    }

    /// Whether the time lies within one day.
    pub fn is_within_day(&self) -> (res: bool)
        ensures
            res == self.wf(),
    {
        self.minutes < MINUTES_PER_DAY
    }

    /// Minutes since midnight.
    pub fn minutes(&self) -> (res: u32)
        ensures
            res == self.minute_of_day(),
    {
        self.minutes
    }

    /// The hour.
    pub fn hour(&self) -> (res: u32)
        ensures
            res == self.minute_of_day() / 60,
    {
        self.minutes / 60
    }

    /// The minute within the hour.
    pub fn minute(&self) -> (res: u32)
        ensures
            res == self.minute_of_day() % 60,
    {
        self.minutes % 60
    }

    /// Strictly earlier in the day.
    pub fn is_before(&self, other: &Time) -> (res: bool)
        ensures
            res == (self.minute_of_day() < other.minute_of_day()),
    {
        self.minutes < other.minutes
    }
}

/// A date and a time of day.
#[derive(Clone, Copy, Debug, PartialEq, Eq, Structural, Hash)]
pub struct DateTime {
    date: Date,
    time: Time,
}

impl DateTime {
    /// Minutes counted from the start of day number 0.
    pub closed spec fn instant(self) -> int {
        self.date.day_number() * 1440 + self.time.minute_of_day()
    }

    /// The time of day lies within the day.
    pub closed spec fn wf(self) -> bool {
        self.time.wf()
    }

    /// The date of the instant.
    pub closed spec fn date_part(self) -> Date {
        self.date
    }

    /// The time of day of the instant.
    pub closed spec fn time_part(self) -> Time {
        self.time
    }

    /// The instant is the date's first minute plus the time of day.
    pub proof fn lemma_instant(self)
        ensures
            self.instant() == self.date_part().day_number() * 1440
                + self.time_part().minute_of_day(),
            self.wf() == self.time_part().wf(),
    {
    }

    /// An instant is its date and its time of day.
    pub proof fn lemma_parts_determine(a: DateTime, b: DateTime)
        ensures
            a.date_part() == b.date_part() && a.time_part() == b.time_part() ==> a == b,
    {
    }

    /// Puts a date and a time together.
    pub fn new(date: Date, time: Time) -> (res: DateTime)
        ensures
            res.date_part() == date,
            res.time_part() == time,
            res.wf() == time.wf(),
    {
        DateTime { date, time }
    }

    /// The date.
    pub fn date(&self) -> (res: Date)
        ensures
            res == self.date_part(),
    {
        self.date
    }

    /// The time of day.
    pub fn time(&self) -> (res: Time)
        ensures
            res == self.time_part(),
    {
        self.time
    }

    /// The day number of the date on which the instant `minutes` minutes
    /// later falls (earlier, where `minutes` is negative).
    pub open spec fn shifted_day_number(self, minutes: int) -> int {
        (self.instant() + minutes) / 1440
    }

    /// Strictly earlier: an earlier date, or the same date and an earlier
    /// time of day.
    pub open spec fn precedes(self, other: DateTime) -> bool {
        ||| self.date_part().day_number() < other.date_part().day_number()
        ||| (self.date_part().day_number() == other.date_part().day_number()
            && self.time_part().minute_of_day() < other.time_part().minute_of_day())
    }

    /// Strictly earlier.
    pub fn is_before(&self, other: &DateTime) -> (res: bool)
        ensures
            res == self.precedes(*other),
            self.wf() && other.wf() ==> res == (self.instant() < other.instant()),
    {
        if self.date.days != other.date.days {
            self.date.days < other.date.days
        } else {
            self.time.minutes < other.time.minutes
        }
    }

    /// Earlier or the same instant.
    pub fn is_on_or_before(&self, other: &DateTime) -> (res: bool)
        ensures
            res == !other.precedes(*self),
            self.wf() && other.wf() ==> res == (self.instant() <= other.instant()),
    {
        !other.is_before(self)
    }

    /// The instant `minutes` minutes later, if its date lies in the calendar's
    /// range.
    pub fn checked_add_minutes(&self, minutes: u32) -> (res: Option<DateTime>)
        requires
            self.wf(),
        ensures
            res is Some <==> (in_calendar_range(self.date_part().day_number())
                && in_calendar_range(self.shifted_day_number(minutes as int))),
            res matches Some(r) ==> r.wf() && r.instant() == self.instant() + minutes,
    {
        let total: u64 = self.time.minutes as u64 + minutes as u64;
        let extra_days: u64 = total / 1440;
        let minute_of_day: u64 = total % 1440;
        assert(self.shifted_day_number(minutes as int) == self.date.day_number() + extra_days);
        if extra_days > u32::MAX as u64 {
            return None;
        }
        match self.date.checked_add_days(extra_days as u32) {
            Some(d) => {
                let r = DateTime { date: d, time: Time { minutes: minute_of_day as u32 } };
                assert(r.instant() == self.instant() + minutes) by (nonlinear_arith)
                    requires
                        r.date.day_number() == self.date.day_number() + extra_days,
                        r.time.minute_of_day() == minute_of_day,
                        total == self.time.minute_of_day() + minutes,
                        extra_days == total / 1440,
                        minute_of_day == total % 1440,
                        r.instant() == r.date.day_number() * 1440 + r.time.minute_of_day(),
                        self.instant() == self.date.day_number() * 1440
                            + self.time.minute_of_day(),
                ;
                Some(r)
            },
            None => None,
        }
    }

    /// The instant `minutes` minutes earlier, if its date lies in the
    /// calendar's range.
    pub fn checked_sub_minutes(&self, minutes: u32) -> (res: Option<DateTime>)
        requires
            self.wf(),
        ensures
            res is Some <==> (minutes <= self.time_part().minute_of_day() || (in_calendar_range(
                self.date_part().day_number(),
            ) && in_calendar_range(self.shifted_day_number(-minutes)))),
            res matches Some(r) ==> r.wf() && r.instant() == self.instant() - minutes,
    {
        let m: u64 = self.time.minutes as u64;
        let k: u64 = minutes as u64;
        if k <= m {
            return Some(DateTime { date: self.date, time: Time { minutes: (m - k) as u32 } });
        }
        let deficit: u64 = k - m;
        let days: u64 = (deficit + 1439) / 1440;
        assert(days * 1440 >= deficit && days * 1440 < deficit + 1440) by (nonlinear_arith)
            requires
                days == (deficit + 1439) / 1440,
                deficit > 0,
        ;
        let minute_of_day: u64 = days * 1440 - deficit;
        assert(self.shifted_day_number(-minutes) == self.date.day_number() - days);
        if days > u32::MAX as u64 {
            return None;
        }
        match self.date.checked_sub_days(days as u32) {
            Some(d) => {
                let r = DateTime { date: d, time: Time { minutes: minute_of_day as u32 } };
                assert(r.instant() == self.instant() - minutes);
                Some(r)
            },
            None => None,
        }
    }

    /// The instant `minutes` minutes later (earlier where `minutes` is
    /// negative), if its date lies in the calendar's range.
    pub fn checked_add_signed_minutes(&self, minutes: i64) -> (res: Option<DateTime>)
        requires
            self.wf(),
            -0x1_0000_0000 < minutes < 0x1_0000_0000,
        ensures
            res is Some <==> ((minutes < 0 && -minutes <= self.time_part().minute_of_day()) || (
            in_calendar_range(self.date_part().day_number()) && in_calendar_range(
                self.shifted_day_number(minutes as int),
            ))),
            res matches Some(r) ==> r.wf() && r.instant() == self.instant() + minutes,
    {
        if minutes >= 0 {
            self.checked_add_minutes(minutes as u32)
        } else {
            self.checked_sub_minutes((0 - minutes) as u32)
        }
    }
}

} // verus!
