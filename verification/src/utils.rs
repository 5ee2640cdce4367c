//! Small helpers: id counters and calendar steps.
use crate::calendar::{in_calendar_range, Date, Time};
use crate::error::{HResult, HrdfError, PResult, ParsingError};
use vstd::prelude::*;

verus! {

/// Hands out the ids 1, 2, 3, ...
pub struct AutoIncrement {
    value: i32,
}

impl AutoIncrement {
    /// The last id handed out (0 before the first).
    pub closed spec fn last(self) -> i32 {
        self.value
    }

    /// A counter that has handed out nothing yet.
    pub fn new() -> (res: AutoIncrement)
        ensures
            res.last() == 0,
    {
        AutoIncrement { value: 0 }
    }

    /// The next id.
    pub fn next(&mut self) -> (res: i32)
        requires
            old(self).last() < i32::MAX,
        ensures
            res == old(self).last() + 1,
            final(self).last() == res,
    {
        self.value = self.value + 1;
        self.value
    }
}

/// The next day.
pub fn add_1_day(date: Date) -> (res: HResult<Date>)
    ensures
        res is Ok <==> (in_calendar_range(date.day_number()) && in_calendar_range(
            date.day_number() + 1,
        )),
        res matches Ok(d) ==> d.day_number() == date.day_number() + 1,
        res matches Err(e) ==> e == HrdfError::FailedToAddDays(date, 1),
{
    match date.checked_add_days(1) {
        Some(d) => Ok(d),
        None => Err(HrdfError::FailedToAddDays(date, 1)),
    }
}

/// The previous day.
pub fn sub_1_day(date: Date) -> (res: HResult<Date>)
    ensures
        res is Ok <==> (in_calendar_range(date.day_number()) && in_calendar_range(
            date.day_number() - 1,
        )),
        res matches Ok(d) ==> d.day_number() == date.day_number() - 1,
        res matches Err(e) ==> e == HrdfError::FailedToSubDays(date, 1),
{
    match date.checked_sub_days(1) {
        Some(d) => Ok(d),
        None => Err(HrdfError::FailedToSubDays(date, 1)),
    }
}

/// The day before the next day is the same day.
pub proof fn lemma_next_then_previous_day(date: Date, next: Date, back: Date)
    requires
        next.day_number() == date.day_number() + 1,
        back.day_number() == next.day_number() - 1,
    ensures
        back == date,
{
    Date::lemma_day_number_injective(back, date);
}

/// The day after the previous day is the same day.
pub proof fn lemma_previous_then_next_day(date: Date, prev: Date, back: Date)
    requires
        prev.day_number() == date.day_number() - 1,
        back.day_number() == prev.day_number() + 1,
    ensures
        back == date,
{
    Date::lemma_day_number_injective(back, date);
}

/// The number of days from `date_1` to `date_2`, both included.
pub fn count_days_between_two_dates(date_1: Date, date_2: Date) -> (res: usize)
    requires
        date_1.day_number() <= date_2.day_number(),
        date_2.day_number() - date_1.day_number() + 1 <= usize::MAX,
    ensures
        res == date_2.day_number() - date_1.day_number() + 1,
{
    let d1 = date_1.days() as i64;
    let d2 = date_2.days() as i64;
    (d2 - d1 + 1) as usize
}

/// The time `hour:minute`.
pub fn create_time(hour: u32, minute: u32) -> (res: PResult<Time>)
    ensures
        res is Ok <==> (hour < 24 && minute < 60),
        res matches Ok(t) ==> t.wf() && t.minute_of_day() == hour * 60 + minute,
        res matches Err(e) ==> e == ParsingError::UnableToBuildTime(hour, minute, 0),
{
    match Time::from_hm(hour, minute) {
        Some(t) => Ok(t),
        None => Err(ParsingError::UnableToBuildTime(hour, minute, 0)),
    }
}

/// The time written `HHMM` as a number.
pub fn create_time_from_value(value: u32) -> (res: PResult<Time>)
    ensures
        res is Ok <==> (value / 100 < 24 && value % 100 < 60),
        res matches Ok(t) ==> t.wf() && t.minute_of_day() == (value / 100) * 60 + value % 100,
        res matches Err(e) ==> e == ParsingError::UnableToBuildTime(value / 100, value % 100, 0),
{
    create_time(value / 100, value % 100)
}

} // verus!
