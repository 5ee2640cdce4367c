//! HRDF format versions and the yearly timetables.
use crate::calendar::{ymd_day_number, Date};
use crate::error::{HResult, HrdfError};
use vstd::prelude::*;

verus! {

/// The versions of the HRDF format.
#[allow(non_camel_case_types)]
#[derive(Clone, Copy, Debug, PartialEq, Eq, Structural, Hash)]
pub enum Version {
    V_5_20_1_0,
    V_5_40_41_2_0_2,
    V_5_40_41_2_0_3,
    V_5_40_41_2_0_4,
    V_5_40_41_2_0_5,
    V_5_40_41_2_0_6,
    V_5_40_41_2_0_7,
}

/// The first and last day of the timetable of a year.
pub open spec fn timetable_bounds(year: int) -> ((int, int, int), (int, int, int)) {
    if year == 2026 {
        ((2025, 12, 14), (2026, 12, 12))
    } else if year == 2025 {
        ((2024, 12, 15), (2025, 12, 13))
    } else if year == 2024 {
        ((2023, 12, 10), (2024, 12, 14))
    } else if year == 2023 {
        ((2022, 12, 11), (2023, 12, 13))
    } else {
        ((2021, 12, 12), (2022, 12, 10))
    }
}

/// Whether the day lies in the timetable of the year (both ends included).
pub open spec fn in_timetable(year: int, day: int) -> bool {
    let (first, last) = timetable_bounds(year);
    match (ymd_day_number(first.0, first.1, first.2), ymd_day_number(last.0, last.1, last.2)) {
        (Some(a), Some(b)) => a <= day <= b,
        _ => false,
    }
}

/// A range of days, both ends included.
struct DateRange {
    first: Date,
    last: Date,
}

impl DateRange {
    fn contains(&self, date: &Date) -> (res: bool)
        ensures
            res == (self.first.day_number() <= date.day_number() <= self.last.day_number()),
    {
        self.first.is_on_or_before(date) && date.is_on_or_before(&self.last)
    }
}

/// Whether `date` lies in the timetable of `year` (2022 to 2026).
fn timetable_contains(year: i32, date: &Date) -> (res: bool)
    requires
        2022 <= year <= 2026,
    ensures
        res == in_timetable(year as int, date.day_number()),
{
    let (first, last) = if year == 2026 {
        ((2025, 12, 14), (2026, 12, 12))
    } else if year == 2025 {
        ((2024, 12, 15), (2025, 12, 13))
    } else if year == 2024 {
        ((2023, 12, 10), (2024, 12, 14))
    } else if year == 2023 {
        ((2022, 12, 11), (2023, 12, 13))
    } else {
        ((2021, 12, 12), (2022, 12, 10))
    };
    match (Date::from_ymd(first.0, first.1, first.2), Date::from_ymd(last.0, last.1, last.2)) {
        (Some(a), Some(b)) => DateRange { first: a, last: b }.contains(date),
        _ => false,
    }
}

impl Version {
    /// The format version of the timetable that covers `date`.
    pub fn try_from_date(date: Date) -> (res: HResult<Version>)
        ensures
            res == version_of_day(date),
    {
        if timetable_contains(2026, &date) || timetable_contains(2025, &date) || timetable_contains(
            2024,
            &date,
        ) {
            Ok(Version::V_5_40_41_2_0_7)
        } else if timetable_contains(2023, &date) || timetable_contains(2022, &date) {
            Ok(Version::V_5_40_41_2_0_5)
        } else {
            Err(HrdfError::OutOfRangeDate(date))
        }
    }

    /// Where the timetable that covers `date` can be downloaded.
    pub fn try_url(date: Date) -> (res: HResult<String>)
        ensures
            url_of_day(date, res),
    {
        if timetable_contains(2026, &date) {
            Ok(
                "https://data.opentransportdata.swiss/en/dataset/timetable-54-2026-hrdf/permalink".to_string(),
            )
        } else if timetable_contains(2025, &date) {
            Ok(
                "https://archive.opentransportdata.swiss/timetable_hrdf/timetable-2025-hrdf-54/OeV_Sammlung_CH_HRDF_5_40_41_2025_20251205_205244.zip".to_string(),
            )
        } else if timetable_contains(2024, &date) {
            Ok(
                "https://archive.opentransportdata.swiss/timetable_hrdf/timetable-2024-hrdf-54/OeV_Sammlung_CH_HRDF_5_40_41_2024_20241213_205621.zip".to_string(),
            )
        } else if timetable_contains(2023, &date) {
            Ok(
                "https://archive.opentransportdata.swiss/timetable_hrdf/timetable-2023-hrdf-54/OeV_Sammlung_CH_HRDF_5_40_41_2023_20231206_204217.zip".to_string(),
            )
        } else if timetable_contains(2022, &date) {
            Ok(
                "https://archive.opentransportdata.swiss/timetable_hrdf/timetable-2022-hrdf-54/OeV_Sammlung_CH_HRDF_5_40_41_2022_20221207_205110.zip".to_string(),
            )
        } else {
            Err(HrdfError::OutOfRangeDate(date))
        }
    }
}

/// Where `try_url` sends a date: the address of the first timetable, from
/// 2026 back to 2022, that covers it; an error where none does.
pub open spec fn url_of_day(date: Date, res: HResult<String>) -> bool {
    match res {
        Ok(url) => {
            ||| in_timetable(2026, date.day_number()) && url@ == url_2026()
            ||| !in_timetable(2026, date.day_number()) && in_timetable(
                2025,
                date.day_number(),
            ) && url@ == url_2025()
            ||| !in_timetable(2026, date.day_number()) && !in_timetable(
                2025,
                date.day_number(),
            ) && in_timetable(2024, date.day_number()) && url@ == url_2024()
            ||| !in_timetable(2026, date.day_number()) && !in_timetable(
                2025,
                date.day_number(),
            ) && !in_timetable(2024, date.day_number()) && in_timetable(
                2023,
                date.day_number(),
            ) && url@ == url_2023()
            ||| !in_timetable(2026, date.day_number()) && !in_timetable(
                2025,
                date.day_number(),
            ) && !in_timetable(2024, date.day_number()) && !in_timetable(
                2023,
                date.day_number(),
            ) && in_timetable(2022, date.day_number()) && url@ == url_2022()
        },
        Err(e) => e == HrdfError::OutOfRangeDate(date) && !in_timetable(
            2026,
            date.day_number(),
        ) && !in_timetable(2025, date.day_number()) && !in_timetable(
            2024,
            date.day_number(),
        ) && !in_timetable(2023, date.day_number()) && !in_timetable(
            2022,
            date.day_number(),
        ),
    }
}

/// A date has a download address exactly when it has a format version.
pub proof fn lemma_url_iff_version(date: Date, res: HResult<String>)
    requires
        url_of_day(date, res),
    ensures
        res is Ok <==> version_of_day(date) is Ok,
{
}

/// The format version of the timetable that covers a date.
pub open spec fn version_of_day(date: Date) -> Result<Version, HrdfError> {
    if in_timetable(2026, date.day_number()) || in_timetable(2025, date.day_number())
        || in_timetable(2024, date.day_number()) {
        Ok(Version::V_5_40_41_2_0_7)
    } else if in_timetable(2023, date.day_number()) || in_timetable(2022, date.day_number()) {
        Ok(Version::V_5_40_41_2_0_5)
    } else {
        Err(HrdfError::OutOfRangeDate(date))
    }
}

impl TryFrom<Date> for Version {
    type Error = HrdfError;

    fn try_from(date: Date) -> (res: Result<Version, HrdfError>) {
        Version::try_from_date(date)
    }
}

impl vstd::std_specs::convert::TryFromSpecImpl<Date> for Version {
    open spec fn obeys_try_from_spec() -> bool {
        true
    }

    open spec fn try_from_spec(v: Date) -> Result<Version, HrdfError> {
        version_of_day(v)
    }
}

/// The download address of the 2026 timetable.
pub open spec fn url_2026() -> Seq<char> {
    "https://data.opentransportdata.swiss/en/dataset/timetable-54-2026-hrdf/permalink"@
}

/// The download address of the 2025 timetable.
pub open spec fn url_2025() -> Seq<char> {
    "https://archive.opentransportdata.swiss/timetable_hrdf/timetable-2025-hrdf-54/OeV_Sammlung_CH_HRDF_5_40_41_2025_20251205_205244.zip"@
}

/// The download address of the 2024 timetable.
pub open spec fn url_2024() -> Seq<char> {
    "https://archive.opentransportdata.swiss/timetable_hrdf/timetable-2024-hrdf-54/OeV_Sammlung_CH_HRDF_5_40_41_2024_20241213_205621.zip"@
}

/// The download address of the 2023 timetable.
pub open spec fn url_2023() -> Seq<char> {
    "https://archive.opentransportdata.swiss/timetable_hrdf/timetable-2023-hrdf-54/OeV_Sammlung_CH_HRDF_5_40_41_2023_20231206_204217.zip"@
}

/// The download address of the 2022 timetable.
pub open spec fn url_2022() -> Seq<char> {
    "https://archive.opentransportdata.swiss/timetable_hrdf/timetable-2022-hrdf-54/OeV_Sammlung_CH_HRDF_5_40_41_2022_20221207_205110.zip"@
}

} // verus!
