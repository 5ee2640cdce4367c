//! The errors of the library.
use crate::calendar::Date;
use vstd::prelude::*;

verus! {

/// What went wrong while reading a row of an HRDF file.
#[derive(Debug, Clone, PartialEq, Eq)]
pub enum ParsingError {
    /// The row does not follow the expected grammar.
    Syntax(String),
    /// A language code that is not known.
    Language(String),
    /// A reference to an id that does not exist.
    UnknownId(String),
    /// Any other failure, described.
    Unknown(String),
    /// A character that is not a hexadecimal digit.
    InvalidHexDigit(char),
    /// A LINIE row whose kind is not handled.
    MissingLineType,
    /// The default exchange time row is absent.
    MissingDefaultExchangeTime,
    /// A column that should hold an integer does not.
    ParseInt(String),
    /// A column that should hold a date does not.
    ParseDate(String),
    /// Hours, minutes and seconds that do not make a time of day.
    UnableToBuildTime(u32, u32, u32),
    /// An information text type that does not exist.
    MinssingInfotextTypeCode(String),
}

/// Errors about one journey.
#[derive(Debug, Clone, Copy, PartialEq, Eq)]
pub enum JourneyError {
    /// The journey has no bit field metadata.
    MissingBitFieldMetadata,
    /// A metadata list is empty.
    EmptyJourneyMetadata,
    /// The journey has no transport type metadata.
    MissingTransportType,
    /// A metadata entry has no resource id.
    MissingRessourceId,
    /// The transport type id is not in the storage.
    TransportIdNotFound(i32),
    /// The journey's route is empty.
    EmptyRoute,
    /// The stop id is not in the storage.
    StopIdNotFound(i32),
}

/// Errors of the library.
#[derive(Debug, Clone, PartialEq, Eq)]
pub enum HrdfError {
    /// The stop is not on the journey's route.
    MissingStopId(i32),
    /// The route entry at this index has no departure time.
    MissingDepartureTime(usize),
    /// The route entry at this index has no arrival time.
    MissingArrivalTime(usize),
    /// The journey has no route.
    MissingRoute,
    /// No timetable covers the date.
    OutOfRangeDate(Date),
    /// Adding the days to the date leaves the calendar.
    FailedToAddDays(Date, u64),
    /// Subtracting the days from the date leaves the calendar.
    FailedToSubDays(Date, u64),
    /// A bit field id that is not in the storage.
    BitFieldIdNotFound(i32),
    /// The timetable metadata has no entry with this key.
    MissingTimetableMetadata(String),
    /// The timetable metadata entry with this key is not a date.
    InvalidTimetableDate(String),
    /// An error about a journey.
    Journey(JourneyError),
    /// An error while reading a file, with the place where it happened.
    Parsing { error: ParsingError, file: String, line: String, line_number: usize },
}

/// Result of the library's operations.
pub type HResult<T> = Result<T, HrdfError>;

/// Result of the parsing functions.
pub type PResult<T> = Result<T, ParsingError>;

} // verus!
