//! Parsing of HRDF timetable data and journey planning over it.
pub mod calendar;
pub mod text;
pub mod fxmap;
pub mod error;
pub mod models;
pub mod journey;
pub mod utils;
pub mod version;
pub mod storage;
pub mod line_parser;
pub mod routing;
pub mod parsing;
pub mod parser;
pub mod isochrone;
pub mod exploration;
pub mod solutions;
pub mod search;
pub mod platforms;
pub mod exchange_line_parser;
pub mod attribute_parser;
pub mod bit_field_parser;
pub mod timetable_metadata_parser;
pub mod transport_type_parser;
pub mod direction_parser;
pub mod exchange_time_parser;
pub mod holiday_parser;
pub mod stop_parser;
pub mod stop_connection_parser;
pub mod information_text_parser;
pub mod transport_company_parser;
pub mod through_service_parser;
pub mod platform_parser;
pub mod fields;
pub mod companies;
pub mod journey_parser;
