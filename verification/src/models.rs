//! The data model of an HRDF timetable.
use crate::calendar::{Date, Time};
use crate::fxmap::PlainKey;
use crate::text::{opt_text, str_equals};
use vstd::prelude::*;

verus! {

/// Identifies a journey by its legacy number and its administration.
pub type JourneyId = (i32, String);

/// A resource that the storage keeps under its primary key.
pub trait Model: Sized {
    /// The primary key.
    type K: PlainKey;

    /// The primary key of the resource.
    spec fn model_id(&self) -> Self::K;

    /// The primary key of the resource.
    fn id(&self) -> (res: Self::K)
        ensures
            res == self.model_id(),
    ;
}

// ------------------------------------------------------------------------------------------------
// --- Language
// ------------------------------------------------------------------------------------------------

/// The languages of the translated texts.
#[derive(Clone, Copy, Debug, PartialEq, Eq, Structural, Hash)]
pub enum Language {
    German,
    French,
    Italian,
    English,
}

impl Language {
    /// The language written as a three-letter (`deu`, `fra`, `ita`, `eng`) or
    /// two-letter (`DE`, `FR`, `IT`, `EN`) code.
    pub fn from_code(code: &str) -> (res: Option<Language>)
        ensures
            res == language_of_code(code@),
    {
        if str_equals(code, "deu") || str_equals(code, "DE") {
            Some(Language::German)
        } else if str_equals(code, "fra") || str_equals(code, "FR") {
            Some(Language::French)
        } else if str_equals(code, "ita") || str_equals(code, "IT") {
            Some(Language::Italian)
        } else if str_equals(code, "eng") || str_equals(code, "EN") {
            Some(Language::English)
        } else {
            None
        }
    }

    /// The default language.
    pub fn default_language() -> (res: Language)
        ensures
            res == Language::German,
    {
        Language::German
    }
}

/// The language named by a code.
pub open spec fn language_of_code(code: Seq<char>) -> Option<Language> {
    if code == "deu"@ || code == "DE"@ {
        Some(Language::German)
    } else if code == "fra"@ || code == "FR"@ {
        Some(Language::French)
    } else if code == "ita"@ || code == "IT"@ {
        Some(Language::Italian)
    } else if code == "eng"@ || code == "EN"@ {
        Some(Language::English)
    } else {
        None
    }
}

/// A text in up to four languages.
#[derive(Clone, Debug, PartialEq, Eq)]
pub struct LanguageMap {
    german: Option<String>,
    french: Option<String>,
    italian: Option<String>,
    english: Option<String>,
}

impl LanguageMap {
    /// The text in one language.
    pub closed spec fn text_in(self, language: Language) -> Option<Seq<char>> {
        match language {
            Language::German => opt_text(self.german),
            Language::French => opt_text(self.french),
            Language::Italian => opt_text(self.italian),
            Language::English => opt_text(self.english),
        }
    }

    /// No text in any language.
    pub fn new() -> (res: LanguageMap)
        ensures
            forall|l: Language| res.text_in(l) is None,
    {
        LanguageMap { german: None, french: None, italian: None, english: None }
    }

    /// Sets the text in `language`, keeping the others.
    pub fn set(&mut self, language: Language, value: &str)
        ensures
            final(self).text_in(language) == Some(value@),
            forall|l: Language| l != language ==> final(self).text_in(l) == old(self).text_in(l),
    {
        let v = value.to_string();
        match language {
            Language::German => self.german = Some(v),
            Language::French => self.french = Some(v),
            Language::Italian => self.italian = Some(v),
            Language::English => self.english = Some(v),
        }
    }

    /// The text in `language`, if there is one.
    pub fn get(&self, language: Language) -> (res: Option<&String>)
        ensures
            match res {
                Some(s) => self.text_in(language) == Some(s@),
                None => self.text_in(language) is None,
            },
    {
        match language {
            Language::German => self.german.as_ref(),
            Language::French => self.french.as_ref(),
            Language::Italian => self.italian.as_ref(),
            Language::English => self.english.as_ref(),
        }
    }
}

// ------------------------------------------------------------------------------------------------
// --- Attribute
// ------------------------------------------------------------------------------------------------

/// An attribute of journeys (such as "restaurant on board").
#[derive(Clone, Debug)]
pub struct Attribute {
    id: i32,
    designation: String,
    stop_scope: i16,
    main_sorting_priority: i16,
    secondary_sorting_priority: i16,
    description: LanguageMap,
}

impl Attribute {
    pub closed spec fn spec_id(self) -> i32 {
        self.id
    }

    pub closed spec fn designation_text(self) -> Seq<char> {
        self.designation@
    }

    pub closed spec fn description_in(self, language: Language) -> Option<Seq<char>> {
        self.description.text_in(language)
    }

    pub closed spec fn spec_stop_scope(self) -> i16 {
        self.stop_scope
    }

    pub closed spec fn spec_main_sorting_priority(self) -> i16 {
        self.main_sorting_priority
    }

    pub closed spec fn spec_secondary_sorting_priority(self) -> i16 {
        self.secondary_sorting_priority
    }

    /// An attribute without descriptions.
    pub fn new(
        id: i32,
        designation: String,
        stop_scope: i16,
        main_sorting_priority: i16,
        secondary_sorting_priority: i16,
    ) -> (res: Attribute)
        ensures
            res.spec_id() == id,
            res.designation_text() == designation@,
            res.spec_stop_scope() == stop_scope,
            res.spec_main_sorting_priority() == main_sorting_priority,
            res.spec_secondary_sorting_priority() == secondary_sorting_priority,
            forall|l: Language| res.description_in(l) is None,
    {
        Attribute {
            id,
            designation,
            stop_scope,
            main_sorting_priority,
            secondary_sorting_priority,
            description: LanguageMap::new(),
        }
    }

    /// The id.
    pub fn id(&self) -> (res: i32)
        ensures
            res == self.spec_id(),
    {
        self.id
    }

    /// The designation (the code used in the files).
    pub fn designation(&self) -> (res: &str)
        ensures
            res@ == self.designation_text(),
    {
        self.designation.as_str()
    }

    /// The stop scope.
    pub fn stop_scope(&self) -> (res: i16)
        ensures
            res == self.spec_stop_scope(),
    {
        self.stop_scope
    }

    /// The main sorting priority.
    pub fn main_sorting_priority(&self) -> (res: i16)
        ensures
            res == self.spec_main_sorting_priority(),
    {
        self.main_sorting_priority
    }

    /// The secondary sorting priority.
    pub fn secondary_sorting_priority(&self) -> (res: i16)
        ensures
            res == self.spec_secondary_sorting_priority(),
    {
        self.secondary_sorting_priority
    }

    /// The description in one language, if it has one.
    pub fn description(&self, language: Language) -> (res: Option<&String>)
        ensures
            match res {
                Some(t) => self.description_in(language) == Some(t@),
                None => self.description_in(language) is None,
            },
    {
        self.description.get(language)
    }

    /// Sets the description in one language.
    pub fn set_description(&mut self, language: Language, value: &str)
        ensures
            final(self).description_in(language) == Some(value@),
            forall|l: Language|
                l != language ==> final(self).description_in(l) == old(self).description_in(l),
            final(self).spec_id() == old(self).spec_id(),
            final(self).designation_text() == old(self).designation_text(),
            final(self).spec_stop_scope() == old(self).spec_stop_scope(),
            final(self).spec_main_sorting_priority() == old(self).spec_main_sorting_priority(),
            final(self).spec_secondary_sorting_priority() == old(
                self,
            ).spec_secondary_sorting_priority(),
    {
        self.description.set(language, value);
    }
}

// ------------------------------------------------------------------------------------------------
// --- BitField
// ------------------------------------------------------------------------------------------------

/// The days on which something operates, one bit per day.
#[derive(Clone, Debug)]
pub struct BitField {
    id: i32,
    bits: Vec<u8>,
}

impl BitField {
    pub closed spec fn spec_id(self) -> i32 {
        self.id
    }

    pub closed spec fn spec_bits(self) -> Seq<u8> {
        self.bits@
    }

    /// A bit field.
    pub fn new(id: i32, bits: Vec<u8>) -> (res: BitField)
        ensures
            res.spec_id() == id,
            res.spec_bits() == bits@,
    {
        BitField { id, bits }
    }

    /// The id.
    pub fn id(&self) -> (res: i32)
        ensures
            res == self.spec_id(),
    {
        self.id
    }

    /// The bits.
    pub fn bits(&self) -> (res: &Vec<u8>)
        ensures
            res@ == self.spec_bits(),
    {
        &self.bits
    }
}

// ------------------------------------------------------------------------------------------------
// --- Color
// ------------------------------------------------------------------------------------------------

/// An RGB color.
#[derive(Clone, Copy, Debug, PartialEq, Eq, Structural)]
pub struct Color {
    r: i16,
    g: i16,
    b: i16,
}

impl Color {
    pub closed spec fn spec_r(self) -> i16 {
        self.r
    }

    pub closed spec fn spec_g(self) -> i16 {
        self.g
    }

    pub closed spec fn spec_b(self) -> i16 {
        self.b
    }

    /// A color.
    pub fn new(r: i16, g: i16, b: i16) -> (res: Color)
        ensures
            res == Color::spec_new(r, g, b),
            res.spec_r() == r,
            res.spec_g() == g,
            res.spec_b() == b,
    {
        Color { r, g, b }
    }

    /// Black, the default color.
    pub fn black() -> (res: Color)
        ensures
            res == Color::spec_black(),
            res.spec_r() == 0,
            res.spec_g() == 0,
            res.spec_b() == 0,
    {
        Color { r: 0, g: 0, b: 0 }
    }

    /// The red part.
    pub fn r(&self) -> (res: i16)
        ensures
            res == self.spec_r(),
    {
        self.r
    }

    /// The green part.
    pub fn g(&self) -> (res: i16)
        ensures
            res == self.spec_g(),
    {
        self.g
    }

    /// The blue part.
    pub fn b(&self) -> (res: i16)
        ensures
            res == self.spec_b(),
    {
        self.b
    }
}

// ------------------------------------------------------------------------------------------------
// --- CoordinateSystem, DirectionType, Direction
// ------------------------------------------------------------------------------------------------

/// The coordinate systems of the files.
#[derive(Clone, Copy, Debug, PartialEq, Eq, Structural, Hash)]
pub enum CoordinateSystem {
    LV95,
    WGS84,
}

/// The direction of a journey on its line.
#[derive(Clone, Copy, Debug, PartialEq, Eq, Structural, Hash)]
pub enum DirectionType {
    /// Written `R`.
    Outbound,
    /// Written `H`.
    Return,
}

impl DirectionType {
    /// The direction written as `R` or `H`.
    pub fn from_code(code: &str) -> (res: Option<DirectionType>)
        ensures
            res == (if code@ == "R"@ {
                Some(DirectionType::Outbound)
            } else if code@ == "H"@ {
                Some(DirectionType::Return)
            } else {
                None
            }),
    {
        if str_equals(code, "R") {
            Some(DirectionType::Outbound)
        } else if str_equals(code, "H") {
            Some(DirectionType::Return)
        } else {
            None
        }
    }
}

/// A direction text.
#[derive(Clone, Debug)]
pub struct Direction {
    id: i32,
    name: String,
}

impl Direction {
    pub closed spec fn spec_id(self) -> i32 {
        self.id
    }

    pub closed spec fn name_text(self) -> Seq<char> {
        self.name@
    }

    /// A direction.
    pub fn new(id: i32, name: String) -> (res: Direction)
        ensures
            res.spec_id() == id,
            res.name_text() == name@,
    {
        Direction { id, name }
    }

    /// The id.
    pub fn id(&self) -> (res: i32)
        ensures
            res == self.spec_id(),
    {
        self.id
    }

    /// The name.
    pub fn name(&self) -> (res: &str)
        ensures
            res@ == self.name_text(),
    {
        self.name.as_str()
    }
}

// ------------------------------------------------------------------------------------------------
// --- Holiday
// ------------------------------------------------------------------------------------------------

/// A public holiday.
#[derive(Clone, Debug)]
pub struct Holiday {
    id: i32,
    date: Date,
    name: LanguageMap,
}

impl Holiday {
    pub closed spec fn spec_id(self) -> i32 {
        self.id
    }

    pub closed spec fn spec_date(self) -> Date {
        self.date
    }

    pub closed spec fn name_in(self, language: Language) -> Option<Seq<char>> {
        self.name.text_in(language)
    }

    /// A holiday.
    pub fn new(id: i32, date: Date, name: LanguageMap) -> (res: Holiday)
        ensures
            res.spec_id() == id,
            res.spec_date() == date,
            forall|l: Language| res.name_in(l) == name.text_in(l),
    {
        Holiday { id, date, name }
    }

    /// The id.
    pub fn id(&self) -> (res: i32)
        ensures
            res == self.spec_id(),
    {
        self.id
    }

    /// The date.
    pub fn date(&self) -> (res: Date)
        ensures
            res == self.spec_date(),
    {
        self.date
    }

    /// The name in one language, if it has one.
    pub fn name(&self, language: Language) -> (res: Option<&String>)
        ensures
            match res {
                Some(t) => self.name_in(language) == Some(t@),
                None => self.name_in(language) is None,
            },
    {
        self.name.get(language)
    }
}

// ------------------------------------------------------------------------------------------------
// --- ExchangeTimeAdministration
// ------------------------------------------------------------------------------------------------

/// The exchange time between two administrations, at one stop or at all.
#[derive(Clone, Debug)]
pub struct ExchangeTimeAdministration {
    id: i32,
    /// `None` means every stop without a more specific entry.
    stop_id: Option<i32>,
    administration_1: String,
    administration_2: String,
    /// Minutes from administration 1 to administration 2.
    duration: i16,
}

impl ExchangeTimeAdministration {
    pub closed spec fn spec_id(self) -> i32 {
        self.id
    }

    pub closed spec fn spec_stop_id(self) -> Option<i32> {
        self.stop_id
    }

    pub closed spec fn administration_1_text(self) -> Seq<char> {
        self.administration_1@
    }

    pub closed spec fn administration_2_text(self) -> Seq<char> {
        self.administration_2@
    }

    pub closed spec fn spec_duration(self) -> i16 {
        self.duration
    }

    /// An exchange time between administrations.
    pub fn new(
        id: i32,
        stop_id: Option<i32>,
        administration_1: String,
        administration_2: String,
        duration: i16,
    ) -> (res: ExchangeTimeAdministration)
        ensures
            res.spec_id() == id,
            res.spec_stop_id() == stop_id,
            res.administration_1_text() == administration_1@,
            res.administration_2_text() == administration_2@,
            res.spec_duration() == duration,
    {
        ExchangeTimeAdministration { id, stop_id, administration_1, administration_2, duration }
    }

    /// The id.
    pub fn id(&self) -> (res: i32)
        ensures
            res == self.spec_id(),
    {
        self.id
    }

    /// The stop, or `None` for all stops.
    pub fn stop_id(&self) -> (res: Option<i32>)
        ensures
            res == self.spec_stop_id(),
    {
        self.stop_id
    }

    /// The first administration.
    pub fn administration_1(&self) -> (res: &str)
        ensures
            res@ == self.administration_1_text(),
    {
        self.administration_1.as_str()
    }

    /// The second administration.
    pub fn administration_2(&self) -> (res: &str)
        ensures
            res@ == self.administration_2_text(),
    {
        self.administration_2.as_str()
    }

    /// The exchange time in minutes.
    pub fn duration(&self) -> (res: i16)
        ensures
            res == self.spec_duration(),
    {
        self.duration
    }
}

// ------------------------------------------------------------------------------------------------
// --- ExchangeTimeJourney
// ------------------------------------------------------------------------------------------------

/// The exchange time between two journeys at a stop.
#[derive(Clone, Debug)]
pub struct ExchangeTimeJourney {
    id: i32,
    stop_id: i32,
    journey_legacy_id_1: i32,
    administration_1: String,
    journey_legacy_id_2: i32,
    administration_2: String,
    /// Minutes from journey 1 to journey 2.
    duration: i16,
    is_guaranteed: bool,
    bit_field_id: Option<i32>,
}

impl ExchangeTimeJourney {
    pub closed spec fn spec_id(self) -> i32 {
        self.id
    }

    pub closed spec fn spec_stop_id(self) -> i32 {
        self.stop_id
    }

    pub closed spec fn spec_journey_legacy_id_1(self) -> i32 {
        self.journey_legacy_id_1
    }

    pub closed spec fn administration_1_text(self) -> Seq<char> {
        self.administration_1@
    }

    pub closed spec fn spec_journey_legacy_id_2(self) -> i32 {
        self.journey_legacy_id_2
    }

    pub closed spec fn administration_2_text(self) -> Seq<char> {
        self.administration_2@
    }

    pub closed spec fn spec_duration(self) -> i16 {
        self.duration
    }

    pub closed spec fn spec_is_guaranteed(self) -> bool {
        self.is_guaranteed
    }

    pub closed spec fn spec_bit_field_id(self) -> Option<i32> {
        self.bit_field_id
    }

    /// An exchange time between journeys.
    pub fn new(
        id: i32,
        stop_id: i32,
        journey_1: JourneyId,
        journey_2: JourneyId,
        duration: i16,
        is_guaranteed: bool,
        bit_field_id: Option<i32>,
    ) -> (res: ExchangeTimeJourney)
        ensures
            res.spec_id() == id,
            res.spec_stop_id() == stop_id,
            res.spec_journey_legacy_id_1() == journey_1.0,
            res.administration_1_text() == journey_1.1@,
            res.spec_journey_legacy_id_2() == journey_2.0,
            res.administration_2_text() == journey_2.1@,
            res.spec_duration() == duration,
            res.spec_is_guaranteed() == is_guaranteed,
            res.spec_bit_field_id() == bit_field_id,
    {
        let (journey_legacy_id_1, administration_1) = journey_1;
        let (journey_legacy_id_2, administration_2) = journey_2;
        ExchangeTimeJourney {
            id,
            stop_id,
            journey_legacy_id_1,
            administration_1,
            journey_legacy_id_2,
            administration_2,
            duration,
            is_guaranteed,
            bit_field_id,
        }
    }

    /// The id.
    pub fn id(&self) -> (res: i32)
        ensures
            res == self.spec_id(),
    {
        self.id
    }

    /// The stop.
    pub fn stop_id(&self) -> (res: i32)
        ensures
            res == self.spec_stop_id(),
    {
        self.stop_id
    }

    /// The legacy number of journey 1.
    pub fn journey_legacy_id_1(&self) -> (res: i32)
        ensures
            res == self.spec_journey_legacy_id_1(),
    {
        self.journey_legacy_id_1
    }

    /// The administration of journey 1.
    pub fn administration_1(&self) -> (res: &str)
        ensures
            res@ == self.administration_1_text(),
    {
        self.administration_1.as_str()
    }

    /// The legacy number of journey 2.
    pub fn journey_legacy_id_2(&self) -> (res: i32)
        ensures
            res == self.spec_journey_legacy_id_2(),
    {
        self.journey_legacy_id_2
    }

    /// The administration of journey 2.
    pub fn administration_2(&self) -> (res: &str)
        ensures
            res@ == self.administration_2_text(),
    {
        self.administration_2.as_str()
    }

    /// The exchange time in minutes.
    pub fn duration(&self) -> (res: i16)
        ensures
            res == self.spec_duration(),
    {
        self.duration
    }

    /// Whether the connection is guaranteed.
    pub fn is_guaranteed(&self) -> (res: bool)
        ensures
            res == self.spec_is_guaranteed(),
    {
        self.is_guaranteed
    }

    /// The days on which it applies (`None`: every day).
    pub fn bit_field_id(&self) -> (res: Option<i32>)
        ensures
            res == self.spec_bit_field_id(),
    {
        self.bit_field_id
    }
}

// ------------------------------------------------------------------------------------------------
// --- ExchangeTimeLine
// ------------------------------------------------------------------------------------------------

/// A line as the exchange times between lines name it.
#[derive(Clone, Debug)]
pub struct LineInfo {
    administration: String,
    transport_type_id: i32,
    line_id: Option<String>,
    direction: Option<DirectionType>,
}

impl LineInfo {
    pub closed spec fn administration_text(self) -> Seq<char> {
        self.administration@
    }

    pub closed spec fn spec_transport_type_id(self) -> i32 {
        self.transport_type_id
    }

    pub closed spec fn line_id_text(self) -> Option<Seq<char>> {
        opt_text(self.line_id)
    }

    pub closed spec fn spec_direction(self) -> Option<DirectionType> {
        self.direction
    }

    /// A line description.
    pub fn new(
        administration: String,
        transport_type_id: i32,
        line_id: Option<String>,
        direction: Option<DirectionType>,
    ) -> (res: LineInfo)
        ensures
            res.administration_text() == administration@,
            res.spec_transport_type_id() == transport_type_id,
            res.line_id_text() == opt_text(line_id),
            res.spec_direction() == direction,
    {
        LineInfo { administration, transport_type_id, line_id, direction }
    }
}

/// The exchange time between two lines.
#[derive(Clone, Debug)]
pub struct ExchangeTimeLine {
    id: i32,
    stop_id: Option<i32>,
    line_1: LineInfo,
    line_2: LineInfo,
    /// Minutes from line 1 to line 2.
    duration: i16,
    is_guaranteed: bool,
}

impl ExchangeTimeLine {
    pub closed spec fn spec_id(self) -> i32 {
        self.id
    }

    pub closed spec fn spec_stop_id(self) -> Option<i32> {
        self.stop_id
    }

    pub closed spec fn spec_line_1(self) -> LineInfo {
        self.line_1
    }

    pub closed spec fn spec_line_2(self) -> LineInfo {
        self.line_2
    }

    pub closed spec fn spec_duration(self) -> i16 {
        self.duration
    }

    pub closed spec fn spec_is_guaranteed(self) -> bool {
        self.is_guaranteed
    }

    /// An exchange time between lines.
    pub fn new(
        id: i32,
        stop_id: Option<i32>,
        line_1: LineInfo,
        line_2: LineInfo,
        duration: i16,
        is_guaranteed: bool,
    ) -> (res: ExchangeTimeLine)
        ensures
            res.spec_id() == id,
            res.spec_stop_id() == stop_id,
            res.spec_line_1() == line_1,
            res.spec_line_2() == line_2,
            res.spec_duration() == duration,
            res.spec_is_guaranteed() == is_guaranteed,
    {
        ExchangeTimeLine { id, stop_id, line_1, line_2, duration, is_guaranteed }
    }

    /// The id.
    pub fn id(&self) -> (res: i32)
        ensures
            res == self.spec_id(),
    {
        self.id
    }

    /// The stop, if the exchange time holds at one stop only.
    pub fn stop_id(&self) -> (res: Option<i32>)
        ensures
            res == self.spec_stop_id(),
    {
        self.stop_id
    }

    /// The exchange time in minutes.
    pub fn duration(&self) -> (res: i16)
        ensures
            res == self.spec_duration(),
    {
        self.duration
    }

    /// Whether the exchange is guaranteed.
    pub fn is_guaranteed(&self) -> (res: bool)
        ensures
            res == self.spec_is_guaranteed(),
    {
        self.is_guaranteed
    }
}

// ------------------------------------------------------------------------------------------------
// --- InformationText
// ------------------------------------------------------------------------------------------------

/// An information text in several languages.
#[derive(Clone, Debug)]
pub struct InformationText {
    id: i32,
    content: LanguageMap,
}

impl InformationText {
    pub closed spec fn spec_id(self) -> i32 {
        self.id
    }

    pub closed spec fn content_in(self, language: Language) -> Option<Seq<char>> {
        self.content.text_in(language)
    }

    /// An information text without content.
    pub fn new(id: i32) -> (res: InformationText)
        ensures
            res.spec_id() == id,
            forall|l: Language| res.content_in(l) is None,
    {
        InformationText { id, content: LanguageMap::new() }
    }

    /// The id.
    pub fn id(&self) -> (res: i32)
        ensures
            res == self.spec_id(),
    {
        self.id
    }

    /// The content in one language, if it has one.
    pub fn content(&self, language: Language) -> (res: Option<&String>)
        ensures
            match res {
                Some(t) => self.content_in(language) == Some(t@),
                None => self.content_in(language) is None,
            },
    {
        self.content.get(language)
    }

    /// Sets the content in one language.
    pub fn set_content(&mut self, language: Language, value: &str)
        ensures
            final(self).content_in(language) == Some(value@),
            forall|l: Language|
                l != language ==> final(self).content_in(l) == old(self).content_in(l),
            final(self).spec_id() == old(self).spec_id(),
    {
        self.content.set(language, value);
    }
}

} // verus!

verus! {

// ------------------------------------------------------------------------------------------------
// --- JourneyPlatform
// ------------------------------------------------------------------------------------------------

/// The platform that a journey uses at a stop.
#[derive(Clone, Debug)]
pub struct JourneyPlatform {
    journey_legacy_id: i32,
    administration: String,
    platform_id: i32,
    time: Option<Time>,
    bit_field_id: Option<i32>,
}

impl JourneyPlatform {
    pub closed spec fn spec_journey_legacy_id(self) -> i32 {
        self.journey_legacy_id
    }

    pub closed spec fn administration_text(self) -> Seq<char> {
        self.administration@
    }

    pub closed spec fn spec_platform_id(self) -> i32 {
        self.platform_id
    }

    pub closed spec fn spec_time(self) -> Option<Time> {
        self.time
    }

    pub closed spec fn spec_bit_field_id(self) -> Option<i32> {
        self.bit_field_id
    }

    /// A journey's platform.
    pub fn new(
        journey_legacy_id: i32,
        administration: String,
        platform_id: i32,
        time: Option<Time>,
        bit_field_id: Option<i32>,
    ) -> (res: JourneyPlatform)
        ensures
            res.spec_journey_legacy_id() == journey_legacy_id,
            res.administration_text() == administration@,
            res.spec_platform_id() == platform_id,
            res.spec_time() == time,
            res.spec_bit_field_id() == bit_field_id,
    {
        JourneyPlatform { journey_legacy_id, administration, platform_id, time, bit_field_id }
    }

    /// The key: the journey's legacy number and the platform.
    pub fn id(&self) -> (res: (i32, i32))
        ensures
            res == (self.spec_journey_legacy_id(), self.spec_platform_id()),
    {
        (self.journey_legacy_id, self.platform_id)
    }
}

// ------------------------------------------------------------------------------------------------
// --- Line
// ------------------------------------------------------------------------------------------------

/// A line, with its names and colors.
#[derive(Clone, Debug)]
pub struct Line {
    id: i32,
    name: String,
    short_name: String,
    long_name: String,
    region_name: String,
    internal_designation: String,
    description: String,
    text_color: Color,
    background_color: Color,
    infotext_id: i32,
}

/// What a line holds.
pub struct LineView {
    pub id: i32,
    pub name: Seq<char>,
    pub short_name: Seq<char>,
    pub long_name: Seq<char>,
    pub region_name: Seq<char>,
    pub internal_designation: Seq<char>,
    pub description: Seq<char>,
    pub text_color: Color,
    pub background_color: Color,
    pub infotext_id: i32,
}

impl View for Line {
    type V = LineView;

    closed spec fn view(&self) -> LineView {
        LineView {
            id: self.id,
            name: self.name@,
            short_name: self.short_name@,
            long_name: self.long_name@,
            region_name: self.region_name@,
            internal_designation: self.internal_designation@,
            description: self.description@,
            text_color: self.text_color,
            background_color: self.background_color,
            infotext_id: self.infotext_id,
        }
    }
}

impl Line {
    /// A line with a name and nothing else set: empty texts, black colors
    /// and no information text (-1).
    pub fn new(id: i32, name: String) -> (res: Line)
        ensures
            res@ == (LineView {
                id,
                name: name@,
                short_name: Seq::empty(),
                long_name: Seq::empty(),
                region_name: Seq::empty(),
                internal_designation: Seq::empty(),
                description: Seq::empty(),
                text_color: Color::spec_black(),
                background_color: Color::spec_black(),
                infotext_id: -1i32,
            }),
    {
        Line {
            id,
            name,
            short_name: String::new(),
            long_name: String::new(),
            region_name: String::new(),
            internal_designation: String::new(),
            description: String::new(),
            text_color: Color::black(),
            background_color: Color::black(),
            infotext_id: -1,
        }
    }

    /// A copy of the line.
    pub fn duplicate(&self) -> (res: Line)
        ensures
            res@ == self@,
    {
        Line {
            id: self.id,
            name: self.name.clone(),
            short_name: self.short_name.clone(),
            long_name: self.long_name.clone(),
            region_name: self.region_name.clone(),
            internal_designation: self.internal_designation.clone(),
            description: self.description.clone(),
            text_color: self.text_color,
            background_color: self.background_color,
            infotext_id: self.infotext_id,
        }
    }

    /// The id.
    pub fn id(&self) -> (res: i32)
        ensures
            res == self@.id,
    {
        self.id
    }

    /// The line key (`K` row).
    pub fn name(&self) -> (res: &str)
        ensures
            res@ == self@.name,
    {
        self.name.as_str()
    }

    /// Sets the short name.
    pub fn set_short_name(&mut self, value: String)
        ensures
            final(self)@ == (LineView { short_name: value@, ..old(self)@ }),
    {
        self.short_name = value;
    }

    /// Sets the long name.
    pub fn set_long_name(&mut self, value: String)
        ensures
            final(self)@ == (LineView { long_name: value@, ..old(self)@ }),
    {
        self.long_name = value;
    }

    /// The short name, by which lines are known to passengers.
    pub fn get_name(&self) -> (res: &String)
        ensures
            res@ == self@.short_name,
    {
        &self.short_name
    }

    /// Sets the region name.
    pub fn set_region_name(&mut self, value: String)
        ensures
            final(self)@ == (LineView { region_name: value@, ..old(self)@ }),
    {
        self.region_name = value;
    }

    /// Sets the internal designation.
    pub fn set_internal_designation(&mut self, value: String)
        ensures
            final(self)@ == (LineView { internal_designation: value@, ..old(self)@ }),
    {
        self.internal_designation = value;
    }

    /// Sets the description.
    pub fn set_description(&mut self, value: String)
        ensures
            final(self)@ == (LineView { description: value@, ..old(self)@ }),
    {
        self.description = value;
    }

    /// Sets the text color.
    pub fn set_text_color(&mut self, value: Color)
        ensures
            final(self)@ == (LineView { text_color: value, ..old(self)@ }),
    {
        self.text_color = value;
    }

    /// Sets the background color.
    pub fn set_background_color(&mut self, value: Color)
        ensures
            final(self)@ == (LineView { background_color: value, ..old(self)@ }),
    {
        self.background_color = value;
    }

    /// Sets the information text.
    pub fn set_infotext_id(&mut self, value: i32)
        ensures
            final(self)@ == (LineView { infotext_id: value, ..old(self)@ }),
    {
        self.infotext_id = value;
    }

    /// The text color.
    pub fn text_color(&self) -> (res: Color)
        ensures
            res == self@.text_color,
    {
        self.text_color
    }

    /// The background color.
    pub fn background_color(&self) -> (res: Color)
        ensures
            res == self@.background_color,
    {
        self.background_color
    }

    /// The long name.
    pub fn long_name(&self) -> (res: &str)
        ensures
            res@ == self@.long_name,
    {
        self.long_name.as_str()
    }

    /// The region name.
    pub fn region_name(&self) -> (res: &str)
        ensures
            res@ == self@.region_name,
    {
        self.region_name.as_str()
    }

    /// The internal designation.
    pub fn internal_designation(&self) -> (res: &str)
        ensures
            res@ == self@.internal_designation,
    {
        self.internal_designation.as_str()
    }

    /// The description.
    pub fn description(&self) -> (res: &str)
        ensures
            res@ == self@.description,
    {
        self.description.as_str()
    }

    /// The information text.
    pub fn infotext_id(&self) -> (res: i32)
        ensures
            res == self@.infotext_id,
    {
        self.infotext_id
    }
}

impl Color {
    pub open spec fn spec_black() -> Color {
        Color::spec_new(0, 0, 0)
    }

    pub closed spec fn spec_new(r: i16, g: i16, b: i16) -> Color {
        Color { r, g, b }
    }

    /// A color holds the components it was made from.
    pub proof fn lemma_spec_new(r: i16, g: i16, b: i16)
        ensures
            Color::spec_new(r, g, b).spec_r() == r,
            Color::spec_new(r, g, b).spec_g() == g,
            Color::spec_new(r, g, b).spec_b() == b,
    {
    }
}

} // verus!

verus! {

/// The views of a list of strings.
pub open spec fn texts(v: Seq<String>) -> Seq<Seq<char>> {
    v.map_values(|s: String| s@)
}

// ------------------------------------------------------------------------------------------------
// --- Platform
// ------------------------------------------------------------------------------------------------

/// A platform of a stop.
#[derive(Clone, Debug)]
pub struct Platform {
    id: i32,
    name: String,
    sectors: Option<String>,
    stop_id: i32,
    sloid: String,
}

/// What a platform holds.
pub struct PlatformView {
    pub id: i32,
    pub name: Seq<char>,
    pub sectors: Option<Seq<char>>,
    pub stop_id: i32,
    pub sloid: Seq<char>,
}

impl View for Platform {
    type V = PlatformView;

    closed spec fn view(&self) -> PlatformView {
        PlatformView {
            id: self.id,
            name: self.name@,
            sectors: opt_text(self.sectors),
            stop_id: self.stop_id,
            sloid: self.sloid@,
        }
    }
}

impl Platform {
    /// A platform without SLOID.
    pub fn new(id: i32, name: String, sectors: Option<String>, stop_id: i32) -> (res: Platform)
        ensures
            res@ == (PlatformView {
                id,
                name: name@,
                sectors: opt_text(sectors),
                stop_id,
                sloid: Seq::empty(),
            }),
    {
        Platform { id, name, sectors, stop_id, sloid: String::new() }
    }

    /// The id.
    pub fn id(&self) -> (res: i32)
        ensures
            res == self@.id,
    {
        self.id
    }

    /// The stop.
    pub fn stop_id(&self) -> (res: i32)
        ensures
            res == self@.stop_id,
    {
        self.stop_id
    }

    /// The name.
    pub fn name(&self) -> (res: &str)
        ensures
            res@ == self@.name,
    {
        self.name.as_str()
    }

    /// The SLOID (empty where none was given).
    pub fn sloid(&self) -> (res: &str)
        ensures
            res@ == self@.sloid,
    {
        self.sloid.as_str()
    }

    /// Sets the SLOID.
    pub fn set_sloid(&mut self, value: String)
        ensures
            final(self)@ == (PlatformView { sloid: value@, ..old(self)@ }),
    {
        self.sloid = value;
    }
}

// ------------------------------------------------------------------------------------------------
// --- Stop
// ------------------------------------------------------------------------------------------------

/// A stop.
#[derive(Clone, Debug)]
pub struct Stop {
    id: i32,
    name: String,
    long_name: Option<String>,
    abbreviation: Option<String>,
    synonyms: Option<Vec<String>>,
    exchange_priority: i16,
    exchange_flag: i16,
    /// (InterCity exchange time, exchange time for all other journeys)
    exchange_time: Option<(i16, i16)>,
    restrictions: i16,
    sloid: String,
    boarding_areas: Vec<String>,
}

/// What a stop holds.
pub struct StopView {
    pub id: i32,
    pub name: Seq<char>,
    pub long_name: Option<Seq<char>>,
    pub abbreviation: Option<Seq<char>>,
    pub synonyms: Option<Seq<Seq<char>>>,
    pub exchange_priority: i16,
    pub exchange_flag: i16,
    pub exchange_time: Option<(i16, i16)>,
    pub restrictions: i16,
    pub sloid: Seq<char>,
    pub boarding_areas: Seq<Seq<char>>,
}

/// The view of an optional list of strings.
pub open spec fn opt_texts(o: Option<Vec<String>>) -> Option<Seq<Seq<char>>> {
    match o {
        Some(v) => Some(texts(v@)),
        None => None,
    }
}

impl View for Stop {
    type V = StopView;

    closed spec fn view(&self) -> StopView {
        StopView {
            id: self.id,
            name: self.name@,
            long_name: opt_text(self.long_name),
            abbreviation: opt_text(self.abbreviation),
            synonyms: opt_texts(self.synonyms),
            exchange_priority: self.exchange_priority,
            exchange_flag: self.exchange_flag,
            exchange_time: self.exchange_time,
            restrictions: self.restrictions,
            sloid: self.sloid@,
            boarding_areas: texts(self.boarding_areas@),
        }
    }
}

/// A copy of a list of strings.
fn copy_texts(v: &Vec<String>) -> (res: Vec<String>)
    ensures
        texts(res@) == texts(v@),
{
    let mut res: Vec<String> = Vec::new();
    let mut i: usize = 0;
    while i < v.len()
        invariant
            0 <= i <= v@.len(),
            res@.len() == i,
            forall|j: int| 0 <= j < i ==> (#[trigger] res@[j])@ == v@[j]@,
        decreases v@.len() - i,
    {
        res.push(v[i].clone());
        i = i + 1;
    }
    assert(texts(res@) =~= texts(v@));
    res
}

/// A copy of an optional string.
fn copy_opt_text(o: &Option<String>) -> (res: Option<String>)
    ensures
        opt_text(res) == opt_text(*o),
{
    match o {
        Some(s) => Some(s.clone()),
        None => None,
    }
}

impl Stop {
    /// A copy of the stop.
    pub fn duplicate(&self) -> (res: Stop)
        ensures
            res@ == self@,
    {
        let synonyms = match &self.synonyms {
            Some(v) => Some(copy_texts(v)),
            None => None,
        };
        Stop {
            id: self.id,
            name: self.name.clone(),
            long_name: copy_opt_text(&self.long_name),
            abbreviation: copy_opt_text(&self.abbreviation),
            synonyms,
            exchange_priority: self.exchange_priority,
            exchange_flag: self.exchange_flag,
            exchange_time: self.exchange_time,
            restrictions: self.restrictions,
            sloid: self.sloid.clone(),
            boarding_areas: copy_texts(&self.boarding_areas),
        }
    }

    /// A stop with the default exchange priority (8) and nothing else set.
    pub fn new(
        id: i32,
        name: String,
        long_name: Option<String>,
        abbreviation: Option<String>,
        synonyms: Option<Vec<String>>,
    ) -> (res: Stop)
        ensures
            res@ == (StopView {
                id,
                name: name@,
                long_name: opt_text(long_name),
                abbreviation: opt_text(abbreviation),
                synonyms: opt_texts(synonyms),
                exchange_priority: 8,
                exchange_flag: 0,
                exchange_time: None,
                restrictions: 0,
                sloid: Seq::empty(),
                boarding_areas: Seq::empty(),
            }),
    {
        let res = Stop {
            id,
            name,
            long_name,
            abbreviation,
            synonyms,
            exchange_priority: 8,
            exchange_flag: 0,
            exchange_time: None,
            restrictions: 0,
            sloid: String::new(),
            boarding_areas: Vec::new(),
        };
        assert(texts(res.boarding_areas@) =~= Seq::empty());
        res
    }

    /// The id.
    pub fn id(&self) -> (res: i32)
        ensures
            res == self@.id,
    {
        self.id
    }

    /// The name.
    pub fn name(&self) -> (res: &str)
        ensures
            res@ == self@.name,
    {
        self.name.as_str()
    }

    /// Sets the exchange priority.
    pub fn set_exchange_priority(&mut self, value: i16)
        ensures
            final(self)@ == (StopView { exchange_priority: value, ..old(self)@ }),
    {
        self.exchange_priority = value;
    }

    /// The exchange flag.
    pub fn exchange_flag(&self) -> (res: i16)
        ensures
            res == self@.exchange_flag,
    {
        self.exchange_flag
    }

    /// Sets the exchange flag.
    pub fn set_exchange_flag(&mut self, value: i16)
        ensures
            final(self)@ == (StopView { exchange_flag: value, ..old(self)@ }),
    {
        self.exchange_flag = value;
    }

    /// The exchange times.
    pub fn exchange_time(&self) -> (res: Option<(i16, i16)>)
        ensures
            res == self@.exchange_time,
    {
        self.exchange_time
    }

    /// Sets the exchange times.
    pub fn set_exchange_time(&mut self, value: Option<(i16, i16)>)
        ensures
            final(self)@ == (StopView { exchange_time: value, ..old(self)@ }),
    {
        self.exchange_time = value;
    }

    /// Sets the restrictions.
    pub fn set_restrictions(&mut self, value: i16)
        ensures
            final(self)@ == (StopView { restrictions: value, ..old(self)@ }),
    {
        self.restrictions = value;
    }

    /// Sets the SLOID.
    pub fn set_sloid(&mut self, value: String)
        ensures
            final(self)@ == (StopView { sloid: value@, ..old(self)@ }),
    {
        self.sloid = value;
    }

    /// Adds a boarding area.
    pub fn add_boarding_area(&mut self, value: String)
        ensures
            final(self)@ == (StopView {
                boarding_areas: old(self)@.boarding_areas.push(value@),
                ..old(self)@
            }),
    {
        self.boarding_areas.push(value);
        assert(texts(self.boarding_areas@) =~= texts(old(self).boarding_areas@).push(value@));
    }

    /// Whether passengers can change journeys at the stop.
    pub fn can_be_used_as_exchange_point(&self) -> (res: bool)
        ensures
            res == (self@.exchange_flag != 0),
    {
        self.exchange_flag() != 0
    }
}

// ------------------------------------------------------------------------------------------------
// --- StopConnection
// ------------------------------------------------------------------------------------------------

/// A walk between two nearby stops.
#[derive(Clone, Copy, Debug, PartialEq, Eq, Structural)]
pub struct StopConnection {
    id: i32,
    stop_id_1: i32,
    stop_id_2: i32,
    /// Minutes from stop 1 to stop 2.
    duration: i16,
    attribute: i32,
}

impl StopConnection {
    pub closed spec fn spec_id(self) -> i32 {
        self.id
    }

    pub closed spec fn spec_stop_id_1(self) -> i32 {
        self.stop_id_1
    }

    pub closed spec fn spec_stop_id_2(self) -> i32 {
        self.stop_id_2
    }

    pub closed spec fn spec_duration(self) -> i16 {
        self.duration
    }

    pub closed spec fn spec_attribute(self) -> i32 {
        self.attribute
    }

    /// A stop connection without attribute.
    pub fn new(id: i32, stop_id_1: i32, stop_id_2: i32, duration: i16) -> (res: StopConnection)
        ensures
            res.spec_id() == id,
            res.spec_stop_id_1() == stop_id_1,
            res.spec_stop_id_2() == stop_id_2,
            res.spec_duration() == duration,
            res.spec_attribute() == 0,
    {
        StopConnection { id, stop_id_1, stop_id_2, duration, attribute: 0 }
    }

    /// The id.
    pub fn id(&self) -> (res: i32)
        ensures
            res == self.spec_id(),
    {
        self.id
    }

    /// The stop the walk starts at.
    pub fn stop_id_1(&self) -> (res: i32)
        ensures
            res == self.spec_stop_id_1(),
    {
        self.stop_id_1
    }

    /// The stop the walk ends at.
    pub fn stop_id_2(&self) -> (res: i32)
        ensures
            res == self.spec_stop_id_2(),
    {
        self.stop_id_2
    }

    /// The walking time in minutes.
    pub fn duration(&self) -> (res: i16)
        ensures
            res == self.spec_duration(),
    {
        self.duration
    }

    /// The attribute.
    pub fn attribute(&self) -> (res: i32)
        ensures
            res == self.spec_attribute(),
    {
        self.attribute
    }

    /// Sets the attribute.
    pub fn set_attribute(&mut self, value: i32)
        ensures
            final(self).spec_attribute() == value,
            final(self).spec_id() == old(self).spec_id(),
            final(self).spec_stop_id_1() == old(self).spec_stop_id_1(),
            final(self).spec_stop_id_2() == old(self).spec_stop_id_2(),
            final(self).spec_duration() == old(self).spec_duration(),
    {
        self.attribute = value;
    }
}

// ------------------------------------------------------------------------------------------------
// --- ThroughService
// ------------------------------------------------------------------------------------------------

/// Two journeys served by the same vehicle without a change.
#[derive(Debug)]
pub struct ThroughService {
    id: i32,
    journey_1_id: JourneyId,
    /// Last stop of journey 1.
    journey_1_stop_id: i32,
    journey_2_id: JourneyId,
    /// First stop of journey 2.
    journey_2_stop_id: i32,
    bit_field_id: i32,
}

/// The view of a journey id.
pub open spec fn journey_id_view(j: JourneyId) -> (i32, Seq<char>) {
    (j.0, j.1@)
}

impl ThroughService {
    pub closed spec fn spec_id(self) -> i32 {
        self.id
    }

    pub closed spec fn spec_journey_1_id(self) -> (i32, Seq<char>) {
        journey_id_view(self.journey_1_id)
    }

    pub closed spec fn spec_journey_1_stop_id(self) -> i32 {
        self.journey_1_stop_id
    }

    pub closed spec fn spec_journey_2_id(self) -> (i32, Seq<char>) {
        journey_id_view(self.journey_2_id)
    }

    pub closed spec fn spec_journey_2_stop_id(self) -> i32 {
        self.journey_2_stop_id
    }

    pub closed spec fn spec_bit_field_id(self) -> i32 {
        self.bit_field_id
    }

    /// A through service.
    pub fn new(
        id: i32,
        journey_1_id: JourneyId,
        journey_1_stop_id: i32,
        journey_2_id: JourneyId,
        journey_2_stop_id: i32,
        bit_field_id: i32,
    ) -> (res: ThroughService)
        ensures
            res.spec_id() == id,
            res.spec_journey_1_id() == journey_id_view(journey_1_id),
            res.spec_journey_1_stop_id() == journey_1_stop_id,
            res.spec_journey_2_id() == journey_id_view(journey_2_id),
            res.spec_journey_2_stop_id() == journey_2_stop_id,
            res.spec_bit_field_id() == bit_field_id,
    {
        ThroughService {
            id,
            journey_1_id,
            journey_1_stop_id,
            journey_2_id,
            journey_2_stop_id,
            bit_field_id,
        }
    }

    /// The id.
    pub fn id(&self) -> (res: i32)
        ensures
            res == self.spec_id(),
    {
        self.id
    }

    /// Journey 1.
    pub fn journey_1_id(&self) -> (res: &JourneyId)
        ensures
            journey_id_view(*res) == self.spec_journey_1_id(),
    {
        &self.journey_1_id
    }

    /// The last stop of journey 1.
    pub fn journey_1_stop_id(&self) -> (res: i32)
        ensures
            res == self.spec_journey_1_stop_id(),
    {
        self.journey_1_stop_id
    }

    /// Journey 2.
    pub fn journey_2_id(&self) -> (res: &JourneyId)
        ensures
            journey_id_view(*res) == self.spec_journey_2_id(),
    {
        &self.journey_2_id
    }

    /// The first stop of journey 2.
    pub fn journey_2_stop_id(&self) -> (res: i32)
        ensures
            res == self.spec_journey_2_stop_id(),
    {
        self.journey_2_stop_id
    }

    /// The days on which the through service runs.
    pub fn bit_field_id(&self) -> (res: i32)
        ensures
            res == self.spec_bit_field_id(),
    {
        self.bit_field_id
    }
}

// ------------------------------------------------------------------------------------------------
// --- TimetableMetadataEntry
// ------------------------------------------------------------------------------------------------

/// A key and value from the timetable's header.
#[derive(Clone, Debug)]
pub struct TimetableMetadataEntry {
    id: i32,
    key: String,
    value: String,
}

impl TimetableMetadataEntry {
    pub closed spec fn spec_id(self) -> i32 {
        self.id
    }

    pub closed spec fn key_text(self) -> Seq<char> {
        self.key@
    }

    pub closed spec fn value_text(self) -> Seq<char> {
        self.value@
    }

    /// An entry.
    pub fn new(id: i32, key: String, value: String) -> (res: TimetableMetadataEntry)
        ensures
            res.spec_id() == id,
            res.key_text() == key@,
            res.value_text() == value@,
    {
        TimetableMetadataEntry { id, key, value }
    }

    /// The id.
    pub fn id(&self) -> (res: i32)
        ensures
            res == self.spec_id(),
    {
        self.id
    }

    /// The key.
    pub fn key(&self) -> (res: &str)
        ensures
            res@ == self.key_text(),
    {
        self.key.as_str()
    }

    /// The value.
    pub fn value(&self) -> (res: &str)
        ensures
            res@ == self.value_text(),
    {
        self.value.as_str()
    }

    /// The value read as a `%Y-%m-%d` date, if it is one.
    pub fn value_as_naive_date(&self) -> (res: Option<Date>)
        ensures
            match res {
                Some(d) => crate::calendar::parsed_day_number(self.value_text(), "%Y-%m-%d"@)
                    == Some(d.day_number()),
                None => crate::calendar::parsed_day_number(self.value_text(), "%Y-%m-%d"@) is None,
            },
            res matches Some(d) ==> crate::calendar::in_calendar_range(d.day_number()),
    {
        Date::parse(self.value.as_str(), "%Y-%m-%d")
    }
}

// ------------------------------------------------------------------------------------------------
// --- TransportCompany
// ------------------------------------------------------------------------------------------------

/// A transport company, with the administrations it runs.
#[derive(Clone, Debug)]
pub struct TransportCompany {
    id: i32,
    short_name: LanguageMap,
    long_name: LanguageMap,
    full_name: LanguageMap,
    administrations: Vec<String>,
}

impl TransportCompany {
    pub closed spec fn spec_id(self) -> i32 {
        self.id
    }

    pub closed spec fn spec_short_name(self) -> LanguageMap {
        self.short_name
    }

    pub closed spec fn spec_long_name(self) -> LanguageMap {
        self.long_name
    }

    pub closed spec fn spec_full_name(self) -> LanguageMap {
        self.full_name
    }

    pub closed spec fn administrations_text(self) -> Seq<Seq<char>> {
        texts(self.administrations@)
    }

    /// A company without names and administrations.
    pub fn new(id: i32) -> (res: TransportCompany)
        ensures
            res.spec_id() == id,
            forall|l: Language|
                res.spec_short_name().text_in(l) is None && res.spec_long_name().text_in(l) is None
                    && res.spec_full_name().text_in(l) is None,
            res.administrations_text() == Seq::<Seq<char>>::empty(),
    {
        let res = TransportCompany {
            id,
            short_name: LanguageMap::new(),
            long_name: LanguageMap::new(),
            full_name: LanguageMap::new(),
            administrations: Vec::new(),
        };
        assert(texts(res.administrations@) =~= Seq::empty());
        res
    }

    /// The id.
    pub fn id(&self) -> (res: i32)
        ensures
            res == self.spec_id(),
    {
        self.id
    }

    /// The administrations.
    pub fn administrations(&self) -> (res: &Vec<String>)
        ensures
            texts(res@) == self.administrations_text(),
    {
        &self.administrations
    }

    /// The short name in one language, if it has one.
    pub fn short_name(&self, language: Language) -> (res: Option<&String>)
        ensures
            match res {
                Some(t) => self.spec_short_name().text_in(language) == Some(t@),
                None => self.spec_short_name().text_in(language) is None,
            },
    {
        self.short_name.get(language)
    }

    /// The full name in one language, if it has one.
    pub fn full_name(&self, language: Language) -> (res: Option<&String>)
        ensures
            match res {
                Some(t) => self.spec_full_name().text_in(language) == Some(t@),
                None => self.spec_full_name().text_in(language) is None,
            },
    {
        self.full_name.get(language)
    }

    /// Sets the administrations.
    pub fn set_administrations(&mut self, administrations: Vec<String>)
        ensures
            final(self).administrations_text() == texts(administrations@),
            final(self).spec_id() == old(self).spec_id(),
            final(self).spec_short_name() == old(self).spec_short_name(),
            final(self).spec_long_name() == old(self).spec_long_name(),
            final(self).spec_full_name() == old(self).spec_full_name(),
    {
        self.administrations = administrations;
    }

    /// Sets the short name in one language.
    pub fn set_short_name(&mut self, language: Language, value: &str)
        ensures
            final(self).spec_short_name().text_in(language) == Some(value@),
            forall|l: Language|
                l != language ==> final(self).spec_short_name().text_in(l) == old(
                    self,
                ).spec_short_name().text_in(l),
            final(self).spec_id() == old(self).spec_id(),
            final(self).spec_long_name() == old(self).spec_long_name(),
            final(self).spec_full_name() == old(self).spec_full_name(),
            final(self).administrations_text() == old(self).administrations_text(),
    {
        self.short_name.set(language, value);
    }

    /// Sets the long name in one language.
    pub fn set_long_name(&mut self, language: Language, value: &str)
        ensures
            final(self).spec_long_name().text_in(language) == Some(value@),
            forall|l: Language|
                l != language ==> final(self).spec_long_name().text_in(l) == old(
                    self,
                ).spec_long_name().text_in(l),
            final(self).spec_id() == old(self).spec_id(),
            final(self).spec_short_name() == old(self).spec_short_name(),
            final(self).spec_full_name() == old(self).spec_full_name(),
            final(self).administrations_text() == old(self).administrations_text(),
    {
        self.long_name.set(language, value);
    }

    /// Sets the full name in one language.
    pub fn set_full_name(&mut self, language: Language, value: &str)
        ensures
            final(self).spec_full_name().text_in(language) == Some(value@),
            forall|l: Language|
                l != language ==> final(self).spec_full_name().text_in(l) == old(
                    self,
                ).spec_full_name().text_in(l),
            final(self).spec_id() == old(self).spec_id(),
            final(self).spec_short_name() == old(self).spec_short_name(),
            final(self).spec_long_name() == old(self).spec_long_name(),
            final(self).administrations_text() == old(self).administrations_text(),
    {
        self.full_name.set(language, value);
    }
}

// ------------------------------------------------------------------------------------------------
// --- TransportType
// ------------------------------------------------------------------------------------------------

/// A kind of transport (such as an InterCity train or a bus).
#[derive(Clone, Debug)]
pub struct TransportType {
    id: i32,
    designation: String,
    product_class_id: i16,
    tariff_group: String,
    output_control: i16,
    short_name: String,
    surcharge: i16,
    flag: String,
    product_class_name: LanguageMap,
    category_name: LanguageMap,
}

impl TransportType {
    pub closed spec fn spec_id(self) -> i32 {
        self.id
    }

    pub closed spec fn designation_text(self) -> Seq<char> {
        self.designation@
    }

    pub closed spec fn spec_product_class_id(self) -> i16 {
        self.product_class_id
    }

    pub closed spec fn tariff_group_text(self) -> Seq<char> {
        self.tariff_group@
    }

    pub closed spec fn spec_output_control(self) -> i16 {
        self.output_control
    }

    pub closed spec fn short_name_text(self) -> Seq<char> {
        self.short_name@
    }

    pub closed spec fn spec_surcharge(self) -> i16 {
        self.surcharge
    }

    pub closed spec fn flag_text(self) -> Seq<char> {
        self.flag@
    }

    pub closed spec fn spec_product_class_name(self) -> LanguageMap {
        self.product_class_name
    }

    pub closed spec fn spec_category_name(self) -> LanguageMap {
        self.category_name
    }

    /// A transport type without translated names.
    pub fn new(
        id: i32,
        designation: String,
        product_class_id: i16,
        tariff_group: String,
        output_control: i16,
        short_name: String,
        surcharge: i16,
        flag: String,
    ) -> (res: TransportType)
        ensures
            res.spec_id() == id,
            res.designation_text() == designation@,
            res.spec_product_class_id() == product_class_id,
            res.tariff_group_text() == tariff_group@,
            res.spec_output_control() == output_control,
            res.short_name_text() == short_name@,
            res.spec_surcharge() == surcharge,
            res.flag_text() == flag@,
            forall|l: Language|
                res.spec_product_class_name().text_in(l) is None
                    && res.spec_category_name().text_in(l) is None,
    {
        TransportType {
            id,
            designation,
            product_class_id,
            tariff_group,
            output_control,
            short_name,
            surcharge,
            flag,
            product_class_name: LanguageMap::new(),
            category_name: LanguageMap::new(),
        }
    }

    /// The id.
    pub fn id(&self) -> (res: i32)
        ensures
            res == self.spec_id(),
    {
        self.id
    }

    /// The designation (the code used in the files).
    pub fn designation(&self) -> (res: &str)
        ensures
            res@ == self.designation_text(),
    {
        self.designation.as_str()
    }

    /// The product class.
    pub fn product_class_id(&self) -> (res: i16)
        ensures
            res == self.spec_product_class_id(),
    {
        self.product_class_id
    }

    /// Sets the product class name in one language.
    pub fn set_product_class_name(&mut self, language: Language, value: &str)
        ensures
            final(self).spec_product_class_name().text_in(language) == Some(value@),
            forall|l: Language|
                l != language ==> final(self).spec_product_class_name().text_in(l) == old(
                    self,
                ).spec_product_class_name().text_in(l),
            final(self).spec_id() == old(self).spec_id(),
            final(self).spec_product_class_id() == old(self).spec_product_class_id(),
            final(self).designation_text() == old(self).designation_text(),
            final(self).spec_category_name() == old(self).spec_category_name(),
            final(self).tariff_group_text() == old(self).tariff_group_text(),
            final(self).spec_output_control() == old(self).spec_output_control(),
            final(self).short_name_text() == old(self).short_name_text(),
            final(self).spec_surcharge() == old(self).spec_surcharge(),
            final(self).flag_text() == old(self).flag_text(),
    {
        self.product_class_name.set(language, value);
    }

    /// The product class name in one language, if it has one.
    pub fn product_class_name(&self, language: Language) -> (res: Option<&String>)
        ensures
            match res {
                Some(t) => self.spec_product_class_name().text_in(language) == Some(t@),
                None => self.spec_product_class_name().text_in(language) is None,
            },
    {
        self.product_class_name.get(language)
    }

    /// The category name in one language, if it has one.
    pub fn category_name(&self, language: Language) -> (res: Option<&String>)
        ensures
            match res {
                Some(t) => self.spec_category_name().text_in(language) == Some(t@),
                None => self.spec_category_name().text_in(language) is None,
            },
    {
        self.category_name.get(language)
    }

    /// Sets the category name in one language.
    pub fn set_category_name(&mut self, language: Language, value: &str)
        ensures
            final(self).spec_category_name().text_in(language) == Some(value@),
            forall|l: Language|
                l != language ==> final(self).spec_category_name().text_in(l) == old(
                    self,
                ).spec_category_name().text_in(l),
            final(self).spec_id() == old(self).spec_id(),
            final(self).spec_product_class_id() == old(self).spec_product_class_id(),
            final(self).designation_text() == old(self).designation_text(),
            final(self).spec_product_class_name() == old(self).spec_product_class_name(),
            final(self).tariff_group_text() == old(self).tariff_group_text(),
            final(self).spec_output_control() == old(self).spec_output_control(),
            final(self).short_name_text() == old(self).short_name_text(),
            final(self).spec_surcharge() == old(self).spec_surcharge(),
            final(self).flag_text() == old(self).flag_text(),
    {
        self.category_name.set(language, value);
    }
}

} // verus!

verus! {

impl Model for Attribute {
    type K = i32;

    open spec fn model_id(&self) -> i32 {
        self.spec_id()
    }

    fn id(&self) -> (res: i32) {
        self.id
    }
}

impl Model for BitField {
    type K = i32;

    open spec fn model_id(&self) -> i32 {
        self.spec_id()
    }

    fn id(&self) -> (res: i32) {
        self.id
    }
}

impl Model for Direction {
    type K = i32;

    open spec fn model_id(&self) -> i32 {
        self.spec_id()
    }

    fn id(&self) -> (res: i32) {
        self.id
    }
}

impl Model for Holiday {
    type K = i32;

    open spec fn model_id(&self) -> i32 {
        self.spec_id()
    }

    fn id(&self) -> (res: i32) {
        self.id
    }
}

impl Model for ExchangeTimeAdministration {
    type K = i32;

    open spec fn model_id(&self) -> i32 {
        self.spec_id()
    }

    fn id(&self) -> (res: i32) {
        self.id
    }
}

impl Model for ExchangeTimeJourney {
    type K = i32;

    open spec fn model_id(&self) -> i32 {
        self.spec_id()
    }

    fn id(&self) -> (res: i32) {
        self.id
    }
}

impl Model for ExchangeTimeLine {
    type K = i32;

    open spec fn model_id(&self) -> i32 {
        self.spec_id()
    }

    fn id(&self) -> (res: i32) {
        self.id
    }
}

impl Model for InformationText {
    type K = i32;

    open spec fn model_id(&self) -> i32 {
        self.spec_id()
    }

    fn id(&self) -> (res: i32) {
        self.id
    }
}

impl Model for StopConnection {
    type K = i32;

    open spec fn model_id(&self) -> i32 {
        self.spec_id()
    }

    fn id(&self) -> (res: i32) {
        self.id
    }
}

impl Model for ThroughService {
    type K = i32;

    open spec fn model_id(&self) -> i32 {
        self.spec_id()
    }

    fn id(&self) -> (res: i32) {
        self.id
    }
}

impl Model for TimetableMetadataEntry {
    type K = i32;

    open spec fn model_id(&self) -> i32 {
        self.spec_id()
    }

    fn id(&self) -> (res: i32) {
        self.id
    }
}

impl Model for TransportCompany {
    type K = i32;

    open spec fn model_id(&self) -> i32 {
        self.spec_id()
    }

    fn id(&self) -> (res: i32) {
        self.id
    }
}

impl Model for TransportType {
    type K = i32;

    open spec fn model_id(&self) -> i32 {
        self.spec_id()
    }

    fn id(&self) -> (res: i32) {
        self.id
    }
}

impl Model for Line {
    type K = i32;

    open spec fn model_id(&self) -> i32 {
        self@.id
    }

    fn id(&self) -> (res: i32) {
        self.id
    }
}

impl Model for Platform {
    type K = i32;

    open spec fn model_id(&self) -> i32 {
        self@.id
    }

    fn id(&self) -> (res: i32) {
        self.id
    }
}

impl Model for Stop {
    type K = i32;

    open spec fn model_id(&self) -> i32 {
        self@.id
    }

    fn id(&self) -> (res: i32) {
        self.id
    }
}

impl Model for JourneyPlatform {
    type K = (i32, i32);

    open spec fn model_id(&self) -> (i32, i32) {
        (self.spec_journey_legacy_id(), self.spec_platform_id())
    }

    fn id(&self) -> (res: (i32, i32)) {
        (self.journey_legacy_id, self.platform_id)
    }
}

} // verus!
