//! The rows of the FPLAN file that describe a journey: its header (`*Z`),
//! its metadata (`*G`, `*A VE`, `*A`, `*I`, `*L`, `*R`, `*CI`, `*CO`) and
//! the stops of its route. Each function takes the values of one row, as
//! the row parser reads them, and applies the row to the journey.
use crate::calendar::Time;
use crate::error::{PResult, ParsingError};
use crate::fxmap::{designation_map_contents, designation_map_get, legacy_map_contents, legacy_map_insert};
use crate::journey::{Journey, JourneyMetadataEntry, JourneyMetadataType, JourneyRouteEntry};
use crate::parsing::{
    read_rows,
    row_readable,
    rows_read,
    ColumnDefinition,
    ExpectedType,
    ParsedValue,
    ParsedView,
    RowDefinition,
    RowMatcher,
    RowParser,
};
use crate::text::{integer_in_range, parse_i32, str_equals};
use crate::utils::{create_time_from_value, AutoIncrement};
use crate::storage::{inserted_all, keyed, vec_to_map, ResourceStorage};
use crate::fxmap::legacy_map_new;
use rustc_hash::FxHashMap;
use vstd::prelude::*;
use vstd::string::StrSliceExecFns;
use vstd::utf8::encode_utf8;

verus! {

/// `after` is `before` with one more metadata entry, of kind `kind`;
/// nothing else changed.
pub open spec fn metadata_added(before: Journey, after: Journey, kind: JourneyMetadataType) -> bool {
    &&& after.metadata_view().len() == before.metadata_view().len() + 1
    &&& after.metadata_view().drop_last() == before.metadata_view()
    &&& after.metadata_view().last().0 == kind
    &&& after.route_view() == before.route_view()
    &&& after.spec_id() == before.spec_id()
    &&& after.spec_legacy_id() == before.spec_legacy_id()
    &&& after.administration_text() == before.administration_text()
}

/// The fields of `e` other than its times.
pub open spec fn entry_is(
    e: JourneyMetadataEntry,
    from: Option<i32>,
    until: Option<i32>,
    resource: Option<i32>,
    bit_field: Option<i32>,
    extra_1: Option<Seq<char>>,
    extra_2: Option<i32>,
) -> bool {
    &&& e.spec_from_stop_id() == from
    &&& e.spec_until_stop_id() == until
    &&& e.spec_resource_id() == resource
    &&& e.spec_bit_field_id() == bit_field
    &&& e.extra_field_1_text() == extra_1
    &&& e.spec_extra_field_2() == extra_2
}

/// The last metadata entry of `j`.
pub open spec fn last_entry(j: Journey) -> JourneyMetadataEntry {
    j.metadata_view().last().1
}

/// Adds an entry to the journey.
fn add_entry(journey: &mut Journey, kind: JourneyMetadataType, entry: JourneyMetadataEntry)
    ensures
        metadata_added(*old(journey), *final(journey), kind),
        last_entry(*final(journey)) == entry,
{
    let ghost before = journey.metadata_view();
    journey.add_metadata_entry(kind, entry);
    assert(journey.metadata_view().drop_last() =~= before);
}

/// The text of a text value.
pub(crate) fn text_of(v: &ParsedValue) -> (res: String)
    requires
        v@ is String,
    ensures
        v@ == ParsedView::String(res@),
{
    match v {
        ParsedValue::String(s) => s.clone(),
        _ => {
            assert(false);
            String::new()
        },
    }
}

/// The number of an optional integer value.
pub(crate) fn opt_int_of(v: &ParsedValue) -> (res: Option<i32>)
    requires
        v@ is OptionInteger32,
    ensures
        v@ == ParsedView::OptionInteger32(res),
{
    match v {
        ParsedValue::OptionInteger32(x) => *x,
        _ => {
            assert(false);
            None
        },
    }
}

/// The number of an integer value.
pub(crate) fn int_of(v: &ParsedValue) -> (res: i32)
    requires
        v@ is Integer32,
    ensures
        v@ == ParsedView::Integer32(res),
{
    match v {
        ParsedValue::Integer32(x) => *x,
        _ => {
            assert(false);
            0
        },
    }
}

/// The text of value `k` of a row.
pub open spec fn text_at(values: Seq<ParsedValue>, k: int) -> Seq<char> {
    values[k]@->String_0
}

/// The 16-bit number of a value.
pub(crate) fn int16_of(v: &ParsedValue) -> (res: i16)
    requires
        v@ is Integer16,
    ensures
        v@ == ParsedView::Integer16(res),
{
    match v {
        ParsedValue::Integer16(x) => *x,
        _ => {
            assert(false);
            0
        },
    }
}

/// The 16-bit number of value `k` of a row.
pub open spec fn int16_at(values: Seq<ParsedValue>, k: int) -> i16 {
    values[k]@->Integer16_0
}

/// The optional number of value `k` of a row.
pub open spec fn opt_at(values: Seq<ParsedValue>, k: int) -> Option<i32> {
    values[k]@->OptionInteger32_0
}

/// The number of value `k` of a row.
pub open spec fn int_at(values: Seq<ParsedValue>, k: int) -> i32 {
    values[k]@->Integer32_0
}

/// The row's values have the given kinds (`T` text, `O` optional integer,
/// `I` integer), in order.
pub open spec fn row_shape(values: Seq<ParsedValue>, shape: Seq<char>) -> bool {
    &&& values.len() == shape.len()
    &&& forall|k: int|
        0 <= k < shape.len() ==> match #[trigger] shape[k] {
            'T' => values[k]@ is String,
            'O' => values[k]@ is OptionInteger32,
            _ => values[k]@ is Integer32,
        }
}

/// The time of day written `HHMM` in a time field, its sign ignored and
/// whole days beyond the first dropped.
pub open spec fn field_time_value(v: i32) -> int {
    let a = if v < 0 {
        -v
    } else {
        v as int
    };
    if a >= 2400 {
        a % 2400
    } else {
        a
    }
}

/// A time field holds a time of day (its minutes are below 60).
pub open spec fn time_field_ok(t: Option<i32>) -> bool {
    t matches Some(v) ==> v != i32::MIN && field_time_value(v) % 100 < 60
}

/// `r` is the time of day of the time field `t` (none for an empty field).
pub open spec fn field_time_is(t: Option<i32>, r: Option<Time>) -> bool {
    match t {
        None => r is None,
        Some(v) => r matches Some(x) && x.wf() && x.minute_of_day() == (field_time_value(v) / 100) * 60
            + field_time_value(v) % 100,
    }
}

/// The time of a time field: `HHMM`, its sign ignored and whole days beyond
/// the first dropped.
pub fn create_time(time: Option<i32>) -> (res: Option<Time>)
    requires
        time_field_ok(time),
    ensures
        field_time_is(time, res),
{
    match time {
        None => None,
        Some(value) => {
            let a: i32 = if value < 0 {
                0 - value
            } else {
                value
            };
            let v: i32 = if a >= 2400 {
                a % 2400
            } else {
                a
            };
            match create_time_from_value(v as u32) {
                Ok(t) => Some(t),
                Err(_) => {
                    assert(false);
                    None
                },
            }
        },
    }
}

/// The outcome of a `*G` row (see `set_transport_type`), `ids` giving the
/// transport types by designation.
pub open spec fn transport_type_applied(
    values: Seq<ParsedValue>,
    before: Journey,
    after: Journey,
    ids: Map<Seq<char>, i32>,
    res: PResult<()>,
) -> bool {
    let d = text_at(values, 0);
    match res {
        Ok(()) => {
            &&& ids.contains_key(d)
            &&& metadata_added(before, after, JourneyMetadataType::TransportType)
            &&& entry_is(last_entry(after), opt_at(values, 1), opt_at(values, 2), Some(ids[d]), None, None, None)
            &&& last_entry(after).spec_departure_time() is None
            &&& last_entry(after).spec_arrival_time() is None
        },
        Err(e) => {
            &&& !ids.contains_key(d)
            &&& e matches ParsingError::UnknownId(s) && s@ == d
            &&& after == before
        },
    }
}

/// The outcome of an `*A VE` row (see `set_bit_field`).
pub open spec fn bit_field_applied(values: Seq<ParsedValue>, before: Journey, after: Journey) -> bool {
    &&& metadata_added(before, after, JourneyMetadataType::BitField)
    &&& entry_is(last_entry(after), opt_at(values, 0), opt_at(values, 1), None, opt_at(values, 2), None, None)
    &&& last_entry(after).spec_departure_time() is None
    &&& last_entry(after).spec_arrival_time() is None
}

/// The outcome of an `*A` row (see `add_attribute`), `ids` giving the
/// attributes by designation.
pub open spec fn attribute_applied(
    values: Seq<ParsedValue>,
    before: Journey,
    after: Journey,
    ids: Map<Seq<char>, i32>,
    res: PResult<()>,
) -> bool {
    let d = text_at(values, 0);
    match res {
        Ok(()) => {
            &&& ids.contains_key(d)
            &&& metadata_added(before, after, JourneyMetadataType::Attribute)
            &&& entry_is(last_entry(after), opt_at(values, 1), opt_at(values, 2), Some(ids[d]), None, None, None)
            &&& last_entry(after).spec_departure_time() is None
            &&& last_entry(after).spec_arrival_time() is None
        },
        Err(e) => {
            &&& !ids.contains_key(d)
            &&& e matches ParsingError::UnknownId(s) && s@ == d
            &&& after == before
        },
    }
}

/// The outcome of an `*I` row (see `add_information_text`).
pub open spec fn information_text_applied(values: Seq<ParsedValue>, before: Journey, after: Journey) -> bool {
    &&& metadata_added(before, after, JourneyMetadataType::InformationText)
    &&& entry_is(
        last_entry(after),
        opt_at(values, 1),
        opt_at(values, 2),
        Some(int_at(values, 4)),
        opt_at(values, 3),
        Some(text_at(values, 0)),
        None,
    )
    &&& field_time_is(opt_at(values, 5), last_entry(after).spec_departure_time())
    &&& field_time_is(opt_at(values, 6), last_entry(after).spec_arrival_time())
}

/// The outcome of an `*L` row (see `set_line`).
pub open spec fn line_applied(values: Seq<ParsedValue>, before: Journey, after: Journey, res: PResult<()>) -> bool {
    let d = text_at(values, 0);
    let number = integer_in_range(encode_utf8(d.drop_first()), i32::MIN as int, i32::MAX as int);
    match res {
        Ok(()) => {
            &&& d.len() > 0
            &&& metadata_added(before, after, JourneyMetadataType::Line)
            &&& if d[0] == '#' {
                number is Some && entry_is(
                    last_entry(after),
                    opt_at(values, 1),
                    opt_at(values, 2),
                    Some(number->0 as i32),
                    None,
                    None,
                    None,
                )
            } else {
                entry_is(last_entry(after), opt_at(values, 1), opt_at(values, 2), None, None, Some(d), None)
            }
            &&& field_time_is(opt_at(values, 3), last_entry(after).spec_departure_time())
            &&& field_time_is(opt_at(values, 4), last_entry(after).spec_arrival_time())
        },
        Err(e) => {
            &&& after == before
            &&& (d.len() == 0 && e is Unknown) || (d.len() > 0 && d[0] == '#' && number is None && (e matches ParsingError::ParseInt(s) && s@ == d.drop_first()))
        },
    }
}

/// The outcome of an `*R` row (see `set_direction`), `ids` giving the
/// directions by designation.
pub open spec fn direction_applied(
    values: Seq<ParsedValue>,
    before: Journey,
    after: Journey,
    ids: Map<Seq<char>, i32>,
    res: PResult<()>,
) -> bool {
    let d = text_at(values, 1);
    match res {
        Ok(()) => {
            &&& (d.len() == 0 || ids.contains_key(d))
            &&& metadata_added(before, after, JourneyMetadataType::Direction)
            &&& entry_is(
                last_entry(after),
                opt_at(values, 2),
                opt_at(values, 3),
                if d.len() == 0 {
                    None
                } else {
                    Some(ids[d])
                },
                None,
                Some(text_at(values, 0)),
                None,
            )
            &&& field_time_is(opt_at(values, 4), last_entry(after).spec_departure_time())
            &&& field_time_is(opt_at(values, 5), last_entry(after).spec_arrival_time())
        },
        Err(e) => {
            &&& d.len() > 0 && !ids.contains_key(d)
            &&& e matches ParsingError::UnknownId(s) && s@ == d
            &&& after == before
        },
    }
}

/// The outcome of a `*CI` or `*CO` row (see
/// `set_boarding_or_disembarking_exchange_time`).
pub open spec fn exchange_time_applied(values: Seq<ParsedValue>, before: Journey, after: Journey) -> bool {
    &&& metadata_added(
        before,
        after,
        if text_at(values, 0) == "*CI"@ {
            JourneyMetadataType::ExchangeTimeBoarding
        } else {
            JourneyMetadataType::ExchangeTimeDisembarking
        },
    )
    &&& entry_is(last_entry(after), opt_at(values, 2), opt_at(values, 3), None, None, None, Some(int_at(values, 1)))
    &&& last_entry(after).spec_departure_time() is None
    &&& last_entry(after).spec_arrival_time() is None
}

/// The outcome of a stop row (see `add_route_entry`).
pub open spec fn route_entry_applied(values: Seq<ParsedValue>, before: Journey, after: Journey) -> bool {
    &&& after.route_view().len() == before.route_view().len() + 1
    &&& after.route_view().drop_last() == before.route_view()
    &&& after.route_view().last().spec_stop_id() == int_at(values, 0)
    &&& field_time_is(opt_at(values, 1), after.route_view().last().spec_arrival_time())
    &&& field_time_is(opt_at(values, 2), after.route_view().last().spec_departure_time())
    &&& after.metadata_view() == before.metadata_view()
    &&& after.spec_id() == before.spec_id()
    &&& after.spec_legacy_id() == before.spec_legacy_id()
    &&& after.administration_text() == before.administration_text()
}

/// The outcome of a `*Z` row (see `create_instance`): the counter stood at
/// `last` and now at `next`, `j` is the new journey, and `before` and
/// `after` are the recorded (legacy id, administration) pairs.
pub open spec fn instance_created(
    values: Seq<ParsedValue>,
    last: i32,
    next: i32,
    j: Journey,
    before: Map<(i32, Seq<char>), i32>,
    after: Map<(i32, Seq<char>), i32>,
) -> bool {
    &&& j.spec_id() == last + 1
    &&& next == j.spec_id()
    &&& j.spec_legacy_id() == int_at(values, 0)
    &&& j.administration_text() == text_at(values, 1)
    &&& j.route_view().len() == 0
    &&& j.metadata_view().len() == 0
    &&& after == before.insert((int_at(values, 0), text_at(values, 1)), j.spec_id())
}

/// A `*Z` row (legacy id, administration) opens a journey: it gets the
/// next id of the counter, and the pair (legacy id, administration) is
/// recorded with that id.
pub fn create_instance(
    values: Vec<ParsedValue>,
    auto_increment: &mut AutoIncrement,
    pk_type_converter: &mut FxHashMap<(i32, String), i32>,
) -> (res: Journey)
    requires
        row_shape(values@, "IT"@),
        old(auto_increment).last() < i32::MAX,
    ensures
        instance_created(
            values@,
            old(auto_increment).last(),
            final(auto_increment).last(),
            res,
            legacy_map_contents(*old(pk_type_converter)),
            legacy_map_contents(*final(pk_type_converter)),
        ),
{
    proof {
        reveal_strlit("IT");
        assert("IT"@[0] == 'I' && "IT"@[1] == 'T');
    }
    let legacy_id = int_of(&values[0]);
    let administration = text_of(&values[1]);
    let id = auto_increment.next();
    legacy_map_insert(pk_type_converter, (legacy_id, administration.clone()), id);
    Journey::new(id, legacy_id, administration)
}

/// A `*G` row (transport type designation, from stop, until stop): adds the
/// transport type with that designation; fails where no transport type has
/// it.
pub fn set_transport_type(
    values: Vec<ParsedValue>,
    journey: &mut Journey,
    transport_types_pk_type_converter: &FxHashMap<String, i32>,
) -> (res: PResult<()>)
    requires
        row_shape(values@, "TOO"@),
    ensures
        transport_type_applied(values@, *old(journey), *final(journey), designation_map_contents(*transport_types_pk_type_converter), res),
{
    proof {
        reveal_strlit("TOO");
        assert("TOO"@[0] == 'T' && "TOO"@[1] == 'O' && "TOO"@[2] == 'O');
    }
    let designation = text_of(&values[0]);
    let from_stop_id = opt_int_of(&values[1]);
    let until_stop_id = opt_int_of(&values[2]);
    let transport_type_id = match designation_map_get(transport_types_pk_type_converter, &designation) {
        Some(id) => id,
        None => {
            return Err(ParsingError::UnknownId(designation));
        },
    };
    add_entry(
        journey,
        JourneyMetadataType::TransportType,
        JourneyMetadataEntry::new(from_stop_id, until_stop_id, Some(transport_type_id), None, None, None, None, None),
    );
    Ok(())
}

/// A `*A VE` row (from stop, until stop, bit field): adds the bit field of
/// the days the journey runs.
pub fn set_bit_field(values: Vec<ParsedValue>, journey: &mut Journey)
    requires
        row_shape(values@, "OOO"@),
    ensures
        bit_field_applied(values@, *old(journey), *final(journey)),
{
    proof {
        reveal_strlit("OOO");
        assert("OOO"@[0] == 'O' && "OOO"@[1] == 'O' && "OOO"@[2] == 'O');
    }
    let from_stop_id = opt_int_of(&values[0]);
    let until_stop_id = opt_int_of(&values[1]);
    let bit_field_id = opt_int_of(&values[2]);
    add_entry(
        journey,
        JourneyMetadataType::BitField,
        JourneyMetadataEntry::new(from_stop_id, until_stop_id, None, bit_field_id, None, None, None, None),
    );
}

/// A `*A` row (attribute designation, from stop, until stop): adds the
/// attribute with that designation; fails where no attribute has it.
pub fn add_attribute(
    values: Vec<ParsedValue>,
    journey: &mut Journey,
    attributes_pk_type_converter: &FxHashMap<String, i32>,
) -> (res: PResult<()>)
    requires
        row_shape(values@, "TOO"@),
    ensures
        attribute_applied(values@, *old(journey), *final(journey), designation_map_contents(*attributes_pk_type_converter), res),
{
    proof {
        reveal_strlit("TOO");
        assert("TOO"@[0] == 'T' && "TOO"@[1] == 'O' && "TOO"@[2] == 'O');
    }
    let designation = text_of(&values[0]);
    let from_stop_id = opt_int_of(&values[1]);
    let until_stop_id = opt_int_of(&values[2]);
    let attribute_id = match designation_map_get(attributes_pk_type_converter, &designation) {
        Some(id) => id,
        None => {
            return Err(ParsingError::UnknownId(designation));
        },
    };
    add_entry(
        journey,
        JourneyMetadataType::Attribute,
        JourneyMetadataEntry::new(from_stop_id, until_stop_id, Some(attribute_id), None, None, None, None, None),
    );
    Ok(())
}

/// An `*I` row (code, from stop, until stop, bit field, information text,
/// departure time, arrival time): adds the information text.
pub fn add_information_text(values: Vec<ParsedValue>, journey: &mut Journey)
    requires
        row_shape(values@, "TOOOIOO"@),
        time_field_ok(opt_at(values@, 5)),
        time_field_ok(opt_at(values@, 6)),
    ensures
        information_text_applied(values@, *old(journey), *final(journey)),
{
    proof {
        reveal_strlit("TOOOIOO");
        assert("TOOOIOO"@[0] == 'T' && "TOOOIOO"@[1] == 'O' && "TOOOIOO"@[2] == 'O' && "TOOOIOO"@[3] == 'O' && "TOOOIOO"@[4] == 'I' && "TOOOIOO"@[5] == 'O' && "TOOOIOO"@[6] == 'O');
    }
    let code = text_of(&values[0]);
    let from_stop_id = opt_int_of(&values[1]);
    let until_stop_id = opt_int_of(&values[2]);
    let bit_field_id = opt_int_of(&values[3]);
    let information_text_id = int_of(&values[4]);
    let departure_time = create_time(opt_int_of(&values[5]));
    let arrival_time = create_time(opt_int_of(&values[6]));
    add_entry(
        journey,
        JourneyMetadataType::InformationText,
        JourneyMetadataEntry::new(
            from_stop_id,
            until_stop_id,
            Some(information_text_id),
            bit_field_id,
            departure_time,
            arrival_time,
            Some(code),
            None,
        ),
    );
}

/// An `*L` row (line designation, from stop, until stop, departure time,
/// arrival time): adds the line. A designation `#n` names the line with id
/// `n`; any other is kept as text. Fails on an empty designation, and where
/// what follows `#` is not an `i32`.
pub fn set_line(values: Vec<ParsedValue>, journey: &mut Journey) -> (res: PResult<()>)
    requires
        row_shape(values@, "TOOOO"@),
        time_field_ok(opt_at(values@, 3)),
        time_field_ok(opt_at(values@, 4)),
    ensures
        line_applied(values@, *old(journey), *final(journey), res),
{
    proof {
        reveal_strlit("TOOOO");
        assert("TOOOO"@[0] == 'T' && "TOOOO"@[1] == 'O' && "TOOOO"@[2] == 'O' && "TOOOO"@[3] == 'O' && "TOOOO"@[4] == 'O');
    }
    let line_designation = text_of(&values[0]);
    let from_stop_id = opt_int_of(&values[1]);
    let until_stop_id = opt_int_of(&values[2]);
    let departure_time = create_time(opt_int_of(&values[3]));
    let arrival_time = create_time(opt_int_of(&values[4]));
    let n = line_designation.as_str().unicode_len();
    if n == 0 {
        return Err(ParsingError::Unknown("Missing designation".to_string()));
    }
    let (resource_id, extra_field_1) = if line_designation.as_str().get_char(0) == '#' {
        let rest = line_designation.as_str().substring_char(1, n);
        assert(rest@ =~= line_designation@.drop_first());
        proof {
            vstd::utf8::encode_utf8_decode_utf8(rest@);
        }
        match parse_i32(rest) {
            Some(v) => (Some(v), None),
            None => {
                return Err(ParsingError::ParseInt(rest.to_owned()));
            },
        }
    } else {
        (None, Some(line_designation))
    };
    add_entry(
        journey,
        JourneyMetadataType::Line,
        JourneyMetadataEntry::new(
            from_stop_id,
            until_stop_id,
            resource_id,
            None,
            departure_time,
            arrival_time,
            extra_field_1,
            None,
        ),
    );
    Ok(())
}

/// An `*R` row (direction type, direction designation, from stop, until
/// stop, departure time, arrival time): adds the direction with that
/// designation (none for an empty designation); fails where no direction
/// has it.
pub fn set_direction(
    values: Vec<ParsedValue>,
    journey: &mut Journey,
    directions_pk_type_converter: &FxHashMap<String, i32>,
) -> (res: PResult<()>)
    requires
        row_shape(values@, "TTOOOO"@),
        time_field_ok(opt_at(values@, 4)),
        time_field_ok(opt_at(values@, 5)),
    ensures
        direction_applied(values@, *old(journey), *final(journey), designation_map_contents(*directions_pk_type_converter), res),
{
    proof {
        reveal_strlit("TTOOOO");
        assert("TTOOOO"@[0] == 'T' && "TTOOOO"@[1] == 'T' && "TTOOOO"@[2] == 'O' && "TTOOOO"@[3] == 'O' && "TTOOOO"@[4] == 'O' && "TTOOOO"@[5] == 'O');
    }
    let direction_type = text_of(&values[0]);
    let direction_id = text_of(&values[1]);
    let from_stop_id = opt_int_of(&values[2]);
    let until_stop_id = opt_int_of(&values[3]);
    let departure_time = create_time(opt_int_of(&values[4]));
    let arrival_time = create_time(opt_int_of(&values[5]));
    let direction_id = if direction_id.as_str().unicode_len() == 0 {
        None
    } else {
        match designation_map_get(directions_pk_type_converter, &direction_id) {
            Some(id) => Some(id),
            None => {
                return Err(ParsingError::UnknownId(direction_id));
            },
        }
    };
    add_entry(
        journey,
        JourneyMetadataType::Direction,
        JourneyMetadataEntry::new(
            from_stop_id,
            until_stop_id,
            direction_id,
            None,
            departure_time,
            arrival_time,
            Some(direction_type),
            None,
        ),
    );
    Ok(())
}

/// A `*CI` or `*CO` row (the marker, exchange time, from stop, until stop):
/// adds the time needed to board (`*CI`) or to get off (any other marker).
pub fn set_boarding_or_disembarking_exchange_time(values: Vec<ParsedValue>, journey: &mut Journey)
    requires
        row_shape(values@, "TIOO"@),
    ensures
        exchange_time_applied(values@, *old(journey), *final(journey)),
{
    proof {
        reveal_strlit("TIOO");
        assert("TIOO"@[0] == 'T' && "TIOO"@[1] == 'I' && "TIOO"@[2] == 'O' && "TIOO"@[3] == 'O');
    }
    let ci_co = text_of(&values[0]);
    let exchange_time = int_of(&values[1]);
    let from_stop_id = opt_int_of(&values[2]);
    let until_stop_id = opt_int_of(&values[3]);
    let metadata_type = if str_equals(ci_co.as_str(), "*CI") {
        JourneyMetadataType::ExchangeTimeBoarding
    } else {
        JourneyMetadataType::ExchangeTimeDisembarking
    };
    add_entry(
        journey,
        metadata_type,
        JourneyMetadataEntry::new(from_stop_id, until_stop_id, None, None, None, None, None, Some(exchange_time)),
    );
}

/// A stop row (stop, arrival time, departure time): adds the stop to the
/// route.
pub fn add_route_entry(values: Vec<ParsedValue>, journey: &mut Journey)
    requires
        row_shape(values@, "IOO"@),
        time_field_ok(opt_at(values@, 1)),
        time_field_ok(opt_at(values@, 2)),
    ensures
        route_entry_applied(values@, *old(journey), *final(journey)),
{
    proof {
        reveal_strlit("IOO");
        assert("IOO"@[0] == 'I' && "IOO"@[1] == 'O' && "IOO"@[2] == 'O');
    }
    let stop_id = int_of(&values[0]);
    let arrival_time = create_time(opt_int_of(&values[1]));
    let departure_time = create_time(opt_int_of(&values[2]));
    let ghost before = journey.route_view();
    journey.add_route_entry(JourneyRouteEntry::new(stop_id, arrival_time, departure_time));
    assert(journey.route_view().drop_last() =~= before);
}

/// The kinds of the rows of the FPLAN file, by the ids that the row
/// parser gives them.
pub const ROW_A: i32 = 1;
pub const ROW_B: i32 = 2;
pub const ROW_C: i32 = 3;
pub const ROW_D: i32 = 4;
pub const ROW_E: i32 = 5;
pub const ROW_F: i32 = 6;
pub const ROW_G: i32 = 7;
pub const ROW_H: i32 = 8;
pub const ROW_I: i32 = 9;

/// The values of a row of kind `id` have the kinds of its columns, and its
/// time fields hold times of day.
pub open spec fn row_ready(id: i32, values: Seq<ParsedValue>) -> bool {
    if id == ROW_A {
        row_shape(values, "IT"@)
    } else if id == ROW_B || id == ROW_D {
        row_shape(values, "TOO"@)
    } else if id == ROW_C {
        row_shape(values, "OOO"@)
    } else if id == ROW_E {
        row_shape(values, "TOOOIOO"@) && time_field_ok(opt_at(values, 5)) && time_field_ok(opt_at(values, 6))
    } else if id == ROW_F {
        row_shape(values, "TOOOO"@) && time_field_ok(opt_at(values, 3)) && time_field_ok(opt_at(values, 4))
    } else if id == ROW_G {
        row_shape(values, "TTOOOO"@) && time_field_ok(opt_at(values, 4)) && time_field_ok(opt_at(values, 5))
    } else if id == ROW_H {
        row_shape(values, "TIOO"@)
    } else if id == ROW_I {
        row_shape(values, "IOO"@) && time_field_ok(opt_at(values, 1)) && time_field_ok(opt_at(values, 2))
    } else {
        false
    }
}

/// The outcome of a row of kind `id` (other than `*Z`) on the journey it
/// belongs to; the maps give transport types, attributes and directions by
/// designation.
pub open spec fn row_applied(
    id: i32,
    values: Seq<ParsedValue>,
    before: Journey,
    after: Journey,
    transport_types: Map<Seq<char>, i32>,
    attributes: Map<Seq<char>, i32>,
    directions: Map<Seq<char>, i32>,
    res: PResult<()>,
) -> bool {
    if id == ROW_B {
        transport_type_applied(values, before, after, transport_types, res)
    } else if id == ROW_C {
        res is Ok && bit_field_applied(values, before, after)
    } else if id == ROW_D {
        attribute_applied(values, before, after, attributes, res)
    } else if id == ROW_E {
        res is Ok && information_text_applied(values, before, after)
    } else if id == ROW_F {
        line_applied(values, before, after, res)
    } else if id == ROW_G {
        direction_applied(values, before, after, directions, res)
    } else if id == ROW_H {
        res is Ok && exchange_time_applied(values, before, after)
    } else {
        res is Ok && route_entry_applied(values, before, after)
    }
}

/// The outcome of applying one FPLAN row of kind `id` (see
/// `apply_fplan_row`): `d0`, `d1` are the journeys read, `c0`, `c1` the
/// last id handed out and `pk0`, `pk1` the recorded (legacy id,
/// administration) pairs, before and after; `tt`, `at` and `dir` give
/// transport types, attributes and directions by designation.
pub open spec fn fplan_step(
    id: i32,
    values: Seq<ParsedValue>,
    d0: Seq<Journey>,
    d1: Seq<Journey>,
    c0: i32,
    c1: i32,
    pk0: Map<(i32, Seq<char>), i32>,
    pk1: Map<(i32, Seq<char>), i32>,
    tt: Map<Seq<char>, i32>,
    at: Map<Seq<char>, i32>,
    dir: Map<Seq<char>, i32>,
    res: PResult<()>,
) -> bool {
    if id == ROW_A {
        &&& res is Ok
        &&& d1.len() == d0.len() + 1
        &&& d1.drop_last() == d0
        &&& instance_created(values, c0, c1, d1.last(), pk0, pk1)
    } else {
        &&& c1 == c0
        &&& pk1 == pk0
        &&& if d0.len() == 0 {
            &&& res matches Err(ParsingError::Unknown(_))
            &&& d1 == d0
        } else {
            &&& d1.len() == d0.len()
            &&& d1.drop_last() == d0.drop_last()
            &&& row_applied(id, values, d0.last(), d1.last(), tt, at, dir, res)
        }
    }
}

/// Applies one FPLAN row, of kind `id`, to the journeys read so far: a `*Z`
/// row opens a new journey; any other row applies to the last one, and
/// fails where no journey was opened yet.
pub fn apply_fplan_row(
    data: &mut Vec<Journey>,
    id: i32,
    values: Vec<ParsedValue>,
    auto_increment: &mut AutoIncrement,
    pk_type_converter: &mut FxHashMap<(i32, String), i32>,
    transport_types_pk_type_converter: &FxHashMap<String, i32>,
    attributes_pk_type_converter: &FxHashMap<String, i32>,
    directions_pk_type_converter: &FxHashMap<String, i32>,
) -> (res: PResult<()>)
    requires
        row_ready(id, values@),
        id == ROW_A ==> old(auto_increment).last() < i32::MAX,
    ensures
        fplan_step(
            id,
            values@,
            old(data)@,
            final(data)@,
            old(auto_increment).last(),
            final(auto_increment).last(),
            legacy_map_contents(*old(pk_type_converter)),
            legacy_map_contents(*final(pk_type_converter)),
            designation_map_contents(*transport_types_pk_type_converter),
            designation_map_contents(*attributes_pk_type_converter),
            designation_map_contents(*directions_pk_type_converter),
            res,
        ),
        id != ROW_A ==> *final(pk_type_converter) == *old(pk_type_converter),
{
    if id == ROW_A {
        let j = create_instance(values, auto_increment, pk_type_converter);
        let ghost before = data@;
        data.push(j);
        assert(data@.drop_last() =~= before);
        return Ok(());
    }
    let mut journey = match data.pop() {
        Some(j) => j,
        None => {
            return Err(ParsingError::Unknown("Type A row missing.".to_string()));
        },
    };
    let ghost rest = data@;
    let ghost before = journey;
    let res = if id == ROW_B {
        set_transport_type(values, &mut journey, transport_types_pk_type_converter)
    } else if id == ROW_C {
        set_bit_field(values, &mut journey);
        Ok(())
    } else if id == ROW_D {
        add_attribute(values, &mut journey, attributes_pk_type_converter)
    } else if id == ROW_E {
        add_information_text(values, &mut journey);
        Ok(())
    } else if id == ROW_F {
        set_line(values, &mut journey)
    } else if id == ROW_G {
        set_direction(values, &mut journey, directions_pk_type_converter)
    } else if id == ROW_H {
        set_boarding_or_disembarking_exchange_time(values, &mut journey);
        Ok(())
    } else {
        add_route_entry(values, &mut journey);
        Ok(())
    };
    data.push(journey);
    assert(data@.drop_last() =~= rest);
    res
}

/// `m` compares `length` bytes from byte `start` with `text`, for
/// equality.
pub open spec fn matcher_is(m: Option<RowMatcher>, start: usize, length: usize, text: Seq<char>) -> bool {
    m matches Some(x) && x.spec_start() == start && x.spec_length() == length && x.value_text() == text
        && x.spec_should_equal_value()
}

/// `c` is the column of bytes `start` to `stop` holding a value of type `t`.
pub open spec fn column_is(c: ColumnDefinition, start: usize, stop: isize, t: ExpectedType) -> bool {
    c.spec_start() == start && c.spec_stop() == stop && c.spec_expected_type() == t
}

/// The kinds of rows of the FPLAN file, in the order they are tried: `*Z`,
/// `*G`, `*A VE`, `*A`, `*I`, `*L`, `*R`, `*CI`, `*CO` and the stop rows.
pub open spec fn fplan_layout(defs: Seq<RowDefinition>) -> bool {
    &&& defs.len() == 10
    &&& defs[0].spec_id() == ROW_A
    &&& matcher_is(defs[0].spec_row_matcher(), 1, 2, "*Z"@)
    &&& defs[0].columns().len() == 2
    &&& column_is(defs[0].columns()[0], 4, 9, ExpectedType::Integer32)
    &&& column_is(defs[0].columns()[1], 11, 16, ExpectedType::String)
    &&& defs[1].spec_id() == ROW_B
    &&& matcher_is(defs[1].spec_row_matcher(), 1, 2, "*G"@)
    &&& defs[1].columns().len() == 3
    &&& column_is(defs[1].columns()[0], 4, 6, ExpectedType::String)
    &&& column_is(defs[1].columns()[1], 8, 14, ExpectedType::OptionInteger32)
    &&& column_is(defs[1].columns()[2], 16, 22, ExpectedType::OptionInteger32)
    &&& defs[2].spec_id() == ROW_C
    &&& matcher_is(defs[2].spec_row_matcher(), 1, 5, "*A VE"@)
    &&& defs[2].columns().len() == 3
    &&& column_is(defs[2].columns()[0], 7, 13, ExpectedType::OptionInteger32)
    &&& column_is(defs[2].columns()[1], 15, 21, ExpectedType::OptionInteger32)
    &&& column_is(defs[2].columns()[2], 23, 28, ExpectedType::OptionInteger32)
    &&& defs[3].spec_id() == ROW_D
    &&& matcher_is(defs[3].spec_row_matcher(), 1, 2, "*A"@)
    &&& defs[3].columns().len() == 3
    &&& column_is(defs[3].columns()[0], 4, 5, ExpectedType::String)
    &&& column_is(defs[3].columns()[1], 7, 13, ExpectedType::OptionInteger32)
    &&& column_is(defs[3].columns()[2], 15, 21, ExpectedType::OptionInteger32)
    &&& defs[4].spec_id() == ROW_E
    &&& matcher_is(defs[4].spec_row_matcher(), 1, 2, "*I"@)
    &&& defs[4].columns().len() == 7
    &&& column_is(defs[4].columns()[0], 4, 5, ExpectedType::String)
    &&& column_is(defs[4].columns()[1], 7, 13, ExpectedType::OptionInteger32)
    &&& column_is(defs[4].columns()[2], 15, 21, ExpectedType::OptionInteger32)
    &&& column_is(defs[4].columns()[3], 23, 28, ExpectedType::OptionInteger32)
    &&& column_is(defs[4].columns()[4], 30, 38, ExpectedType::Integer32)
    &&& column_is(defs[4].columns()[5], 40, 45, ExpectedType::OptionInteger32)
    &&& column_is(defs[4].columns()[6], 47, 52, ExpectedType::OptionInteger32)
    &&& defs[5].spec_id() == ROW_F
    &&& matcher_is(defs[5].spec_row_matcher(), 1, 2, "*L"@)
    &&& defs[5].columns().len() == 5
    &&& column_is(defs[5].columns()[0], 4, 11, ExpectedType::String)
    &&& column_is(defs[5].columns()[1], 13, 19, ExpectedType::OptionInteger32)
    &&& column_is(defs[5].columns()[2], 21, 27, ExpectedType::OptionInteger32)
    &&& column_is(defs[5].columns()[3], 29, 34, ExpectedType::OptionInteger32)
    &&& column_is(defs[5].columns()[4], 36, 41, ExpectedType::OptionInteger32)
    &&& defs[6].spec_id() == ROW_G
    &&& matcher_is(defs[6].spec_row_matcher(), 1, 2, "*R"@)
    &&& defs[6].columns().len() == 6
    &&& column_is(defs[6].columns()[0], 4, 4, ExpectedType::String)
    &&& column_is(defs[6].columns()[1], 6, 12, ExpectedType::String)
    &&& column_is(defs[6].columns()[2], 14, 20, ExpectedType::OptionInteger32)
    &&& column_is(defs[6].columns()[3], 22, 28, ExpectedType::OptionInteger32)
    &&& column_is(defs[6].columns()[4], 30, 35, ExpectedType::OptionInteger32)
    &&& column_is(defs[6].columns()[5], 37, 42, ExpectedType::OptionInteger32)
    &&& defs[7].spec_id() == ROW_H
    &&& matcher_is(defs[7].spec_row_matcher(), 1, 3, "*CI"@)
    &&& defs[7].columns().len() == 4
    &&& column_is(defs[7].columns()[0], 1, 3, ExpectedType::String)
    &&& column_is(defs[7].columns()[1], 5, 8, ExpectedType::Integer32)
    &&& column_is(defs[7].columns()[2], 10, 16, ExpectedType::OptionInteger32)
    &&& column_is(defs[7].columns()[3], 18, 24, ExpectedType::OptionInteger32)
    &&& defs[8].spec_id() == ROW_H
    &&& matcher_is(defs[8].spec_row_matcher(), 1, 3, "*CO"@)
    &&& defs[8].columns().len() == 4
    &&& column_is(defs[8].columns()[0], 1, 3, ExpectedType::String)
    &&& column_is(defs[8].columns()[1], 5, 8, ExpectedType::Integer32)
    &&& column_is(defs[8].columns()[2], 10, 16, ExpectedType::OptionInteger32)
    &&& column_is(defs[8].columns()[3], 18, 24, ExpectedType::OptionInteger32)
    &&& defs[9].spec_id() == ROW_I
    &&& matcher_is(defs[9].spec_row_matcher(), 1, 0, ""@)
    &&& defs[9].columns().len() == 3
    &&& column_is(defs[9].columns()[0], 1, 7, ExpectedType::Integer32)
    &&& column_is(defs[9].columns()[1], 30, 35, ExpectedType::OptionInteger32)
    &&& column_is(defs[9].columns()[2], 37, 42, ExpectedType::OptionInteger32)
}

/// The row parser of the FPLAN file (see `fplan_layout`).
pub fn fplan_row_parser() -> (res: RowParser)
    ensures
        fplan_layout(res.definitions()),
{
    let mut defs: Vec<RowDefinition> = Vec::new();
    let mut cols: Vec<ColumnDefinition> = Vec::new();
    cols.push(ColumnDefinition::new(4, 9, ExpectedType::Integer32));
    cols.push(ColumnDefinition::new(11, 16, ExpectedType::String));
    defs.push(RowDefinition::new(ROW_A, RowMatcher::new(1, 2, "*Z", true), cols));
    let mut cols: Vec<ColumnDefinition> = Vec::new();
    cols.push(ColumnDefinition::new(4, 6, ExpectedType::String));
    cols.push(ColumnDefinition::new(8, 14, ExpectedType::OptionInteger32));
    cols.push(ColumnDefinition::new(16, 22, ExpectedType::OptionInteger32));
    defs.push(RowDefinition::new(ROW_B, RowMatcher::new(1, 2, "*G", true), cols));
    let mut cols: Vec<ColumnDefinition> = Vec::new();
    cols.push(ColumnDefinition::new(7, 13, ExpectedType::OptionInteger32));
    cols.push(ColumnDefinition::new(15, 21, ExpectedType::OptionInteger32));
    cols.push(ColumnDefinition::new(23, 28, ExpectedType::OptionInteger32));
    defs.push(RowDefinition::new(ROW_C, RowMatcher::new(1, 5, "*A VE", true), cols));
    let mut cols: Vec<ColumnDefinition> = Vec::new();
    cols.push(ColumnDefinition::new(4, 5, ExpectedType::String));
    cols.push(ColumnDefinition::new(7, 13, ExpectedType::OptionInteger32));
    cols.push(ColumnDefinition::new(15, 21, ExpectedType::OptionInteger32));
    defs.push(RowDefinition::new(ROW_D, RowMatcher::new(1, 2, "*A", true), cols));
    let mut cols: Vec<ColumnDefinition> = Vec::new();
    cols.push(ColumnDefinition::new(4, 5, ExpectedType::String));
    cols.push(ColumnDefinition::new(7, 13, ExpectedType::OptionInteger32));
    cols.push(ColumnDefinition::new(15, 21, ExpectedType::OptionInteger32));
    cols.push(ColumnDefinition::new(23, 28, ExpectedType::OptionInteger32));
    cols.push(ColumnDefinition::new(30, 38, ExpectedType::Integer32));
    cols.push(ColumnDefinition::new(40, 45, ExpectedType::OptionInteger32));
    cols.push(ColumnDefinition::new(47, 52, ExpectedType::OptionInteger32));
    defs.push(RowDefinition::new(ROW_E, RowMatcher::new(1, 2, "*I", true), cols));
    let mut cols: Vec<ColumnDefinition> = Vec::new();
    cols.push(ColumnDefinition::new(4, 11, ExpectedType::String));
    cols.push(ColumnDefinition::new(13, 19, ExpectedType::OptionInteger32));
    cols.push(ColumnDefinition::new(21, 27, ExpectedType::OptionInteger32));
    cols.push(ColumnDefinition::new(29, 34, ExpectedType::OptionInteger32));
    cols.push(ColumnDefinition::new(36, 41, ExpectedType::OptionInteger32));
    defs.push(RowDefinition::new(ROW_F, RowMatcher::new(1, 2, "*L", true), cols));
    let mut cols: Vec<ColumnDefinition> = Vec::new();
    cols.push(ColumnDefinition::new(4, 4, ExpectedType::String));
    cols.push(ColumnDefinition::new(6, 12, ExpectedType::String));
    cols.push(ColumnDefinition::new(14, 20, ExpectedType::OptionInteger32));
    cols.push(ColumnDefinition::new(22, 28, ExpectedType::OptionInteger32));
    cols.push(ColumnDefinition::new(30, 35, ExpectedType::OptionInteger32));
    cols.push(ColumnDefinition::new(37, 42, ExpectedType::OptionInteger32));
    defs.push(RowDefinition::new(ROW_G, RowMatcher::new(1, 2, "*R", true), cols));
    let mut cols: Vec<ColumnDefinition> = Vec::new();
    cols.push(ColumnDefinition::new(1, 3, ExpectedType::String));
    cols.push(ColumnDefinition::new(5, 8, ExpectedType::Integer32));
    cols.push(ColumnDefinition::new(10, 16, ExpectedType::OptionInteger32));
    cols.push(ColumnDefinition::new(18, 24, ExpectedType::OptionInteger32));
    defs.push(RowDefinition::new(ROW_H, RowMatcher::new(1, 3, "*CI", true), cols));
    let mut cols: Vec<ColumnDefinition> = Vec::new();
    cols.push(ColumnDefinition::new(1, 3, ExpectedType::String));
    cols.push(ColumnDefinition::new(5, 8, ExpectedType::Integer32));
    cols.push(ColumnDefinition::new(10, 16, ExpectedType::OptionInteger32));
    cols.push(ColumnDefinition::new(18, 24, ExpectedType::OptionInteger32));
    defs.push(RowDefinition::new(ROW_H, RowMatcher::new(1, 3, "*CO", true), cols));
    let mut cols: Vec<ColumnDefinition> = Vec::new();
    cols.push(ColumnDefinition::new(1, 7, ExpectedType::Integer32));
    cols.push(ColumnDefinition::new(30, 35, ExpectedType::OptionInteger32));
    cols.push(ColumnDefinition::new(37, 42, ExpectedType::OptionInteger32));
    defs.push(RowDefinition::new(ROW_I, RowMatcher::new(1, 0, "", true), cols));
    RowParser::new(defs)
}

/// Whether a value is of the kind written `c` (`T` text, `O` optional
/// integer, anything else integer).
fn kind_ok(v: &ParsedValue, c: char) -> (res: bool)
    ensures
        res == match c {
            'T' => v@ is String,
            'O' => v@ is OptionInteger32,
            _ => v@ is Integer32,
        },
{
    match v {
        ParsedValue::String(_) => c == 'T',
        ParsedValue::OptionInteger32(_) => c == 'O',
        ParsedValue::Integer32(_) => c != 'T' && c != 'O',
        _ => false,
    }
}

/// Whether the values have the kinds written in `shape`.
fn shape_ok(values: &Vec<ParsedValue>, shape: &str) -> (res: bool)
    ensures
        res == row_shape(values@, shape@),
{
    let n = shape.unicode_len();
    if values.len() != n {
        return false;
    }
    let mut k: usize = 0;
    while k < n
        invariant
            n == shape@.len(),
            values@.len() == n,
            0 <= k <= n,
            forall|q: int|
                0 <= q < k ==> match #[trigger] shape@[q] {
                    'T' => values@[q]@ is String,
                    'O' => values@[q]@ is OptionInteger32,
                    _ => values@[q]@ is Integer32,
                },
        decreases n - k,
    {
        if !kind_ok(&values[k], shape.get_char(k)) {
            return false;
        }
        k = k + 1;
    }
    true
}

/// Whether a time field holds a time of day.
fn time_ok(t: Option<i32>) -> (res: bool)
    ensures
        res == time_field_ok(t),
{
    match t {
        None => true,
        Some(v) => {
            if v == i32::MIN {
                return false;
            }
            let a: i32 = if v < 0 {
                0 - v
            } else {
                v
            };
            let w: i32 = if a >= 2400 {
                a % 2400
            } else {
                a
            };
            w % 100 < 60
        },
    }
}

/// The optional integer at `k`, where it is one.
fn opt_value(values: &Vec<ParsedValue>, k: usize) -> (res: Option<i32>)
    requires
        k < values@.len(),
        values@[k as int]@ is OptionInteger32,
    ensures
        res == opt_at(values@, k as int),
{
    opt_int_of(&values[k])
}

/// Whether the values of a row of kind `id` can be applied (see
/// `row_ready`).
pub fn row_ready_check(id: i32, values: &Vec<ParsedValue>) -> (res: bool)
    ensures
        res == row_ready(id, values@),
{
    proof {
        reveal_strlit("IT");
        reveal_strlit("TOO");
        reveal_strlit("OOO");
        reveal_strlit("TOOOIOO");
        reveal_strlit("TOOOO");
        reveal_strlit("TTOOOO");
        reveal_strlit("TIOO");
        reveal_strlit("IOO");
    }
    if id == ROW_A {
        shape_ok(values, "IT")
    } else if id == ROW_B || id == ROW_D {
        shape_ok(values, "TOO")
    } else if id == ROW_C {
        shape_ok(values, "OOO")
    } else if id == ROW_E {
        if !shape_ok(values, "TOOOIOO") {
            return false;
        }
        assert("TOOOIOO"@[5] == 'O' && "TOOOIOO"@[6] == 'O');
        time_ok(opt_value(values, 5)) && time_ok(opt_value(values, 6))
    } else if id == ROW_F {
        if !shape_ok(values, "TOOOO") {
            return false;
        }
        assert("TOOOO"@[3] == 'O' && "TOOOO"@[4] == 'O');
        time_ok(opt_value(values, 3)) && time_ok(opt_value(values, 4))
    } else if id == ROW_G {
        if !shape_ok(values, "TTOOOO") {
            return false;
        }
        assert("TTOOOO"@[4] == 'O' && "TTOOOO"@[5] == 'O');
        time_ok(opt_value(values, 4)) && time_ok(opt_value(values, 5))
    } else if id == ROW_H {
        shape_ok(values, "TIOO")
    } else if id == ROW_I {
        if !shape_ok(values, "IOO") {
            return false;
        }
        assert("IOO"@[1] == 'O' && "IOO"@[2] == 'O');
        time_ok(opt_value(values, 1)) && time_ok(opt_value(values, 2))
    } else {
        false
    }
}

/// The outcome of applying the FPLAN rows `rows` in order (see
/// `apply_fplan_row`), from the state `d0`, `c0`, `pk0` to `d1`, `c1`,
/// `pk1` (see `fplan_step`): the first row that fails ends the run with its
/// error.
pub open spec fn fplan_run(
    rows: Seq<(i32, Vec<ParsedValue>)>,
    d0: Seq<Journey>,
    c0: i32,
    pk0: Map<(i32, Seq<char>), i32>,
    d1: Seq<Journey>,
    c1: i32,
    pk1: Map<(i32, Seq<char>), i32>,
    tt: Map<Seq<char>, i32>,
    at: Map<Seq<char>, i32>,
    dir: Map<Seq<char>, i32>,
    res: PResult<()>,
) -> bool
    decreases rows.len(),
{
    if rows.len() == 0 {
        d1 == d0 && c1 == c0 && pk1 == pk0 && res is Ok
    } else {
        exists|dm: Seq<Journey>, cm: i32, pkm: Map<(i32, Seq<char>), i32>, r: PResult<()>|
            #![trigger fplan_step(rows[0].0, rows[0].1@, d0, dm, c0, cm, pk0, pkm, tt, at, dir, r)]
            fplan_step(rows[0].0, rows[0].1@, d0, dm, c0, cm, pk0, pkm, tt, at, dir, r) && if r is Err {
                res == r && d1 == dm && c1 == cm && pk1 == pkm
            } else {
                fplan_run(rows.skip(1), dm, cm, pkm, d1, c1, pk1, tt, at, dir, res)
            }
    }
}

/// The rows, applied in order from no journey, no id handed out and no pair
/// recorded, all succeed, giving the journeys `journeys` by id and the
/// recorded pairs `pk`.
pub open spec fn fplan_parsed(
    rows: Seq<(i32, Vec<ParsedValue>)>,
    tt: Map<Seq<char>, i32>,
    at: Map<Seq<char>, i32>,
    dir: Map<Seq<char>, i32>,
    journeys: Map<i32, Journey>,
    pk: Map<(i32, Seq<char>), i32>,
) -> bool {
    exists|d: Seq<Journey>, c: i32|
        #![trigger fplan_run(rows, Seq::empty(), 0, Map::empty(), d, c, pk, tt, at, dir, Ok::<(), ParsingError>(()))]
        fplan_run(rows, Seq::empty(), 0, Map::empty(), d, c, pk, tt, at, dir, Ok::<(), ParsingError>(()))
            && journeys == inserted_all(Map::empty(), keyed(d))
}

/// The rows, applied in order from no journey, no id handed out and no pair
/// recorded, end with the error `e`.
pub open spec fn fplan_failed(
    rows: Seq<(i32, Vec<ParsedValue>)>,
    tt: Map<Seq<char>, i32>,
    at: Map<Seq<char>, i32>,
    dir: Map<Seq<char>, i32>,
    e: ParsingError,
) -> bool {
    exists|d: Seq<Journey>, c: i32, p: Map<(i32, Seq<char>), i32>|
        #![trigger fplan_run(rows, Seq::empty(), 0, Map::empty(), d, c, p, tt, at, dir, Err::<(), ParsingError>(e))]
        fplan_run(rows, Seq::empty(), 0, Map::empty(), d, c, p, tt, at, dir, Err::<(), ParsingError>(e))
}

/// Reads the journeys of the FPLAN file from its rows, each given as its
/// kind and its values: the rows are applied in order (see
/// `apply_fplan_row`), from no journey, no id handed out and no pair
/// recorded, and the first row that fails ends the reading with its error.
/// The result is the journeys by id (ids come from the counter, so none is
/// repeated), with the (legacy id, administration) pairs recorded on the way.
pub fn parse_fplan_rows(
    rows_in: Vec<(i32, Vec<ParsedValue>)>,
    transport_types_pk_type_converter: &FxHashMap<String, i32>,
    attributes_pk_type_converter: &FxHashMap<String, i32>,
    directions_pk_type_converter: &FxHashMap<String, i32>,
) -> (res: PResult<(ResourceStorage<Journey>, FxHashMap<(i32, String), i32>)>)
    requires
        forall|k: int| 0 <= k < rows_in@.len() ==> row_ready((#[trigger] rows_in@[k]).0, rows_in@[k].1@),
        rows_in@.len() < i32::MAX,
    ensures
        match res {
            Ok((journeys, pk)) => fplan_parsed(
                rows_in@,
                designation_map_contents(*transport_types_pk_type_converter),
                designation_map_contents(*attributes_pk_type_converter),
                designation_map_contents(*directions_pk_type_converter),
                journeys@,
                legacy_map_contents(pk),
            ),
            Err(e) => fplan_failed(
                rows_in@,
                designation_map_contents(*transport_types_pk_type_converter),
                designation_map_contents(*attributes_pk_type_converter),
                designation_map_contents(*directions_pk_type_converter),
                e,
            ),
        },
{
    let ghost tt = designation_map_contents(*transport_types_pk_type_converter);
    let ghost at = designation_map_contents(*attributes_pk_type_converter);
    let ghost dir = designation_map_contents(*directions_pk_type_converter);
    let ghost all = rows_in@;
    let n = rows_in.len();
    let mut rows = rows_in;
    let mut stack: Vec<(i32, Vec<ParsedValue>)> = Vec::new();
    while rows.len() > 0
        invariant
            n == all.len(),
            rows@.len() + stack@.len() == n,
            forall|k: int| 0 <= k < rows@.len() ==> #[trigger] rows@[k] == all[k],
            forall|k: int| 0 <= k < stack@.len() ==> #[trigger] stack@[k] == all[n - 1 - k],
        decreases rows@.len(),
    {
        let r = rows.pop().unwrap();
        stack.push(r);
    }
    let mut data: Vec<Journey> = Vec::new();
    let mut auto_increment = AutoIncrement::new();
    let mut pk_type_converter = legacy_map_new();
    let mut i: usize = 0;
    assert(all.skip(0) =~= all);
    while stack.len() > 0
        invariant
            all == rows_in@,
            n == all.len(),
            n < i32::MAX,
            i + stack@.len() == n,
            forall|k: int| 0 <= k < stack@.len() ==> #[trigger] stack@[k] == all[n - 1 - k],
            forall|k: int| 0 <= k < all.len() ==> row_ready((#[trigger] all[k]).0, all[k].1@),
            auto_increment.last() <= i,
            tt == designation_map_contents(*transport_types_pk_type_converter),
            at == designation_map_contents(*attributes_pk_type_converter),
            dir == designation_map_contents(*directions_pk_type_converter),
            forall|d1: Seq<Journey>, c1: i32, pk1: Map<(i32, Seq<char>), i32>, r: PResult<()>|
                #[trigger] fplan_run(
                    all.skip(i as int),
                    data@,
                    auto_increment.last(),
                    legacy_map_contents(pk_type_converter),
                    d1,
                    c1,
                    pk1,
                    tt,
                    at,
                    dir,
                    r,
                ) ==> fplan_run(all, Seq::empty(), 0, Map::empty(), d1, c1, pk1, tt, at, dir, r),
        decreases stack@.len(),
    {
        let (id, values) = stack.pop().unwrap();
        assert(all[i as int] == (id, values));
        let ghost d0 = data@;
        let ghost c0 = auto_increment.last();
        let ghost pk0 = legacy_map_contents(pk_type_converter);
        let ghost rest = all.skip(i as int);
        assert(rest[0] == (id, values));
        assert(rest.skip(1) =~= all.skip(i + 1));
        let step = apply_fplan_row(
            &mut data,
            id,
            values,
            &mut auto_increment,
            &mut pk_type_converter,
            transport_types_pk_type_converter,
            attributes_pk_type_converter,
            directions_pk_type_converter,
        );
        let ghost dm = data@;
        let ghost cm = auto_increment.last();
        let ghost pkm = legacy_map_contents(pk_type_converter);
        match step {
            Err(e) => {
                assert(fplan_step(rest[0].0, rest[0].1@, d0, dm, c0, cm, pk0, pkm, tt, at, dir, step));
                assert(fplan_run(rest, d0, c0, pk0, dm, cm, pkm, tt, at, dir, Err::<(), ParsingError>(e)));
                assert(fplan_run(all, Seq::empty(), 0, Map::empty(), dm, cm, pkm, tt, at, dir, Err::<(), ParsingError>(e)));
                assert(fplan_failed(all, tt, at, dir, e));
                return Err(e);
            },
            Ok(()) => {
                assert forall|d1: Seq<Journey>, c1: i32, pk1: Map<(i32, Seq<char>), i32>, r: PResult<()>|
                    #[trigger] fplan_run(all.skip(i + 1), dm, cm, pkm, d1, c1, pk1, tt, at, dir, r) implies fplan_run(
                    all,
                    Seq::empty(),
                    0,
                    Map::empty(),
                    d1,
                    c1,
                    pk1,
                    tt,
                    at,
                    dir,
                    r,
                ) by {
                    assert(fplan_step(rest[0].0, rest[0].1@, d0, dm, c0, cm, pk0, pkm, tt, at, dir, step));
                    assert(fplan_run(rest, d0, c0, pk0, d1, c1, pk1, tt, at, dir, r));
                }
            },
        }
        i = i + 1;
    }
    let ghost d = data@;
    let ghost c = auto_increment.last();
    assert(all.skip(i as int) =~= Seq::<(i32, Vec<ParsedValue>)>::empty());
    assert(fplan_run(
        all.skip(i as int),
        d,
        c,
        legacy_map_contents(pk_type_converter),
        d,
        c,
        legacy_map_contents(pk_type_converter),
        tt,
        at,
        dir,
        Ok::<(), ParsingError>(()),
    ));
    assert(fplan_run(
        all,
        Seq::empty(),
        0,
        Map::empty(),
        d,
        c,
        legacy_map_contents(pk_type_converter),
        tt,
        at,
        dir,
        Ok::<(), ParsingError>(()),
    ));
    let journeys = ResourceStorage::new(vec_to_map(data));
    assert(journeys@ == inserted_all(Map::empty(), keyed(d)));
    assert(fplan_parsed(all, tt, at, dir, journeys@, legacy_map_contents(pk_type_converter)));
    Ok((journeys, pk_type_converter))
}

/// What loading FPLAN with the parser gives: a syntax error with the first
/// row that it cannot read, or with the first row read whose values cannot
/// be applied (see `row_ready`: a time that is not one); else what
/// `parse_fplan_rows` gives for the rows read.
pub open spec fn fplan_file_loaded(
    p: RowParser,
    rows: Seq<String>,
    tt: Map<Seq<char>, i32>,
    at: Map<Seq<char>, i32>,
    dt: Map<Seq<char>, i32>,
    res: PResult<(ResourceStorage<Journey>, FxHashMap<(i32, String), i32>)>,
) -> bool {
    if forall|i: int| 0 <= i < rows.len() ==> row_readable(p, #[trigger] rows[i]) {
        exists|out: Seq<(i32, Vec<ParsedValue>)>|
            #[trigger] rows_read(p, rows, out) && if forall|i: int|
                0 <= i < out.len() ==> row_ready(#[trigger] out[i].0, out[i].1@) {
                match res {
                    Ok((journeys, pk)) => fplan_parsed(out, tt, at, dt, journeys@, legacy_map_contents(pk)),
                    Err(e) => fplan_failed(out, tt, at, dt, e),
                }
            } else {
                exists|i: int|
                    0 <= i < out.len() && !row_ready(out[i].0, out[i].1@) && (forall|j: int|
                        0 <= j < i ==> row_ready(#[trigger] out[j].0, out[j].1@)) && res == Err::<
                        (ResourceStorage<Journey>, FxHashMap<(i32, String), i32>),
                        ParsingError,
                    >(ParsingError::Syntax(rows[i]))
            }
    } else {
        exists|i: int|
            0 <= i < rows.len() && !row_readable(p, rows[i]) && (forall|j: int|
                0 <= j < i ==> row_readable(p, #[trigger] rows[j])) && res == Err::<
                (ResourceStorage<Journey>, FxHashMap<(i32, String), i32>),
                ParsingError,
            >(ParsingError::Syntax(rows[i]))
    }
}

/// Loads FPLAN from its rows: reads them with `fplan_row_parser` and builds
/// the journeys with `parse_fplan_rows`.
pub fn parse_fplan_file_rows(
    rows: &Vec<String>,
    transport_types_pk_type_converter: &FxHashMap<String, i32>,
    attributes_pk_type_converter: &FxHashMap<String, i32>,
    directions_pk_type_converter: &FxHashMap<String, i32>,
) -> (res: PResult<(ResourceStorage<Journey>, FxHashMap<(i32, String), i32>)>)
    requires
        rows@.len() < i32::MAX,
    ensures
        exists|p: RowParser|
            fplan_layout(p.definitions()) && fplan_file_loaded(
                p,
                rows@,
                designation_map_contents(*transport_types_pk_type_converter),
                designation_map_contents(*attributes_pk_type_converter),
                designation_map_contents(*directions_pk_type_converter),
                res,
            ),
{
    let ghost tt = designation_map_contents(*transport_types_pk_type_converter);
    let ghost at = designation_map_contents(*attributes_pk_type_converter);
    let ghost dt = designation_map_contents(*directions_pk_type_converter);
    let parser = fplan_row_parser();
    let out = match read_rows(&parser, rows) {
        Err(e) => {
            assert(fplan_file_loaded(parser, rows@, tt, at, dt, Err(e)));
            return Err(e);
        },
        Ok(out) => out,
    };
    assert forall|i: int| 0 <= i < rows@.len() implies row_readable(parser, #[trigger] rows@[i]) by {}
    let mut k: usize = 0;
    while k < out.len()
        invariant
            0 <= k <= out@.len(),
            out@.len() == rows@.len(),
            fplan_layout(parser.definitions()),
            tt == designation_map_contents(*transport_types_pk_type_converter),
            at == designation_map_contents(*attributes_pk_type_converter),
            dt == designation_map_contents(*directions_pk_type_converter),
            rows_read(parser, rows@, out@),
            forall|i: int| 0 <= i < rows@.len() ==> row_readable(parser, #[trigger] rows@[i]),
            forall|i: int| 0 <= i < k ==> row_ready(#[trigger] out@[i].0, out@[i].1@),
        decreases out@.len() - k,
    {
        if !row_ready_check(out[k].0, &out[k].1) {
            let res = Err(ParsingError::Syntax(rows[k].clone()));
            assert(!row_ready(out@[k as int].0, out@[k as int].1@));
            assert(fplan_file_loaded(parser, rows@, tt, at, dt, res));
            assert(fplan_layout(parser.definitions()));
            return res;
        }
        k = k + 1;
    }
    let ghost all = out@;
    let res = parse_fplan_rows(
        out,
        transport_types_pk_type_converter,
        attributes_pk_type_converter,
        directions_pk_type_converter,
    );
    assert(fplan_file_loaded(parser, rows@, tt, at, dt, res));
    res
}

/// Journeys stored by their ids are each under their own id.
pub proof fn lemma_keyed_journeys_are_under_their_ids(d: Seq<Journey>)
    ensures
        crate::storage::keys_are_ids(inserted_all(Map::empty(), keyed(d))),
    decreases d.len(),
{
    if d.len() > 0 {
        lemma_keyed_journeys_are_under_their_ids(d.drop_last());
        assert(keyed(d).drop_last() =~= keyed(d.drop_last()));
    }
}

/// The journeys read from FPLAN are each stored under their own id (so that
/// the storage built from them resolves its index by stop and bit field,
/// see `DataStorage::new`).
pub proof fn lemma_fplan_journeys_are_under_their_ids(
    rows: Seq<(i32, Vec<ParsedValue>)>,
    tt: Map<Seq<char>, i32>,
    at: Map<Seq<char>, i32>,
    dt: Map<Seq<char>, i32>,
    journeys: Map<i32, Journey>,
    pk: Map<(i32, Seq<char>), i32>,
)
    requires
        fplan_parsed(rows, tt, at, dt, journeys, pk),
    ensures
        crate::storage::keys_are_ids(journeys),
{
    let (d, c) = choose|d: Seq<Journey>, c: i32|
        #![trigger fplan_run(rows, Seq::empty(), 0, Map::empty(), d, c, pk, tt, at, dt, Ok::<(), ParsingError>(()))]
        fplan_run(rows, Seq::empty(), 0, Map::empty(), d, c, pk, tt, at, dt, Ok::<(), ParsingError>(()))
            && journeys == inserted_all(Map::empty(), keyed(d));
    lemma_keyed_journeys_are_under_their_ids(d);
}

} // verus!
