//! The GLEIS file: the platforms, and at which platform each journey stops.
//!
//! Rows of two kinds, told by byte 9:
//! - a journey row (byte 9 is not `#`): the stop (bytes 1-7), the journey
//!   (9-14) and its administration (16-21), the platform's number at the stop
//!   (24-30), the time (32-35, `HHMM`, optional) and the bit field (37-42,
//!   optional);
//! - a platform row (`#` at byte 9): the stop (1-7), the platform's number
//!   at the stop (10-16) and its field `G '1' A 'AB'` (from byte 18 on: the
//!   code, key `G`, and the sectors, key `A`).
//!
//! The platform rows make the platforms first, with the ids 1, 2, ... in
//! their order; (stop, number) then names the id. The journey rows are taken
//! next, in their order: the journey must be known by (legacy id,
//! administration) and the platform by (stop, number). A later journey row
//! for the same journey and platform replaces an earlier one.
//!
//! The SLOID rows of GLEIS_LV95 (`I A` at bytes 18-20) set the platforms'
//! SLOIDs; its rows with `G` or `K` at byte 18 (the platforms again, and
//! their coordinates) give nothing here.
use crate::attribute_parser::column_is;
use crate::calendar::Time;
use crate::error::{PResult, ParsingError};
use crate::fields::{last_value, parse_platform_data, platform_data_check, platform_data_readable, platform_items};
use crate::fxmap::{fx_map_get, fx_map_insert, fx_map_new, fx_map_remove, legacy_map_contents, legacy_map_get};
use crate::journey_parser::{int_at, int_of, opt_at, opt_int_of, text_at, text_of};
use crate::models::{JourneyPlatform, Platform, PlatformView};
use crate::parsing::{
    read_rows,
    row_readable,
    row_values,
    rows_read,
    values_view,
    ColumnDefinition,
    ExpectedType,
    ParsedValue,
    RowDefinition,
    RowMatcher,
    RowParser,
};
use crate::storage::ResourceStorage;
use crate::utils::create_time_from_value;
use rustc_hash::FxHashMap;
use vstd::prelude::*;
use vstd::string::StringSliceAdditionalSpecFns;
use vstd::utf8::encode_utf8;

verus! {

/// The matcher compares byte `start` (`length` bytes) with `value`, the row
/// being of the kind when they are equal (`equal`) or when they differ.
pub open spec fn bytes_matcher(d: RowDefinition, start: int, length: int, value: Seq<char>, equal: bool) -> bool {
    d.spec_row_matcher() matches Some(m) && m.pattern_text() is None && m.spec_start() == start
        && m.spec_length() == length && m.value_text() == value && m.spec_should_equal_value() == equal
}

/// The two kinds of GLEIS rows (see the module's documentation): 1 the
/// journey rows, 2 the platform rows.
pub open spec fn gleis_layout(defs: Seq<RowDefinition>) -> bool {
    let a = defs[0].columns();
    let b = defs[1].columns();
    &&& defs.len() == 2
    &&& defs[0].spec_id() == 1 && bytes_matcher(defs[0], 9, 1, "#"@, false)
    &&& a.len() == 6
    &&& column_is(a[0], 1, 7, ExpectedType::Integer32)
    &&& column_is(a[1], 9, 14, ExpectedType::Integer32)
    &&& column_is(a[2], 16, 21, ExpectedType::String)
    &&& column_is(a[3], 24, 30, ExpectedType::Integer32)
    &&& column_is(a[4], 32, 35, ExpectedType::OptionInteger32)
    &&& column_is(a[5], 37, 42, ExpectedType::OptionInteger32)
    &&& defs[1].spec_id() == 2 && bytes_matcher(defs[1], 9, 1, "#"@, true)
    &&& b.len() == 3
    &&& column_is(b[0], 1, 7, ExpectedType::Integer32)
    &&& column_is(b[1], 10, 16, ExpectedType::Integer32)
    &&& column_is(b[2], 18, -1, ExpectedType::String)
}

/// The parser of GLEIS rows.
pub fn gleis_row_parser() -> (res: RowParser)
    ensures
        gleis_layout(res.definitions()),
{
    RowParser::new(
        vec![
            RowDefinition::new(
                1,
                RowMatcher::new(9, 1, "#", false),
                vec![
                    ColumnDefinition::new(1, 7, ExpectedType::Integer32),
                    ColumnDefinition::new(9, 14, ExpectedType::Integer32),
                    ColumnDefinition::new(16, 21, ExpectedType::String),
                    ColumnDefinition::new(24, 30, ExpectedType::Integer32),
                    ColumnDefinition::new(32, 35, ExpectedType::OptionInteger32),
                    ColumnDefinition::new(37, 42, ExpectedType::OptionInteger32),
                ],
            ),
            RowDefinition::new(
                2,
                RowMatcher::new(9, 1, "#", true),
                vec![
                    ColumnDefinition::new(1, 7, ExpectedType::Integer32),
                    ColumnDefinition::new(10, 16, ExpectedType::Integer32),
                    ColumnDefinition::new(18, -1, ExpectedType::String),
                ],
            ),
        ],
    )
}

/// Why the rows cannot be taken in; each fault names the row (by its index).
pub enum PlatformFault {
    /// A platform field whose items are not all a key and a value.
    Unreadable(int),
    /// A platform field without a code.
    MissingCode(int),
    /// A journey row whose journey is not known.
    UnknownJourney(int),
    /// A journey row whose platform is not known.
    UnknownPlatform(int),
    /// A journey row whose time (as an unsigned number) is not a time.
    Time(int),
}

/// The platforms that the platform rows among the first `n` rows read make,
/// and the id that each (stop, number) names; or the fault of the first
/// platform row that cannot be taken in.
pub open spec fn platforms_after(out: Seq<(i32, Vec<ParsedValue>)>, n: int) -> Result<
    (Seq<PlatformView>, Map<(i32, i32), i32>),
    PlatformFault,
>
    decreases n,
{
    if n <= 0 {
        Ok((Seq::empty(), Map::empty()))
    } else {
        match platforms_after(out, n - 1) {
            Err(f) => Err(f),
            Ok((ps, pk)) => {
                let i = n - 1;
                let v = out[i].1@;
                let d = text_at(v, 2);
                if out[i].0 != 2 {
                    Ok((ps, pk))
                } else if !platform_data_readable(d) {
                    Err(PlatformFault::Unreadable(i))
                } else if last_value(platform_items(d), "G"@) is None {
                    Err(PlatformFault::MissingCode(i))
                } else {
                    let id = (ps.len() + 1) as i32;
                    Ok(
                        (
                            ps.push(
                                PlatformView {
                                    id,
                                    name: last_value(platform_items(d), "G"@)->0,
                                    sectors: last_value(platform_items(d), "A"@),
                                    stop_id: int_at(v, 0),
                                    sloid: Seq::empty(),
                                },
                            ),
                            pk.insert((int_at(v, 0), int_at(v, 1)), id),
                        ),
                    )
                }
            },
        }
    }
}

/// What a journey platform holds: legacy journey id, administration,
/// platform id, minute of the day (if a time is given) and bit field.
pub type JourneyPlatformRecord = (i32, Seq<char>, i32, Option<int>, Option<i32>);

/// The number of a time field, as an unsigned number (`as u32`).
pub open spec fn time_value(x: i32) -> u32 {
    x as u32
}

/// The journey platforms that the journey rows among the first `n` rows
/// read make, by (legacy journey id, platform id); `journeys` gives the
/// journeys by (legacy id, administration), `platforms` the platforms by
/// (stop, number). Or the fault of the first journey row that cannot be
/// taken in.
pub open spec fn journey_platforms_after(
    out: Seq<(i32, Vec<ParsedValue>)>,
    n: int,
    journeys: Map<(i32, Seq<char>), i32>,
    platforms: Map<(i32, i32), i32>,
) -> Result<Map<(i32, i32), JourneyPlatformRecord>, PlatformFault>
    decreases n,
{
    if n <= 0 {
        Ok(Map::empty())
    } else {
        match journey_platforms_after(out, n - 1, journeys, platforms) {
            Err(f) => Err(f),
            Ok(m) => {
                let i = n - 1;
                let v = out[i].1@;
                let j = int_at(v, 1);
                let a = text_at(v, 2);
                let place = (int_at(v, 0), int_at(v, 3));
                if out[i].0 != 1 {
                    Ok(m)
                } else if !journeys.contains_key((j, a)) {
                    Err(PlatformFault::UnknownJourney(i))
                } else if !platforms.contains_key(place) {
                    Err(PlatformFault::UnknownPlatform(i))
                } else {
                    let time: Option<int> = match opt_at(v, 4) {
                        Some(x) => Some(
                            (time_value(x) / 100) as int * 60 + (time_value(x) % 100) as int,
                        ),
                        None => None,
                    };
                    match opt_at(v, 4) {
                        Some(x) => if !(time_value(x) / 100 < 24 && time_value(x) % 100 < 60) {
                            Err(PlatformFault::Time(i))
                        } else {
                            Ok(m.insert((j, platforms[place]), (j, a, platforms[place], time, opt_at(v, 5))))
                        },
                        None => Ok(m.insert((j, platforms[place]), (j, a, platforms[place], time, opt_at(v, 5)))),
                    }
                }
            },
        }
    }
}

/// The error is the fault (of a row among `rows`, read as `out`).
pub open spec fn platform_fault_is(
    e: ParsingError,
    f: PlatformFault,
    rows: Seq<String>,
    out: Seq<(i32, Vec<ParsedValue>)>,
) -> bool {
    match f {
        PlatformFault::Unreadable(i) => e matches ParsingError::Syntax(s) && s@ == text_at(out[i].1@, 2),
        PlatformFault::MissingCode(_) => e matches ParsingError::Unknown(s) && s@
            == "Entry of type \"G\" missing."@,
        PlatformFault::UnknownJourney(i) => e == ParsingError::UnknownId(rows[i]),
        PlatformFault::UnknownPlatform(i) => e == ParsingError::UnknownId(rows[i]),
        PlatformFault::Time(i) => e == ParsingError::UnableToBuildTime(
            time_value(opt_at(out[i].1@, 4)->0) / 100,
            time_value(opt_at(out[i].1@, 4)->0) % 100,
            0,
        ),
    }
}

/// The journey platform holds the record.
pub open spec fn journey_platform_holds(jp: JourneyPlatform, r: JourneyPlatformRecord) -> bool {
    &&& jp.spec_journey_legacy_id() == r.0
    &&& jp.administration_text() == r.1
    &&& jp.spec_platform_id() == r.2
    &&& match r.3 {
        Some(minute) => jp.spec_time() matches Some(t) && t.wf() && t.minute_of_day() == minute,
        None => jp.spec_time() is None,
    }
    &&& jp.spec_bit_field_id() == r.4
}

/// The bytes that the journey rows among the first `n` rows take in the
/// file, each with its line break `\r\n`.
pub open spec fn journey_row_bytes(rows: Seq<String>, out: Seq<(i32, Vec<ParsedValue>)>, n: int) -> int
    decreases n,
{
    if n <= 0 {
        0
    } else {
        journey_row_bytes(rows, out, n - 1) + if out[n - 1].0 == 1 {
            encode_utf8(rows[n - 1]@).len() + 2
        } else {
            0
        }
    }
}

/// The bytes that the first `n` rows take in the file, each with its line
/// break `\r\n`.
pub open spec fn total_row_bytes(rows: Seq<String>, n: int) -> int
    decreases n,
{
    if n <= 0 {
        0
    } else {
        total_row_bytes(rows, n - 1) + encode_utf8(rows[n - 1]@).len() + 2
    }
}

/// What the GLEIS rows, read as `out`, give: the journey platforms, the
/// platforms (under the ids 1, 2, ...), the id that each (stop, number)
/// names, and the bytes of the journey rows (where the coordinate files
/// start their own part); or the error of the first row that cannot be
/// taken in (platform rows first, then journey rows).
pub open spec fn platforms_from(
    rows: Seq<String>,
    out: Seq<(i32, Vec<ParsedValue>)>,
    journeys: Map<(i32, Seq<char>), i32>,
    res: PResult<(ResourceStorage<JourneyPlatform>, ResourceStorage<Platform>, FxHashMap<(i32, i32), i32>, usize)>,
) -> bool {
    match platforms_after(out, out.len() as int) {
        Err(f) => res matches Err(e) && platform_fault_is(e, f, rows, out),
        Ok((ps, pk)) => match journey_platforms_after(out, out.len() as int, journeys, pk) {
            Err(f) => res matches Err(e) && platform_fault_is(e, f, rows, out),
            Ok(m) => res matches Ok((jps, platforms, converter, offset)) && {
                &&& forall|k: i32| #[trigger] platforms@.contains_key(k) <==> 1 <= k <= ps.len()
                &&& forall|k: i32| #[trigger] platforms@.contains_key(k) ==> platforms@[k]@ == ps[k - 1]
                &&& converter@ == pk
                &&& jps@.dom() == m.dom()
                &&& forall|k: (i32, i32)| #[trigger]
                    jps@.contains_key(k) ==> journey_platform_holds(jps@[k], m[k])
                &&& offset == journey_row_bytes(rows, out, out.len() as int)
            },
        },
    }
}

/// What loading GLEIS with the parser gives: a syntax error with the first
/// row that it cannot read, else what the rows read give (see
/// `platforms_from`).
pub open spec fn platforms_loaded(
    p: RowParser,
    rows: Seq<String>,
    journeys: Map<(i32, Seq<char>), i32>,
    res: PResult<(ResourceStorage<JourneyPlatform>, ResourceStorage<Platform>, FxHashMap<(i32, i32), i32>, usize)>,
) -> bool {
    if forall|i: int| 0 <= i < rows.len() ==> row_readable(p, #[trigger] rows[i]) {
        exists|out: Seq<(i32, Vec<ParsedValue>)>|
            #[trigger] rows_read(p, rows, out) && platforms_from(rows, out, journeys, res)
    } else {
        exists|i: int|
            0 <= i < rows.len() && !row_readable(p, rows[i]) && (forall|j: int|
                0 <= j < i ==> row_readable(p, #[trigger] rows[j])) && res == Err::<
                (ResourceStorage<JourneyPlatform>, ResourceStorage<Platform>, FxHashMap<(i32, i32), i32>, usize),
                ParsingError,
            >(ParsingError::Syntax(rows[i]))
    }
}

proof fn lemma_gleis_row(p: RowParser, row: String, x: (i32, Vec<ParsedValue>))
    requires
        gleis_layout(p.definitions()),
        row_readable(p, row),
        row_values(p, row, x),
    ensures
        x.0 == 1 ==> x.1@.len() == 6 && x.1@[0]@ is Integer32 && x.1@[1]@ is Integer32 && x.1@[2]@ is String
            && x.1@[3]@ is Integer32 && x.1@[4]@ is OptionInteger32 && x.1@[5]@ is OptionInteger32,
        x.0 == 2 ==> x.1@.len() == 3 && x.1@[0]@ is Integer32 && x.1@[1]@ is Integer32 && x.1@[2]@ is String,
        x.0 == 1 || x.0 == 2,
{
    reveal(row_readable);
    reveal(row_values);
    let b = encode_utf8(row@);
    crate::parsing::lemma_matching_kind_in_range(p.definitions(), b, 0);
    let v = x.1@;
    let kind = p.kind_of(b)->0;
    let d = p.definitions()[kind];
    assert(kind == 0 || kind == 1);
    assert(x.0 == d.spec_id());
    assert(values_view(v) == crate::parsing::row_read(p, b).1);
    assert(values_view(v).len() == v.len());
    assert(crate::parsing::row_read(p, b).1.len() == d.columns().len());
    assert forall|k: int| 0 <= k < v.len() implies #[trigger] v[k]@ == d.columns()[k].value_in(b) by {
        assert(v[k]@ == values_view(v)[k]);
    }
}

proof fn lemma_platform_fault_stays(out: Seq<(i32, Vec<ParsedValue>)>, k: int, n: int, f: PlatformFault)
    requires
        0 <= k <= n,
        platforms_after(out, k) == Err::<(Seq<PlatformView>, Map<(i32, i32), i32>), PlatformFault>(f),
    ensures
        platforms_after(out, n) == Err::<(Seq<PlatformView>, Map<(i32, i32), i32>), PlatformFault>(f),
    decreases n - k,
{
    if k < n {
        lemma_platform_fault_stays(out, k, n - 1, f);
    }
}

proof fn lemma_platform_ids(out: Seq<(i32, Vec<ParsedValue>)>, n: int)
    requires
        0 <= n < i32::MAX,
    ensures
        platforms_after(out, n) matches Ok((ps, pk)) ==> ps.len() <= n && forall|i: int|
            0 <= i < ps.len() ==> (#[trigger] ps[i]).id == i + 1,
    decreases n,
{
    if n > 0 {
        lemma_platform_ids(out, n - 1);
    }
}

proof fn lemma_journey_fault_stays(
    out: Seq<(i32, Vec<ParsedValue>)>,
    k: int,
    n: int,
    journeys: Map<(i32, Seq<char>), i32>,
    platforms: Map<(i32, i32), i32>,
    f: PlatformFault,
)
    requires
        0 <= k <= n,
        journey_platforms_after(out, k, journeys, platforms) == Err::<
            Map<(i32, i32), JourneyPlatformRecord>,
            PlatformFault,
        >(f),
    ensures
        journey_platforms_after(out, n, journeys, platforms) == Err::<
            Map<(i32, i32), JourneyPlatformRecord>,
            PlatformFault,
        >(f),
    decreases n - k,
{
    if k < n {
        lemma_journey_fault_stays(out, k, n - 1, journeys, platforms, f);
    }
}

proof fn lemma_bytes_bounded(rows: Seq<String>, out: Seq<(i32, Vec<ParsedValue>)>, k: int, n: int)
    requires
        0 <= k <= n,
    ensures
        journey_row_bytes(rows, out, k) <= total_row_bytes(rows, k) <= total_row_bytes(rows, n),
        0 <= journey_row_bytes(rows, out, k),
    decreases n,
{
    if n > k {
        lemma_bytes_bounded(rows, out, k, n - 1);
    } else if k > 0 {
        lemma_bytes_bounded(rows, out, k - 1, k - 1);
    }
}

/// Loads GLEIS from its rows (see the module's documentation); `journeys`
/// gives the journeys by (legacy id, administration). The result also holds
/// the id that each (stop, number) names and the bytes of the journey rows.
#[verifier::rlimit(80)]
pub fn parse_platform_rows(rows: &Vec<String>, journeys_pk_type_converter: &FxHashMap<(i32, String), i32>) -> (res:
    PResult<(ResourceStorage<JourneyPlatform>, ResourceStorage<Platform>, FxHashMap<(i32, i32), i32>, usize)>)
    requires
        rows@.len() < i32::MAX,
        total_row_bytes(rows@, rows@.len() as int) <= usize::MAX,
    ensures
        exists|p: RowParser|
            gleis_layout(p.definitions()) && platforms_loaded(
                p,
                rows@,
                legacy_map_contents(*journeys_pk_type_converter),
                res,
            ),
{
    let ghost journeys = legacy_map_contents(*journeys_pk_type_converter);
    let parser = gleis_row_parser();
    let out = match read_rows(&parser, rows) {
        Err(e) => {
            assert(platforms_loaded(parser, rows@, journeys, Err(e)));
            return Err(e);
        },
        Ok(out) => out,
    };
    let ghost all = out@;
    assert forall|i: int| 0 <= i < rows@.len() implies row_readable(parser, #[trigger] rows@[i]) by {}
    let mut plats: Vec<Platform> = Vec::new();
    let mut pk: FxHashMap<(i32, i32), i32> = fx_map_new();
    let mut offset: usize = 0;
    let mut k: usize = 0;
    while k < out.len()
        invariant
            0 <= k <= out@.len(),
            out@ == all,
            out@.len() == rows@.len(),
            rows@.len() < i32::MAX,
            total_row_bytes(rows@, rows@.len() as int) <= usize::MAX,
            gleis_layout(parser.definitions()),
            rows_read(parser, rows@, all),
            journeys == legacy_map_contents(*journeys_pk_type_converter),
            plats@.len() <= k,
            platforms_after(all, k as int) matches Ok((ps, ppk)) && ps.len() == plats@.len() && ppk
                == pk@ && forall|i: int| 0 <= i < plats@.len() ==> #[trigger] plats@[i]@ == ps[i],
            offset == journey_row_bytes(rows@, all, k as int),
        decreases out@.len() - k,
    {
        proof {
            assert(row_readable(parser, rows@[k as int]));
            lemma_gleis_row(parser, rows@[k as int], all[k as int]);
            lemma_bytes_bounded(rows@, all, k + 1, rows@.len() as int);
        }
        let ghost before = plats@;
        if out[k].0 == 2 {
            let stop = int_of(&out[k].1[0]);
            let number = int_of(&out[k].1[1]);
            let data = text_of(&out[k].1[2]);
            match platform_data_check(data.as_str()) {
                None => {
                    let res = Err(ParsingError::Syntax(data));
                    proof {
                        lemma_platform_fault_stays(all, k + 1, all.len() as int, PlatformFault::Unreadable(k as int));
                    }
                    assert(platforms_loaded(parser, rows@, journeys, res));
                    return res;
                },
                Some(false) => {
                    let res = Err(ParsingError::Unknown("Entry of type \"G\" missing.".to_owned()));
                    proof {
                        lemma_platform_fault_stays(all, k + 1, all.len() as int, PlatformFault::MissingCode(k as int));
                    }
                    assert(platforms_loaded(parser, rows@, journeys, res));
                    return res;
                },
                Some(true) => {},
            }
            let (code, sectors) = parse_platform_data(data);
            let id = (plats.len() + 1) as i32;
            let platform = Platform::new(id, code, sectors, stop);
            fx_map_insert(&mut pk, (stop, number), id);
            plats.push(platform);
            proof {
                assert forall|i: int| 0 <= i < plats@.len() implies #[trigger] plats@[i]@
                    == (platforms_after(all, k + 1)->Ok_0).0[i] by {
                    if i < before.len() {
                        assert(plats@[i] == before[i]);
                    }
                }
            }
        } else {
            let n = rows[k].as_str().as_bytes().len();
            offset = offset + n + 2;
        }
        k = k + 1;
    }
    let ghost pf = platforms_after(all, all.len() as int)->Ok_0;
    proof {
        lemma_platform_ids(all, all.len() as int);
    }
    let mut data: FxHashMap<i32, Platform> = fx_map_new();
    let ghost ps = plats@;
    while plats.len() > 0
        invariant
            ps.len() == pf.0.len(),
            plats@.len() <= ps.len(),
            plats@ == ps.take(plats@.len() as int),
            forall|i: int| 0 <= i < ps.len() ==> #[trigger] ps[i]@ == pf.0[i],
            forall|i: int| 0 <= i < pf.0.len() ==> (#[trigger] pf.0[i]).id == i + 1,
            forall|q: i32| #[trigger] data@.contains_key(q) <==> plats@.len() < q <= ps.len(),
            forall|q: i32| #[trigger] data@.contains_key(q) ==> data@[q] == ps[q - 1],
            ps.len() < i32::MAX,
        decreases plats@.len(),
    {
        let ghost n = plats@.len();
        let platform = plats.pop().unwrap();
        proof {
            assert(ps.take(n - 1) =~= ps.take(n as int).drop_last());
            assert(platform == ps[n - 1]);
        }
        let id = platform.id();
        fx_map_insert(&mut data, id, platform);
    }
    let platforms = ResourceStorage::new(data);
    let mut jps: FxHashMap<(i32, i32), JourneyPlatform> = fx_map_new();
    let mut k: usize = 0;
    while k < out.len()
        invariant
            0 <= k <= out@.len(),
            out@ == all,
            out@.len() == rows@.len(),
            gleis_layout(parser.definitions()),
            rows_read(parser, rows@, all),
            journeys == legacy_map_contents(*journeys_pk_type_converter),
            platforms_after(all, all.len() as int) == Ok::<(Seq<PlatformView>, Map<(i32, i32), i32>), PlatformFault>(pf),
            pf.1 == pk@,
            journey_platforms_after(all, k as int, journeys, pk@) matches Ok(m) && jps@.dom() == m.dom()
                && forall|q: (i32, i32)| #[trigger]
                jps@.contains_key(q) ==> journey_platform_holds(jps@[q], m[q]),
        decreases out@.len() - k,
    {
        proof {
            assert(row_readable(parser, rows@[k as int]));
            lemma_gleis_row(parser, rows@[k as int], all[k as int]);
        }
        if out[k].0 == 1 {
            let stop = int_of(&out[k].1[0]);
            let journey = int_of(&out[k].1[1]);
            let administration = text_of(&out[k].1[2]);
            let number = int_of(&out[k].1[3]);
            let time = opt_int_of(&out[k].1[4]);
            let bit_field_id = opt_int_of(&out[k].1[5]);
            let key = (journey, administration.clone());
            if legacy_map_get(journeys_pk_type_converter, &key).is_none() {
                let res = Err(ParsingError::UnknownId(rows[k].clone()));
                proof {
                    lemma_journey_fault_stays(all, k + 1, all.len() as int, journeys, pk@, PlatformFault::UnknownJourney(k as int));
                }
                assert(platforms_loaded(parser, rows@, journeys, res));
                return res;
            }
            let platform_id = match fx_map_get(&pk, (stop, number)) {
                Some(id) => *id,
                None => {
                    let res = Err(ParsingError::UnknownId(rows[k].clone()));
                    proof {
                        lemma_journey_fault_stays(all, k + 1, all.len() as int, journeys, pk@, PlatformFault::UnknownPlatform(k as int));
                    }
                    assert(platforms_loaded(parser, rows@, journeys, res));
                    return res;
                },
            };
            let t: Option<Time> = match time {
                None => None,
                Some(x) => match create_time_from_value(#[verifier::truncate] (x as u32)) {
                    Ok(t) => Some(t),
                    Err(e) => {
                        let res = Err(e);
                        proof {
                            lemma_journey_fault_stays(all, k + 1, all.len() as int, journeys, pk@, PlatformFault::Time(k as int));
                        }
                        assert(platforms_loaded(parser, rows@, journeys, res));
                        return res;
                    },
                },
            };
            let jp = JourneyPlatform::new(journey, administration, platform_id, t, bit_field_id);
            fx_map_insert(&mut jps, (journey, platform_id), jp);
        }
        proof {
            let m2 = journey_platforms_after(all, k + 1, journeys, pk@)->Ok_0;
            assert(jps@.dom() =~= m2.dom());
        }
        k = k + 1;
    }
    let res = Ok((ResourceStorage::new(jps), platforms, pk, offset));
    assert(platforms_loaded(parser, rows@, journeys, res));
    res
}

/// The three kinds of GLEIS_LV95 rows, told by byte 18: 1 `G` (the
/// platform rows again), 2 `I A` (the SLOID rows: stop, bytes 1-7; number,
/// 10-16; SLOID, from byte 22 on), 3 `K` (the coordinates: stop, number and
/// two numbers at bytes 20-26 and 28-34, kept as text).
pub open spec fn sloid_layout(defs: Seq<RowDefinition>) -> bool {
    let b = defs[1].columns();
    let c = defs[2].columns();
    &&& defs.len() == 3
    &&& defs[0].spec_id() == 1 && bytes_matcher(defs[0], 18, 1, "G"@, true)
    &&& defs[0].columns().len() == 0
    &&& defs[1].spec_id() == 2 && bytes_matcher(defs[1], 18, 3, "I A"@, true)
    &&& b.len() == 3
    &&& column_is(b[0], 1, 7, ExpectedType::Integer32)
    &&& column_is(b[1], 10, 16, ExpectedType::Integer32)
    &&& column_is(b[2], 22, -1, ExpectedType::String)
    &&& defs[2].spec_id() == 3 && bytes_matcher(defs[2], 18, 1, "K"@, true)
    &&& c.len() == 4
    &&& column_is(c[0], 1, 7, ExpectedType::Integer32)
    &&& column_is(c[1], 10, 16, ExpectedType::Integer32)
    &&& column_is(c[2], 20, 26, ExpectedType::Float)
    &&& column_is(c[3], 28, 34, ExpectedType::Float)
}

/// The parser of GLEIS_LV95 rows.
pub fn sloid_row_parser() -> (res: RowParser)
    ensures
        sloid_layout(res.definitions()),
{
    RowParser::new(
        vec![
            RowDefinition::new(1, RowMatcher::new(18, 1, "G", true), Vec::new()),
            RowDefinition::new(
                2,
                RowMatcher::new(18, 3, "I A", true),
                vec![
                    ColumnDefinition::new(1, 7, ExpectedType::Integer32),
                    ColumnDefinition::new(10, 16, ExpectedType::Integer32),
                    ColumnDefinition::new(22, -1, ExpectedType::String),
                ],
            ),
            RowDefinition::new(
                3,
                RowMatcher::new(18, 1, "K", true),
                vec![
                    ColumnDefinition::new(1, 7, ExpectedType::Integer32),
                    ColumnDefinition::new(10, 16, ExpectedType::Integer32),
                    ColumnDefinition::new(20, 26, ExpectedType::Float),
                    ColumnDefinition::new(28, 34, ExpectedType::Float),
                ],
            ),
        ],
    )
}

/// The (stop, number) of the `i`-th row read.
pub open spec fn place_at(out: Seq<(i32, Vec<ParsedValue>)>, i: int) -> (i32, i32) {
    (int_at(out[i].1@, 0), int_at(out[i].1@, 1))
}

/// The `i`-th row read is no SLOID row, or names a known platform.
pub open spec fn sloid_row_ok(
    before: Map<i32, Platform>,
    pk: Map<(i32, i32), i32>,
    out: Seq<(i32, Vec<ParsedValue>)>,
    i: int,
) -> bool {
    out[i].0 != 2 || (pk.contains_key(place_at(out, i)) && before.contains_key(pk[place_at(out, i)]))
}

/// Among the first `n` rows read, the SLOID of the last SLOID row for the
/// platform with id `q`.
pub open spec fn last_sloid(out: Seq<(i32, Vec<ParsedValue>)>, n: int, pk: Map<(i32, i32), i32>, q: i32) -> Option<
    Seq<char>,
>
    decreases n,
{
    if n <= 0 {
        None
    } else if out[n - 1].0 == 2 && pk.contains_key(place_at(out, n - 1)) && pk[place_at(out, n - 1)] == q {
        Some(text_at(out[n - 1].1@, 2))
    } else {
        last_sloid(out, n - 1, pk, q)
    }
}

/// The platforms after the first `n` rows read: each has the SLOID of the
/// last SLOID row that names it, if any.
pub open spec fn sloids_set(
    before: Map<i32, Platform>,
    pk: Map<(i32, i32), i32>,
    out: Seq<(i32, Vec<ParsedValue>)>,
    n: int,
    view: Map<i32, Platform>,
) -> bool {
    &&& view.dom() == before.dom()
    &&& forall|q: i32| #[trigger]
        view.contains_key(q) ==> view[q]@ == (if last_sloid(out, n, pk, q) is Some {
            PlatformView { sloid: last_sloid(out, n, pk, q)->0, ..before[q]@ }
        } else {
            before[q]@
        })
}

/// What applying GLEIS_LV95 to the platforms gives: a syntax error with the
/// first row that the parser cannot read; an unknown id error with the first
/// SLOID row whose (stop, number) names no platform; else the platforms with
/// their SLOIDs.
pub open spec fn sloids_loaded(
    p: RowParser,
    before: Map<i32, Platform>,
    pk: Map<(i32, i32), i32>,
    rows: Seq<String>,
    res: PResult<ResourceStorage<Platform>>,
) -> bool {
    if forall|i: int| 0 <= i < rows.len() ==> row_readable(p, #[trigger] rows[i]) {
        exists|out: Seq<(i32, Vec<ParsedValue>)>|
            #[trigger] rows_read(p, rows, out) && if forall|i: int|
                0 <= i < out.len() ==> #[trigger] sloid_row_ok(before, pk, out, i) {
                (res matches Ok(storage) && sloids_set(before, pk, out, out.len() as int, storage@))
            } else {
                exists|i: int|
                    #![trigger sloid_row_ok(before, pk, out, i)]
                    0 <= i < out.len() && !sloid_row_ok(before, pk, out, i) && (forall|j: int|
                        0 <= j < i ==> #[trigger] sloid_row_ok(before, pk, out, j)) && res == Err::<
                        ResourceStorage<Platform>,
                        ParsingError,
                    >(ParsingError::UnknownId(rows[i]))
            }
    } else {
        exists|i: int|
            0 <= i < rows.len() && !row_readable(p, rows[i]) && (forall|j: int|
                0 <= j < i ==> row_readable(p, #[trigger] rows[j])) && res == Err::<
                ResourceStorage<Platform>,
                ParsingError,
            >(ParsingError::Syntax(rows[i]))
    }
}

proof fn lemma_sloid_row(p: RowParser, row: String, x: (i32, Vec<ParsedValue>))
    requires
        sloid_layout(p.definitions()),
        row_readable(p, row),
        row_values(p, row, x),
    ensures
        x.0 == 2 ==> x.1@.len() == 3 && x.1@[0]@ is Integer32 && x.1@[1]@ is Integer32 && x.1@[2]@ is String,
{
    reveal(row_readable);
    reveal(row_values);
    let b = encode_utf8(row@);
    crate::parsing::lemma_matching_kind_in_range(p.definitions(), b, 0);
    let v = x.1@;
    let kind = p.kind_of(b)->0;
    let d = p.definitions()[kind];
    assert(x.0 == d.spec_id());
    assert(values_view(v) == crate::parsing::row_read(p, b).1);
    assert(values_view(v).len() == v.len());
    assert(crate::parsing::row_read(p, b).1.len() == d.columns().len());
    assert forall|k: int| 0 <= k < v.len() implies #[trigger] v[k]@ == d.columns()[k].value_in(b) by {
        assert(v[k]@ == values_view(v)[k]);
    }
}

/// Sets the SLOIDs of the platforms from the rows of GLEIS_LV95 (from where
/// its own part starts, see `parse_platform_rows`); `platforms_pk` gives the
/// platforms by (stop, number).
#[verifier::rlimit(80)]
pub fn apply_platform_sloid_rows(
    platforms: ResourceStorage<Platform>,
    rows: &Vec<String>,
    platforms_pk: &FxHashMap<(i32, i32), i32>,
) -> (res: PResult<ResourceStorage<Platform>>)
    ensures
        exists|p: RowParser|
            sloid_layout(p.definitions()) && sloids_loaded(p, platforms@, platforms_pk@, rows@, res),
{
    let ghost before = platforms@;
    let ghost pk = platforms_pk@;
    let parser = sloid_row_parser();
    let out = match read_rows(&parser, rows) {
        Err(e) => {
            assert(sloids_loaded(parser, before, pk, rows@, Err(e)));
            return Err(e);
        },
        Ok(out) => out,
    };
    let ghost all = out@;
    assert forall|i: int| 0 <= i < rows@.len() implies row_readable(parser, #[trigger] rows@[i]) by {}
    let mut data = platforms.into_data();
    let mut k: usize = 0;
    while k < out.len()
        invariant
            0 <= k <= out@.len(),
            out@ == all,
            out@.len() == rows@.len(),
            before == platforms@,
            pk == platforms_pk@,
            sloid_layout(parser.definitions()),
            rows_read(parser, rows@, all),
            forall|i: int| 0 <= i < k ==> #[trigger] sloid_row_ok(before, pk, all, i),
            sloids_set(before, pk, all, k as int, data@),
        decreases out@.len() - k,
    {
        proof {
            assert(row_readable(parser, rows@[k as int]));
            lemma_sloid_row(parser, rows@[k as int], all[k as int]);
        }
        if out[k].0 == 2 {
            let stop = int_of(&out[k].1[0]);
            let number = int_of(&out[k].1[1]);
            let sloid = text_of(&out[k].1[2]);
            assert(place_at(all, k as int) == (stop, number));
            let id = match fx_map_get(platforms_pk, (stop, number)) {
                Some(id) => *id,
                None => {
                    let res = Err(ParsingError::UnknownId(rows[k].clone()));
                    assert(!sloid_row_ok(before, pk, all, k as int));
                    assert(sloids_loaded(parser, before, pk, rows@, res));
                    return res;
                },
            };
            match fx_map_remove(&mut data, id) {
                None => {
                    let res = Err(ParsingError::UnknownId(rows[k].clone()));
                    assert(!sloid_row_ok(before, pk, all, k as int));
                    assert(sloids_loaded(parser, before, pk, rows@, res));
                    return res;
                },
                Some(mut platform) => {
                    platform.set_sloid(sloid);
                    fx_map_insert(&mut data, id, platform);
                },
            }
        }
        proof {
            assert(sloid_row_ok(before, pk, all, k as int));
            assert(data@.dom() =~= before.dom());
        }
        k = k + 1;
    }
    let res = Ok(ResourceStorage::new(data));
    assert(sloids_loaded(parser, before, pk, rows@, res));
    res
}

} // verus!
