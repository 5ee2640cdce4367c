//! The METABHF file: the walks between stops.
//!
//! Rows of three kinds follow each other:
//! - A (matching `[0-9]{7} [0-9]{7} [0-9]{3}`): a connection from the stop
//!   of bytes 1-7 to the stop of bytes 9-15, taking the minutes of bytes
//!   17-19; it gets the next id (1, 2, ...);
//! - B (`*A` at bytes 1-2): the attribute (its designation at bytes 4-5) of
//!   the last connection;
//! - C (`:` at byte 8): nothing to take from it.
//!
//! A row of a kind other than A before the first A row is an error.
use crate::attribute_parser::{column_is, text_value};
use crate::error::{PResult, ParsingError};
use crate::fxmap::{designation_map_contents, designation_map_get, fx_map_insert, fx_map_new};
use crate::journey_parser::{int16_of, int_of, text_of};
use crate::models::StopConnection;
use crate::parsing::{
    read_rows,
    row_read,
    row_readable,
    row_values,
    values_view,
    ColumnDefinition,
    ExpectedType,
    ParsedValue,
    ParsedView,
    RowDefinition,
    RowMatcher,
    RowParser,
};
use crate::storage::ResourceStorage;
use rustc_hash::FxHashMap;
use vstd::prelude::*;
use vstd::utf8::encode_utf8;

verus! {

/// What a connection holds: the two stops, the minutes and the attribute
/// (0 for none).
pub type ConnectionRecord = (i32, i32, i16, i32);

/// Why the rows cannot be taken in.
pub enum ConnectionFault {
    /// A row of another kind before the first A row.
    MissingTypeA,
    /// An attribute designation that no attribute has.
    UnknownAttribute(Seq<char>),
}

/// The 32-bit number of a value.
pub open spec fn i32_value(v: ParsedView) -> i32 {
    match v {
        ParsedView::Integer32(x) => x,
        _ => 0,
    }
}

/// The 16-bit number of a value.
pub open spec fn i16_of_view(v: ParsedView) -> i16 {
    match v {
        ParsedView::Integer16(x) => x,
        _ => 0,
    }
}

/// What one row does to the connections; `attributes` gives attributes by
/// designation.
pub open spec fn connection_step(
    st: Seq<ConnectionRecord>,
    row: (i32, Seq<ParsedView>),
    attributes: Map<Seq<char>, i32>,
) -> Result<Seq<ConnectionRecord>, ConnectionFault> {
    let v = row.1;
    if row.0 == 1 {
        Ok(st.push((i32_value(v[0]), i32_value(v[1]), i16_of_view(v[2]), 0)))
    } else if st.len() == 0 {
        Err(ConnectionFault::MissingTypeA)
    } else if row.0 == 2 {
        let d = text_value(v[0]);
        if attributes.contains_key(d) {
            let r = st.last();
            Ok(st.update(st.len() - 1, (r.0, r.1, r.2, attributes[d])))
        } else {
            Err(ConnectionFault::UnknownAttribute(d))
        }
    } else {
        Ok(st)
    }
}

/// The connections after the rows, or the fault of the first row that
/// cannot be taken in.
pub open spec fn connections_after(rows: Seq<(i32, Seq<ParsedView>)>, attributes: Map<Seq<char>, i32>) -> Result<
    Seq<ConnectionRecord>,
    ConnectionFault,
>
    decreases rows.len(),
{
    if rows.len() == 0 {
        Ok(Seq::empty())
    } else {
        match connections_after(rows.drop_last(), attributes) {
            Ok(st) => connection_step(st, rows.last(), attributes),
            Err(f) => Err(f),
        }
    }
}

/// The connection holds the record and has id `id`.
pub open spec fn connection_holds(c: StopConnection, id: int, r: ConnectionRecord) -> bool {
    &&& c.spec_id() == id
    &&& c.spec_stop_id_1() == r.0
    &&& c.spec_stop_id_2() == r.1
    &&& c.spec_duration() == r.2
    &&& c.spec_attribute() == r.3
}

/// The error is the fault.
pub open spec fn connection_fault_is(e: ParsingError, f: ConnectionFault) -> bool {
    match f {
        ConnectionFault::MissingTypeA => e matches ParsingError::Unknown(s) && s@ == "Type A row missing."@,
        ConnectionFault::UnknownAttribute(d) => e matches ParsingError::UnknownId(s) && s@ == d,
    }
}

/// The kinds of rows and the values they carry.
pub open spec fn connection_row_shape(row: (i32, Seq<ParsedView>)) -> bool {
    let v = row.1;
    ||| row.0 == 1 && v.len() == 3 && v[0] is Integer32 && v[1] is Integer32 && v[2] is Integer16
    ||| row.0 == 2 && v.len() == 1 && v[0] is String
    ||| row.0 == 3
}

/// The parser knows the three kinds of METABHF rows (see the module's
/// documentation), in that order.
pub open spec fn connection_parser_shape(p: RowParser) -> bool {
    let d = p.definitions();
    &&& d.len() == 3
    &&& d[0].spec_id() == 1
    &&& d[0].spec_row_matcher() matches Some(m) && m.pattern_text() == Some("[0-9]{7} [0-9]{7} [0-9]{3}"@)
    &&& d[0].columns().len() == 3
    &&& column_is(d[0].columns()[0], 1, 7, ExpectedType::Integer32)
    &&& column_is(d[0].columns()[1], 9, 15, ExpectedType::Integer32)
    &&& column_is(d[0].columns()[2], 17, 19, ExpectedType::Integer16)
    &&& d[1].spec_id() == 2
    &&& d[1].spec_row_matcher() matches Some(m) && m.pattern_text() is None && m.spec_start() == 1
        && m.spec_length() == 2 && m.value_text() == "*A"@ && m.spec_should_equal_value()
    &&& d[1].columns().len() == 1
    &&& column_is(d[1].columns()[0], 4, 5, ExpectedType::String)
    &&& d[2].spec_id() == 3
    &&& d[2].spec_row_matcher() matches Some(m) && m.pattern_text() is None && m.spec_start() == 8
        && m.spec_length() == 1 && m.value_text() == ":"@ && m.spec_should_equal_value()
    &&& d[2].columns().len() == 0
}

/// The parser of METABHF rows.
pub fn connection_row_parser() -> (res: RowParser)
    ensures
        connection_parser_shape(res),
{
    RowParser::new(
        vec![
            RowDefinition::new(
                1,
                RowMatcher::from_pattern("[0-9]{7} [0-9]{7} [0-9]{3}"),
                vec![
                    ColumnDefinition::new(1, 7, ExpectedType::Integer32),
                    ColumnDefinition::new(9, 15, ExpectedType::Integer32),
                    ColumnDefinition::new(17, 19, ExpectedType::Integer16),
                ],
            ),
            RowDefinition::new(
                2,
                RowMatcher::new(1, 2, "*A", true),
                vec![ColumnDefinition::new(4, 5, ExpectedType::String)],
            ),
            RowDefinition::new(3, RowMatcher::new(8, 1, ":", true), Vec::new()),
        ],
    )
}

/// The kind and values that the parser reads from each row.
pub open spec fn connection_rows_views(p: RowParser, rows: Seq<String>) -> Seq<(i32, Seq<ParsedView>)> {
    Seq::new(rows.len(), |i: int| row_read(p, encode_utf8(rows[i]@)))
}

/// What loading METABHF with the parser gives: a syntax error with the first
/// row that the parser cannot read; else the connections that the rows make
/// under the ids 1, 2, ..., or the fault of the first row that cannot be
/// taken in.
pub open spec fn connections_loaded(
    p: RowParser,
    rows: Seq<String>,
    attributes: Map<Seq<char>, i32>,
    res: PResult<ResourceStorage<StopConnection>>,
) -> bool {
    if forall|i: int| 0 <= i < rows.len() ==> row_readable(p, #[trigger] rows[i]) {
        match connections_after(connection_rows_views(p, rows), attributes) {
            Ok(st) => res matches Ok(storage) && (forall|k: i32| #[trigger]
                storage@.contains_key(k) <==> 1 <= k <= st.len()) && (forall|k: i32| #[trigger]
                storage@.contains_key(k) ==> connection_holds(storage@[k], k as int, st[k - 1])),
            Err(f) => res matches Err(e) && connection_fault_is(e, f),
        }
    } else {
        exists|i: int|
            0 <= i < rows.len() && !row_readable(p, rows[i]) && (forall|j: int|
                0 <= j < i ==> row_readable(p, #[trigger] rows[j])) && res == Err::<
                ResourceStorage<StopConnection>,
                ParsingError,
            >(ParsingError::Syntax(rows[i]))
    }
}

proof fn lemma_connection_row(p: RowParser, row: String, x: (i32, Vec<ParsedValue>))
    requires
        connection_parser_shape(p),
        row_readable(p, row),
        row_values(p, row, x),
    ensures
        connection_row_shape((x.0, values_view(x.1@))),
        (x.0, values_view(x.1@)) == row_read(p, encode_utf8(row@)),
{
    reveal(row_readable);
    reveal(row_values);
    let b = encode_utf8(row@);
    crate::parsing::lemma_matching_kind_in_range(p.definitions(), b, 0);
    let r = row_read(p, b);
    assert(values_view(x.1@) =~= r.1);
}

proof fn lemma_connection_step(rows: Seq<(i32, Seq<ParsedView>)>, a: Map<Seq<char>, i32>, k: int)
    requires
        0 <= k < rows.len(),
    ensures
        connections_after(rows.take(k + 1), a) == (match connections_after(rows.take(k), a) {
            Ok(st) => connection_step(st, rows[k], a),
            Err(f) => Err(f),
        }),
{
    assert(rows.take(k + 1).drop_last() =~= rows.take(k));
}

proof fn lemma_connection_fault_stays(
    rows: Seq<(i32, Seq<ParsedView>)>,
    a: Map<Seq<char>, i32>,
    k: int,
    f: ConnectionFault,
)
    requires
        0 <= k <= rows.len(),
        connections_after(rows.take(k), a) == Err::<Seq<ConnectionRecord>, ConnectionFault>(f),
    ensures
        connections_after(rows, a) == Err::<Seq<ConnectionRecord>, ConnectionFault>(f),
    decreases rows.len() - k,
{
    if k == rows.len() {
        assert(rows.take(k) =~= rows);
    } else {
        lemma_connection_step(rows, a, k);
        lemma_connection_fault_stays(rows, a, k + 1, f);
    }
}

/// Loads METABHF from its rows; `attributes_pk` gives the attributes by
/// designation.
#[verifier::rlimit(50)]
pub fn parse_stop_connection_rows(rows: &Vec<String>, attributes_pk: &FxHashMap<String, i32>) -> (res:
    PResult<ResourceStorage<StopConnection>>)
    requires
        rows@.len() < i32::MAX,
    ensures
        exists|p: RowParser|
            connection_parser_shape(p) && connections_loaded(
                p,
                rows@,
                designation_map_contents(*attributes_pk),
                res,
            ),
{
    let ghost a = designation_map_contents(*attributes_pk);
    let parser = connection_row_parser();
    let out = match read_rows(&parser, rows) {
        Err(e) => {
            assert(connections_loaded(parser, rows@, a, Err(e)));
            return Err(e);
        },
        Ok(out) => out,
    };
    let ghost views = connection_rows_views(parser, rows@);
    assert forall|i: int| 0 <= i < rows@.len() implies row_readable(parser, #[trigger] rows@[i]) by {}
    let mut conns: Vec<StopConnection> = Vec::new();
    let mut k: usize = 0;
    assert(views.take(0) =~= Seq::<(i32, Seq<ParsedView>)>::empty());
    while k < out.len()
        invariant
            0 <= k <= out@.len(),
            out@.len() == rows@.len(),
            rows@.len() < i32::MAX,
            conns@.len() <= k,
            connection_parser_shape(parser),
            crate::parsing::rows_read(parser, rows@, out@),
            views == connection_rows_views(parser, rows@),
            a == designation_map_contents(*attributes_pk),
            connections_after(views.take(k as int), a) matches Ok(st) && st.len() == conns@.len()
                && forall|i: int|
                0 <= i < conns@.len() ==> connection_holds(#[trigger] conns@[i], i + 1, st[i]),
        decreases out@.len() - k,
    {
        let ghost st = connections_after(views.take(k as int), a)->Ok_0;
        proof {
            assert(row_readable(parser, rows@[k as int]));
            lemma_connection_row(parser, rows@[k as int], out@[k as int]);
            lemma_connection_step(views, a, k as int);
        }
        let kind = out[k].0;
        let values = &out[k].1;
        assert(views[k as int] == (kind, values_view(values@)));
        assert forall|j: int| 0 <= j < values@.len() implies #[trigger] views[k as int].1[j]
            == values@[j]@ by {}
        if kind == 1 {
            let c = StopConnection::new((conns.len() + 1) as i32, int_of(&values[0]), int_of(&values[1]), int16_of(&values[2]));
            let ghost before = conns@;
            conns.push(c);
            proof {
                let st2 = connections_after(views.take(k + 1), a)->Ok_0;
                assert forall|i: int| 0 <= i < conns@.len() implies connection_holds(
                    #[trigger] conns@[i],
                    i + 1,
                    st2[i],
                ) by {
                    if i < before.len() {
                        assert(conns@[i] == before[i]);
                    }
                }
            }
        } else if conns.len() == 0 {
            proof {
                lemma_connection_fault_stays(views, a, k + 1, ConnectionFault::MissingTypeA);
            }
            return Err(ParsingError::Unknown("Type A row missing.".to_owned()));
        } else if kind == 2 {
            let designation = text_of(&values[0]);
            match designation_map_get(attributes_pk, &designation) {
                None => {
                    proof {
                        lemma_connection_fault_stays(
                            views,
                            a,
                            k + 1,
                            ConnectionFault::UnknownAttribute(designation@),
                        );
                    }
                    return Err(ParsingError::UnknownId(designation));
                },
                Some(id) => {
                    let last = conns.len() - 1;
                    let ghost before = conns@;
                    conns[last].set_attribute(id);
                    proof {
                        let st2 = connections_after(views.take(k + 1), a)->Ok_0;
                        assert forall|i: int| 0 <= i < conns@.len() implies connection_holds(
                            #[trigger] conns@[i],
                            i + 1,
                            st2[i],
                        ) by {
                            if i != last {
                                assert(conns@[i] == before[i]);
                            }
                        }
                    }
                },
            }
        }
        k = k + 1;
    }
    assert(views.take(out@.len() as int) =~= views);
    let ghost st = connections_after(views, a)->Ok_0;
    let mut data: FxHashMap<i32, StopConnection> = fx_map_new();
    let ghost all = conns@;
    while conns.len() > 0
        invariant
            all.len() == st.len(),
            conns@.len() <= all.len(),
            conns@ == all.take(conns@.len() as int),
            forall|i: int| 0 <= i < all.len() ==> connection_holds(#[trigger] all[i], i + 1, st[i]),
            forall|q: i32| #[trigger] data@.contains_key(q) <==> conns@.len() < q <= all.len(),
            forall|q: i32| #[trigger] data@.contains_key(q) ==> data@[q] == all[q - 1],
            all.len() < i32::MAX,
        decreases conns@.len(),
    {
        let ghost n = conns@.len();
        let c = conns.pop().unwrap();
        proof {
            assert(all.take(n - 1) =~= all.take(n as int).drop_last());
            assert(c == all[n - 1]);
        }
        let id = c.id();
        fx_map_insert(&mut data, id, c);
    }
    let res = ResourceStorage::new(data);
    assert(connections_loaded(parser, rows@, a, Ok(res)));
    Ok(res)
}

/// The connections read from METABHF are each stored under their own id (so
/// that the storage built from them resolves its index by stop, see
/// `DataStorage::new`).
pub proof fn lemma_loaded_connections_are_under_their_ids(
    p: RowParser,
    rows: Seq<String>,
    attributes: Map<Seq<char>, i32>,
    storage: ResourceStorage<StopConnection>,
)
    requires
        connections_loaded(p, rows, attributes, Ok(storage)),
    ensures
        crate::storage::connection_keys_are_ids(storage@),
{
    if forall|i: int| 0 <= i < rows.len() ==> row_readable(p, #[trigger] rows[i]) {
        match connections_after(connection_rows_views(p, rows), attributes) {
            Ok(st) => {
                let r = Ok::<ResourceStorage<StopConnection>, ParsingError>(storage);
                assert(r matches Ok(s2) && (forall|k: i32| #[trigger]
                    s2@.contains_key(k) <==> 1 <= k <= st.len()) && (forall|k: i32| #[trigger]
                    s2@.contains_key(k) ==> connection_holds(s2@[k], k as int, st[k - 1])));
                assert(r->Ok_0 == storage);
                assert(forall|k: i32| #[trigger]
                    storage@.contains_key(k) ==> connection_holds(storage@[k], k as int, st[k - 1]));
                assert forall|k: i32| #[trigger] storage@.contains_key(k) implies storage@[k].spec_id() == k by {
                    assert(connection_holds(storage@[k], k as int, st[k - 1]));
                }
            },
            Err(f) => {},
        }
    } else {
        let i = choose|i: int|
            0 <= i < rows.len() && !row_readable(p, rows[i]) && (forall|j: int|
                0 <= j < i ==> row_readable(p, #[trigger] rows[j])) && Ok::<
                ResourceStorage<StopConnection>,
                ParsingError,
            >(storage) == Err::<ResourceStorage<StopConnection>, ParsingError>(
                ParsingError::Syntax(rows[i]),
            );
    }
}

/// A storage whose journeys are those that FPLAN's rows give and whose
/// stop connections are those that METABHF's rows give, with its indexes
/// built (as `DataStorage::new` builds them), finds every id of its
/// indexes: each journey id listed at (stop, bit field) is a journey that
/// passes the stop with that bit field, and each connection id listed at a
/// stop is a connection starting there.
pub proof fn lemma_storage_from_files_resolves(
    v: crate::storage::DataStorageView,
    fplan_rows: Seq<(i32, Vec<ParsedValue>)>,
    tt: Map<Seq<char>, i32>,
    at: Map<Seq<char>, i32>,
    dt: Map<Seq<char>, i32>,
    pk: Map<(i32, Seq<char>), i32>,
    p: RowParser,
    metabhf_rows: Seq<String>,
    attributes: Map<Seq<char>, i32>,
    connections: ResourceStorage<StopConnection>,
)
    requires
        crate::storage::indexes_built(v),
        crate::journey_parser::fplan_parsed(fplan_rows, tt, at, dt, v.journeys, pk),
        connections_loaded(p, metabhf_rows, attributes, Ok(connections)),
        v.stop_connections == connections@,
    ensures
        crate::storage::index_resolves(v),
        forall|q: (i32, i32)|
            #[trigger] crate::storage::index_pairs(v.stop_connections_by_stop_id).contains(q)
                ==> v.stop_connections.contains_key(q.1) && v.stop_connections[q.1].spec_stop_id_1() == q.0,
{
    crate::journey_parser::lemma_fplan_journeys_are_under_their_ids(fplan_rows, tt, at, dt, v.journeys, pk);
    lemma_loaded_connections_are_under_their_ids(p, metabhf_rows, attributes, connections);
    crate::storage::lemma_built_indexes_resolve(v);
}

} // verus!
