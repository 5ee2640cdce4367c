//! One step of the search for routes: the connections that continue a
//! route, the walks to nearby stops, and which stops are worth exploring
//! from.
use crate::calendar::{in_calendar_range, Date, DateTime};
use crate::error::{HResult, HrdfError};
use crate::fxmap::fx_map_get;
use crate::journey::Journey;
use crate::models::StopConnection;
use crate::routing::{
    all_have_sections, arrival_sorted, arrives_before, has_journey, section_resolves, candidate, clone_update_route, departures_fail, departures_ok,
    extend_outcome, get_routes_to_ignore, insert_index, lemma_extension_shape, lemma_insert_index_unique,
    next_departures, sorted_by_arrival, sorted_insert, sort_routes, starts_at, taken_route_hashes, Route,
    RouteSection,
};
use crate::solutions::{
    can_continue_exploration, changed_start_at, continue_outcome, lemma_continue_outcome,
    lemma_no_worse_transitive, no_worse, route_resolves, solutions_fit, solutions_resolve,
    RoutingAlgorithmArgs,
};
use rustc_hash::FxHashMap;
use crate::storage::{resolved, resource_of, DataStorage, DataStorageView};
use std::collections::{HashMap, HashSet};
use vstd::prelude::*;

verus! {

broadcast use vstd::std_specs::hash::group_hash_axioms;

/// The stop connections that start at `stop_id`, by the storage's index;
/// `None` where the index has no entry for the stop or names a connection
/// that the storage does not hold.
pub fn get_stop_connections<'a>(data_storage: &'a DataStorage, stop_id: i32) -> (res: Option<
    Vec<&'a StopConnection>,
>)
    ensures
        ({
            let v = data_storage@;
            match res {
                Some(cs) => v.stop_connections_by_stop_id.contains_key(stop_id) && resolved(
                    v.stop_connections,
                    v.stop_connections_by_stop_id[stop_id]@,
                    cs@,
                ) && v.stop_connections_by_stop_id[stop_id]@.subset_of(v.stop_connections.dom()),
                None => !v.stop_connections_by_stop_id.contains_key(stop_id)
                    || !v.stop_connections_by_stop_id[stop_id]@.subset_of(v.stop_connections.dom()),
            }
        }),
{
    match fx_map_get(data_storage.stop_connections_by_stop_id(), stop_id) {
        Some(ids) => data_storage.stop_connections().resolve_ids(ids),
        None => None,
    }
}

/// The routes that continue `a` on the departures `deps`, in their order:
/// departures on a journey in `skip` are passed over, and so are those on
/// which `Route::extend` finds no continuation.
pub open spec fn connections_from(
    v: DataStorageView,
    a: Route,
    deps: Seq<(&Journey, DateTime)>,
    skip: Set<i32>,
    out: Seq<Route>,
) -> bool
    decreases deps.len(),
{
    if deps.len() == 0 {
        out.len() == 0
    } else {
        let j = *deps.last().0;
        let dt = deps.last().1;
        let rest = deps.drop_last();
        if skip.contains(j.spec_id()) {
            connections_from(v, a, rest, skip, out)
        } else {
            ||| (out.len() > 0 && extend_outcome(
                v,
                a,
                j.spec_id(),
                dt.date_part(),
                true,
                Ok::<Option<Route>, HrdfError>(Some(out.last())),
            ) && connections_from(v, a, rest, skip, out.drop_last()))
            ||| (extend_outcome(v, a, j.spec_id(), dt.date_part(), true, Ok::<Option<Route>, HrdfError>(None))
                && connections_from(v, a, rest, skip, out))
        }
    }
}

/// `out` are the routes that continue `route` from its arrival stop on the
/// next departures there (see `get_connections`).
pub open spec fn connections_ok(v: DataStorageView, route: Route, skip: Set<i32>, out: Seq<Route>) -> bool {
    let stop = route.sections().last().spec_arrival_stop_id();
    let dep = route.arrival();
    exists|deps: Seq<(&Journey, DateTime)>|
        #![trigger departures_ok(v, stop, dep, taken_route_hashes(v, route), deps)]
        departures_ok(v, stop, dep, taken_route_hashes(v, route), deps) && connections_from(
            v,
            route,
            deps,
            skip,
            out,
        )
}

/// The errors of `get_connections`: the next departures cannot be listed,
/// or the route cannot be continued on one of them.
pub open spec fn connections_fail(v: DataStorageView, route: Route, skip: Set<i32>, e: HrdfError) -> bool {
    let stop = route.sections().last().spec_arrival_stop_id();
    let dep = route.arrival();
    departures_fail(v, stop, dep, e) || exists|j: Journey, dt: DateTime|
        #![trigger candidate(v, stop, dep, j, dt)]
        candidate(v, stop, dep, j, dt) && !skip.contains(j.spec_id()) && extend_outcome(
            v,
            route,
            j.spec_id(),
            dt.date_part(),
            true,
            Err::<Option<Route>, HrdfError>(e),
        )
}

/// The routes that continue `route` from its arrival stop: for each of the
/// next departures there (see `next_departures`, leaving out the routes that
/// `route` has taken already), the route extended on that journey, boarded
/// on the day of the departure; journeys in `journeys_to_ignore` are passed
/// over.
pub fn get_connections(data_storage: &DataStorage, route: &Route, journeys_to_ignore: &HashSet<i32>) -> (res:
    HResult<Vec<Route>>)
    requires
        route.sections().len() > 0,
        route.arrival().wf(),
    ensures
        match res {
            Ok(out) => connections_ok(data_storage@, *route, journeys_to_ignore@, out@),
            Err(e) => connections_fail(data_storage@, *route, journeys_to_ignore@, e),
        },
{
    let ghost v = data_storage@;
    let ghost stop = route.sections().last().spec_arrival_stop_id();
    let ghost dep = route.arrival();
    let hashes = get_routes_to_ignore(data_storage, route);
    let ghost h = hashes@;
    let deps = match next_departures(
        data_storage,
        route.arrival_stop_id(),
        route.arrival_at(),
        Some(hashes),
        route.last_route_section().journey_id(),
    ) {
        Ok(d) => d,
        Err(e) => {
            return Err(e);
        },
    };
    let ghost skip = journeys_to_ignore@;
    let mut out: Vec<Route> = Vec::new();
    let mut i: usize = 0;
    assert(deps@.take(0) =~= Seq::<(&Journey, DateTime)>::empty());
    while i < deps.len()
        invariant
            0 <= i <= deps@.len(),
            v == data_storage@,
            route.sections().len() > 0,
            stop == route.sections().last().spec_arrival_stop_id(),
            dep == route.arrival(),
            skip == journeys_to_ignore@,
            departures_ok(v, stop, dep, h, deps@),
            h == taken_route_hashes(v, *route),
            connections_from(v, *route, deps@.take(i as int), skip, out@),
        decreases deps@.len() - i,
    {
        let (j, dt) = deps[i];
        proof {
            assert(deps@.take(i + 1).drop_last() =~= deps@.take(i as int));
            assert(deps@.take(i + 1).last() == deps@[i as int]);
        }
        let id = j.id();
        if !journeys_to_ignore.contains(&id) {
            match route.extend(data_storage, id, dt.date(), true) {
                Ok(Some(r)) => {
                    let ghost before = out@;
                    out.push(r);
                    assert(out@.drop_last() =~= before);
                },
                Ok(None) => {},
                Err(e) => {
                    assert(candidate(v, stop, dep, *deps@[i as int].0, deps@[i as int].1));
                    return Err(e);
                },
            }
        }
        i = i + 1;
    }
    assert(deps@.take(deps@.len() as int) =~= deps@);
    Ok(out)
}

/// What `can_explore_connections` decides for `route`, with `e0` and `e1`
/// the earliest arrivals by stop before and after.
pub open spec fn exploring_allowed(
    v: DataStorageView,
    route: Route,
    e0: Map<i32, DateTime>,
    e1: Map<i32, DateTime>,
    res: bool,
) -> bool {
    let stop_id = route.sections().last().spec_arrival_stop_id();
    let at = route.arrival();
    &&& res == (v.stops.contains_key(stop_id) && v.stops[stop_id]@.exchange_flag != 0 && (
    !e0.contains_key(stop_id) || at.precedes(e0[stop_id])))
    &&& e1 == if res {
        e0.insert(stop_id, at)
    } else {
        e0
    }
}

/// Whether the search should go on from the arrival stop of `route`: the
/// stop is one of the storage's, passengers can change there, and the route
/// reaches it before any route explored so far (which then records it as the
/// earliest arrival there).
pub fn can_explore_connections(
    data_storage: &DataStorage,
    route: &Route,
    earliest_arrival_by_stop_id: &mut HashMap<i32, DateTime>,
) -> (res: bool)
    requires
        route.sections().len() > 0,
    ensures
        exploring_allowed(
            data_storage@,
            *route,
            old(earliest_arrival_by_stop_id)@,
            final(earliest_arrival_by_stop_id)@,
            res,
        ),
{
    let stop_id = route.arrival_stop_id();
    let stop = match data_storage.stops().find(stop_id) {
        Some(s) => s,
        None => {
            return false;
        },
    };
    if !stop.can_be_used_as_exchange_point() {
        return false;
    }
    let arrival_at = route.arrival_at();
    match earliest_arrival_by_stop_id.get(&stop_id) {
        Some(earliest) => {
            if arrival_at.is_before(earliest) {
                earliest_arrival_by_stop_id.insert(stop_id, arrival_at);
                true
            } else {
                false
            }
        },
        None => {
            earliest_arrival_by_stop_id.insert(stop_id, arrival_at);
            true
        },
    }
}

/// The routes of `routes` whose last section is on a journey not in
/// `ignore`, in order.
pub open spec fn routes_kept(routes: Seq<Route>, ignore: Set<i32>) -> Seq<Route>
    decreases routes.len(),
{
    if routes.len() == 0 {
        routes
    } else {
        let rest = routes_kept(routes.drop_last(), ignore);
        if ignore.contains(routes.last().sections().last().spec_journey_id()->0) {
            rest
        } else {
            rest.push(routes.last())
        }
    }
}

/// Every route has a last section, on a journey.
pub open spec fn all_end_on_journeys(routes: Seq<Route>) -> bool {
    forall|i: int|
        0 <= i < routes.len() ==> (#[trigger] routes[i]).sections().len() > 0
            && routes[i].sections().last().spec_journey_id() is Some
}

/// Drops the routes whose last section is on a journey in
/// `journeys_to_ignore`.
pub fn filter_new_routes(new_routes: Vec<Route>, journeys_to_ignore: &HashSet<i32>) -> (res: Vec<Route>)
    requires
        all_end_on_journeys(new_routes@),
    ensures
        res@ == routes_kept(new_routes@, journeys_to_ignore@),
{
    let ghost all = new_routes@;
    let mut res: Vec<Route> = Vec::new();
    let mut rest = new_routes;
    let mut i: usize = 0;
    let n = rest.len();
    assert(all.take(0) =~= Seq::<Route>::empty());
    while rest.len() > 0
        invariant
            n == all.len(),
            i + rest@.len() == n,
            rest@ == all.skip(i as int),
            all_end_on_journeys(all),
            res@ == routes_kept(all.take(i as int), journeys_to_ignore@),
        decreases rest@.len(),
    {
        let route = rest.remove(0);
        assert(all[i as int] == route);
        proof {
            assert(all.take(i + 1).drop_last() =~= all.take(i as int));
            assert(all.take(i + 1).last() == route);
            assert(rest@ =~= all.skip(i + 1));
        }
        let id = match route.last_route_section().journey_id() {
            Some(id) => id,
            None => {
                assert(false);
                0
            },
        };
        if !journeys_to_ignore.contains(&id) {
            res.push(route);
        }
        i = i + 1;
    }
    assert(all.take(n as int) =~= all);
    res
}

/// `r` is `route` followed by a walk along `sc`: a section without a
/// journey from its first stop to its second, arriving the connection's
/// duration after the route arrives; the second stop counts as passed.
pub open spec fn walked(route: Route, sc: StopConnection, r: Route) -> bool {
    let last = r.sections().last();
    &&& r.sections().len() == route.sections().len() + 1
    &&& r.sections().drop_last() == route.sections()
    &&& last.spec_journey_id() is None
    &&& last.spec_departure_stop_id() == sc.spec_stop_id_1()
    &&& last.spec_arrival_stop_id() == sc.spec_stop_id_2()
    &&& last.spec_arrival_at().wf()
    &&& last.spec_arrival_at().instant() == route.arrival().instant() + sc.spec_duration()
    &&& last.spec_duration() == Some(sc.spec_duration())
    &&& r.visited() == route.visited().insert(sc.spec_stop_id_2())
}

/// The connection leads to a stop of the storage that the route has not
/// passed.
pub open spec fn walk_allowed(v: DataStorageView, route: Route, sc: StopConnection) -> bool {
    v.stops.contains_key(sc.spec_stop_id_2()) && !route.visited().contains(sc.spec_stop_id_2())
}

/// `walks` are the walks from `route` along the allowed connections of
/// `cs`, in their order.
pub open spec fn walks_along(v: DataStorageView, route: Route, cs: Seq<&StopConnection>, walks: Seq<Route>) -> bool
    decreases cs.len(),
{
    if cs.len() == 0 {
        walks.len() == 0
    } else if walk_allowed(v, route, *cs.last()) {
        walks.len() > 0 && walked(route, *cs.last(), walks.last()) && walks_along(
            v,
            route,
            cs.drop_last(),
            walks.drop_last(),
        )
    } else {
        walks_along(v, route, cs.drop_last(), walks)
    }
}

/// The walk from `route` along `sc` is allowed, but it would arrive on a
/// day outside the calendar's range (see `DateTime::checked_add_signed_minutes`).
pub open spec fn walk_fails(v: DataStorageView, route: Route, sc: StopConnection) -> bool {
    let at = route.arrival();
    let d = sc.spec_duration() as int;
    &&& walk_allowed(v, route, sc)
    &&& !((d < 0 && -d <= at.time_part().minute_of_day()) || (in_calendar_range(
        at.date_part().day_number(),
    ) && in_calendar_range(at.shifted_day_number(d))))
}

/// `rs` with the routes of `added` put in one after the other, each at its
/// place (see `sorted_insert`).
pub open spec fn inserted_in_order(rs: Seq<Route>, added: Seq<Route>) -> Seq<Route>
    decreases added.len(),
{
    if added.len() == 0 {
        rs
    } else {
        let prev = inserted_in_order(rs, added.drop_last());
        prev.insert(choose|i: int| insert_index(prev, added.last(), i), added.last())
    }
}

/// What `explore_nearby_stops` does from `route`, with `rs0` and `rs1` the
/// routes to explore before and after.
pub open spec fn nearby_explored(
    v: DataStorageView,
    route: Route,
    rs0: Seq<Route>,
    rs1: Seq<Route>,
    res: HResult<()>,
) -> bool {
    let stop = route.sections().last().spec_arrival_stop_id();
    match res {
        Ok(()) => {
            ||| (route.sections().last().spec_journey_id() is None && rs1 == rs0)
            ||| ((!v.stop_connections_by_stop_id.contains_key(stop)
                || !v.stop_connections_by_stop_id[stop]@.subset_of(v.stop_connections.dom()))
                && rs1 == rs0)
            ||| (route.sections().last().spec_journey_id() is Some && exists|
                cs: Seq<&StopConnection>,
                walks: Seq<Route>,
            |
                #![trigger walks_along(v, route, cs, walks)]
                v.stop_connections_by_stop_id.contains_key(stop) && resolved(
                    v.stop_connections,
                    v.stop_connections_by_stop_id[stop]@,
                    cs,
                ) && walks_along(v, route, cs, walks) && rs1 == inserted_in_order(
                    rs0,
                    walks,
                ))
        },
        Err(e) => e == HrdfError::OutOfRangeDate(route.arrival().date_part()),
    }
}

/// Adds to `routes`, each at its place by arrival, the walks from the
/// arrival stop of `route` to the nearby stops (by the storage's stop
/// connections) that are stops of the storage and that the route has not
/// passed. Nothing is added after a walk (a last section without a journey)
/// or where the storage knows no connections from the stop. Fails where a
/// walk would arrive outside the calendar's range.
pub fn explore_nearby_stops(data_storage: &DataStorage, route: &Route, routes: &mut Vec<Route>) -> (res: HResult<()>)
    requires
        route.sections().len() > 0,
        route.arrival().wf(),
        all_have_sections(old(routes)@),
    ensures
        all_have_sections(final(routes)@),
        sorted_by_arrival(old(routes)@) ==> sorted_by_arrival(final(routes)@),
        nearby_explored(data_storage@, *route, old(routes)@, final(routes)@, res),
        ({
            let v = data_storage@;
            let stop = route.sections().last().spec_arrival_stop_id();
            let ids = v.stop_connections_by_stop_id[stop]@;
            &&& res is Err ==> route.sections().last().spec_journey_id() is Some && exists|k: i32|
                #![trigger v.stop_connections[k]]
                ids.contains(k) && v.stop_connections.contains_key(k) && walk_fails(v, *route, v.stop_connections[k])
            &&& (forall|k: i32|
                #![trigger v.stop_connections[k]]
                ids.contains(k) && v.stop_connections.contains_key(k) ==> !walk_fails(v, *route, v.stop_connections[k]))
                ==> res is Ok
        }),
{
    let ghost v = data_storage@;
    let ghost start = routes@;
    if route.last_route_section().journey_id().is_none() {
        return Ok(());
    }
    let stop = route.arrival_stop_id();
    let cs = match get_stop_connections(data_storage, stop) {
        Some(cs) => cs,
        None => {
            return Ok(());
        },
    };
    let ghost mut walks: Seq<Route> = Seq::empty();
    let mut i: usize = 0;
    assert(cs@.take(0) =~= Seq::<&StopConnection>::empty());
    while i < cs.len()
        invariant
            0 <= i <= cs@.len(),
            v == data_storage@,
            route.sections().len() > 0,
            route.arrival().wf(),
            walks_along(v, *route, cs@.take(i as int), walks),
            routes@ == inserted_in_order(start, walks),
            start == old(routes)@,
            all_have_sections(routes@),
            sorted_by_arrival(start) ==> sorted_by_arrival(routes@),
            route.sections().last().spec_journey_id() is Some,
            stop == route.sections().last().spec_arrival_stop_id(),
            v.stop_connections_by_stop_id.contains_key(stop),
            resolved(v.stop_connections, v.stop_connections_by_stop_id[stop]@, cs@),
            v.stop_connections_by_stop_id[stop]@.subset_of(v.stop_connections.dom()),
        decreases cs@.len() - i,
    {
        let sc = cs[i];
        proof {
            assert(cs@.take(i + 1).drop_last() =~= cs@.take(i as int));
            assert(cs@.take(i + 1).last() == cs@[i as int]);
        }
        let s2 = sc.stop_id_2();
        let known = match data_storage.stops().find(s2) {
            Some(_) => true,
            None => false,
        };
        if known && !crate::fxmap::fx_set_contains(route.visited_stops(), s2) {
            let d = sc.duration();
            let arrival = route.arrival_at();
            let at = match arrival.checked_add_signed_minutes(d as i64) {
                Some(t) => t,
                None => {
                    proof {
                        assert(walk_fails(v, *route, *sc));
                        assert(resource_of(v.stop_connections, v.stop_connections_by_stop_id[stop]@, *cs@[i as int]));
                        let k = choose|k: i32|
                            #![trigger v.stop_connections[k]]
                            v.stop_connections_by_stop_id[stop]@.contains(k) && *cs@[i as int] == v.stop_connections[k];
                        assert(v.stop_connections.contains_key(k));
                        assert(walk_fails(v, *route, v.stop_connections[k]));
                    }
                    return Err(HrdfError::OutOfRangeDate(arrival.date()));
                },
            };
            let section = RouteSection::new(None, sc.stop_id_1(), s2, at, Some(d));
            let new_route = clone_update_route(route, section, s2);
            assert(new_route.sections().drop_last() =~= route.sections());
            let ghost before = routes@;
            sorted_insert(routes, new_route);
            proof {
                let idx = choose|k: int| insert_index(before, new_route, k) && routes@ == before.insert(k, new_route);
                let c = choose|k: int| insert_index(before, new_route, k);
                lemma_insert_index_unique(before, new_route, idx, c);
                let w2 = walks.push(new_route);
                assert(w2.drop_last() =~= walks);
                assert(w2.last() == new_route);
                walks = w2;
            }
        }
        i = i + 1;
    }
    assert(cs@.take(cs@.len() as int) =~= cs@);
    Ok(())
}

/// There is a place to insert a route.
pub proof fn lemma_insert_index_exists(rs: Seq<Route>, r: Route)
    ensures
        exists|i: int| insert_index(rs, r, i),
    decreases rs.len(),
{
    if rs.len() == 0 {
        assert(insert_index(rs, r, 0));
    } else {
        let prev = rs.drop_last();
        lemma_insert_index_exists(prev, r);
        let i0 = choose|i: int| insert_index(prev, r, i);
        if i0 < prev.len() {
            assert(insert_index(rs, r, i0)) by {
                assert forall|j: int| 0 <= j < i0 implies !arrives_before(r, #[trigger] rs[j]) by {
                    assert(rs[j] == prev[j]);
                }
                assert(rs[i0] == prev[i0]);
            }
        } else if arrives_before(r, rs.last()) {
            assert(insert_index(rs, r, rs.len() - 1)) by {
                assert forall|j: int| 0 <= j < rs.len() - 1 implies !arrives_before(r, #[trigger] rs[j]) by {
                    assert(rs[j] == prev[j]);
                }
            }
        } else {
            assert(insert_index(rs, r, rs.len() as int)) by {
                assert forall|j: int| 0 <= j < rs.len() implies !arrives_before(r, #[trigger] rs[j]) by {
                    if j < rs.len() - 1 {
                        assert(rs[j] == prev[j]);
                    }
                }
            }
        }
    }
}

/// The routes after putting in `added` are those of `rs` and of `added`.
pub proof fn lemma_inserted_members(rs: Seq<Route>, added: Seq<Route>)
    ensures
        inserted_in_order(rs, added).len() == rs.len() + added.len(),
        forall|i: int|
            0 <= i < inserted_in_order(rs, added).len() ==> rs.contains(
                #[trigger] inserted_in_order(rs, added)[i],
            ) || added.contains(inserted_in_order(rs, added)[i]),
    decreases added.len(),
{
    if added.len() > 0 {
        let prev = inserted_in_order(rs, added.drop_last());
        lemma_inserted_members(rs, added.drop_last());
        let r = added.last();
        lemma_insert_index_exists(prev, r);
        let idx = choose|i: int| insert_index(prev, r, i);
        let t = prev.insert(idx, r);
        assert(t == inserted_in_order(rs, added));
        assert forall|i: int| 0 <= i < t.len() implies rs.contains(#[trigger] t[i]) || added.contains(t[i]) by {
            if i < idx {
                assert(t[i] == prev[i]);
            } else if i == idx {
                assert(added[added.len() - 1] == r);
            } else {
                assert(t[i] == prev[i - 1]);
            }
            if t[i] != r && !rs.contains(t[i]) {
                let k = if i < idx { i } else { i - 1 };
                assert(prev[k] == t[i]);
                assert(added.drop_last().contains(t[i]));
                let w = choose|w: int| 0 <= w < added.drop_last().len() && added.drop_last()[w] == t[i];
                assert(added[w] == t[i]);
            }
        }
    }
}

/// The routes continue `a` on journeys: each has sections, ends on a
/// journey and starts where `a` starts.
proof fn lemma_connections_shape(
    v: DataStorageView,
    a: Route,
    deps: Seq<(&Journey, DateTime)>,
    skip: Set<i32>,
    out: Seq<Route>,
)
    requires
        a.sections().len() > 0,
        connections_from(v, a, deps, skip, out),
    ensures
        forall|i: int|
            0 <= i < out.len() ==> (#[trigger] out[i]).sections().len() > 0
                && out[i].sections().last().spec_journey_id() is Some && continues_a_route(v, out[i])
                && forall|s: i32| starts_at(a, s) ==> starts_at(out[i], s),
    decreases deps.len(),
{
    if deps.len() > 0 {
        let j = *deps.last().0;
        let dt = deps.last().1;
        let rest = deps.drop_last();
        if skip.contains(j.spec_id()) {
            lemma_connections_shape(v, a, rest, skip, out);
        } else if out.len() > 0 && extend_outcome(
            v,
            a,
            j.spec_id(),
            dt.date_part(),
            true,
            Ok::<Option<Route>, HrdfError>(Some(out.last())),
        ) && connections_from(v, a, rest, skip, out.drop_last()) {
            lemma_connections_shape(v, a, rest, skip, out.drop_last());
            lemma_extension_shape(v, a, j.spec_id(), dt.date_part(), true, out.last());
            assert forall|i: int| 0 <= i < out.len() implies (#[trigger] out[i]).sections().len() > 0
                && out[i].sections().last().spec_journey_id() is Some && continues_a_route(v, out[i])
                && forall|s: i32| starts_at(a, s) ==> starts_at(out[i], s) by {
                if i < out.len() - 1 {
                    assert(out[i] == out.drop_last()[i]);
                } else {
                    assert(continues_a_route(v, out.last()));
                }
            }
        } else {
            lemma_connections_shape(v, a, rest, skip, out);
        }
    }
}

/// The walks from `route` have sections and start where `route` starts.
proof fn lemma_walks_shape(v: DataStorageView, route: Route, cs: Seq<&StopConnection>, walks: Seq<Route>)
    requires
        route.sections().len() > 0,
        walks_along(v, route, cs, walks),
    ensures
        forall|i: int|
            0 <= i < walks.len() ==> (#[trigger] walks[i]).sections().len() > 0 && forall|s: i32|
                starts_at(route, s) ==> starts_at(walks[i], s),
    decreases cs.len(),
{
    if cs.len() > 0 {
        if walk_allowed(v, route, *cs.last()) {
            lemma_walks_shape(v, route, cs.drop_last(), walks.drop_last());
            assert forall|i: int| 0 <= i < walks.len() implies (#[trigger] walks[i]).sections().len() > 0
                && forall|s: i32| starts_at(route, s) ==> starts_at(walks[i], s) by {
                if i < walks.len() - 1 {
                    assert(walks[i] == walks.drop_last()[i]);
                } else {
                    let w = walks.last();
                    assert(w.sections().drop_last()[0] == w.sections()[0]);
                }
            }
        } else {
            lemma_walks_shape(v, route, cs.drop_last(), walks);
        }
    }
}

/// `r` is some route continued on a journey (see `Route::extend`), boarded
/// on the day of a departure.
pub open spec fn continues_a_route(v: DataStorageView, r: Route) -> bool {
    exists|a: Route, journey_id: i32, date: Date|
        #![trigger extend_outcome(v, a, journey_id, date, true, Ok::<Option<Route>, HrdfError>(Some(r)))]
        a.sections().len() > 0 && extend_outcome(
            v,
            a,
            journey_id,
            date,
            true,
            Ok::<Option<Route>, HrdfError>(Some(r)),
        )
}

/// The route `route` continued on journey `journey_id` beyond its arrival
/// stop, `departure_at` being when it arrives there (see `Route::extend`).
pub fn create_route_from_another_route(
    data_storage: &DataStorage,
    route: &Route,
    journey_id: i32,
    departure_at: DateTime,
) -> (res: HResult<Option<Route>>)
    requires
        route.sections().len() > 0,
    ensures
        extend_outcome(data_storage@, *route, journey_id, departure_at.date_part(), false, res),
{
    route.extend(data_storage, journey_id, departure_at.date(), false)
}

/// What `explore_next_section` does: `ign0`, `ign1` are the journeys to
/// ignore and `rs0`, `rs1` the routes to explore, before and after.
pub open spec fn next_section_explored(
    v: DataStorageView,
    route: Route,
    ign0: Set<i32>,
    ign1: Set<i32>,
    rs0: Seq<Route>,
    rs1: Seq<Route>,
    res: HResult<()>,
) -> bool {
    match route.sections().last().spec_journey_id() {
        None => ign1 == ign0 && rs1 == rs0 && res is Ok,
        Some(id) => {
            let date = route.arrival().date_part();
            &&& ign1 == ign0.insert(id)
            &&& match res {
                Ok(()) => {
                    ||| (rs1 == rs0 && extend_outcome(
                        v,
                        route,
                        id,
                        date,
                        false,
                        Ok::<Option<Route>, HrdfError>(None),
                    ))
                    ||| exists|r: Route|
                        #![trigger extend_outcome(v, route, id, date, false, Ok::<Option<Route>, HrdfError>(Some(r)))]
                        extend_outcome(v, route, id, date, false, Ok::<Option<Route>, HrdfError>(Some(r)))
                            && rs1 == inserted_in_order(rs0, seq![r])
                },
                Err(e) => rs1 == rs0 && extend_outcome(v, route, id, date, false, Err::<Option<Route>, HrdfError>(e)),
            }
        },
    }
}

/// Where the last section of `route` is on a journey: that journey is to be
/// ignored from now on, and the route continued on it beyond the section's
/// arrival stop (see `create_route_from_another_route`), if there is such a
/// continuation, joins the routes to explore at its place by arrival.
pub fn explore_next_section(
    data_storage: &DataStorage,
    route: &Route,
    journeys_to_ignore: &mut HashSet<i32>,
    routes: &mut Vec<Route>,
) -> (res: HResult<()>)
    requires
        route.sections().len() > 0,
        all_have_sections(old(routes)@),
    ensures
        all_have_sections(final(routes)@),
        sorted_by_arrival(old(routes)@) ==> sorted_by_arrival(final(routes)@),
        next_section_explored(
            data_storage@,
            *route,
            old(journeys_to_ignore)@,
            final(journeys_to_ignore)@,
            old(routes)@,
            final(routes)@,
            res,
        ),
{
    let journey_id = match route.last_route_section().journey_id() {
        Some(id) => id,
        None => {
            return Ok(());
        },
    };
    journeys_to_ignore.insert(journey_id);
    let arrival = route.last_route_section().arrival_at();
    let new_route = match create_route_from_another_route(data_storage, route, journey_id, arrival)? {
        Some(r) => r,
        None => {
            return Ok(());
        },
    };
    proof {
        lemma_extension_shape(data_storage@, *route, journey_id, arrival.date_part(), false, new_route);
    }
    let ghost before = routes@;
    sorted_insert(routes, new_route);
    proof {
        let idx = choose|k: int| insert_index(before, new_route, k) && routes@ == before.insert(k, new_route);
        let c = choose|k: int| insert_index(before, new_route, k);
        lemma_insert_index_unique(before, new_route, idx, c);
        assert(seq![new_route].drop_last() =~= Seq::<Route>::empty());
        assert(inserted_in_order(before, Seq::<Route>::empty()) == before);
        assert(seq![new_route].last() == new_route);
        assert(routes@ == inserted_in_order(before, seq![new_route]));
        assert(extend_outcome(
            data_storage@,
            *route,
            journey_id,
            route.arrival().date_part(),
            false,
            Ok::<Option<Route>, HrdfError>(Some(new_route)),
        ));
    }
    Ok(())
}

/// Adds to `new_routes` the routes that continue `route` on the next
/// departures from its arrival stop (see `get_connections`).
pub fn explore_connections(
    data_storage: &DataStorage,
    route: &Route,
    journeys_to_ignore: &HashSet<i32>,
    new_routes: &mut Vec<Route>,
) -> (res: HResult<()>)
    requires
        route.sections().len() > 0,
        route.arrival().wf(),
    ensures
        match res {
            Ok(()) => exists|out: Seq<Route>|
                #![trigger connections_ok(data_storage@, *route, journeys_to_ignore@, out)]
                connections_ok(data_storage@, *route, journeys_to_ignore@, out) && final(new_routes)@
                    == old(new_routes)@ + out,
            Err(e) => connections_fail(data_storage@, *route, journeys_to_ignore@, e) && final(new_routes)@
                == old(new_routes)@,
        },
{
    let mut conns = get_connections(data_storage, route, journeys_to_ignore)?;
    let ghost out = conns@;
    new_routes.append(&mut conns);
    assert(connections_ok(data_storage@, *route, journeys_to_ignore@, out));
    Ok(())
}

/// The search can work on the route: it has a section, it arrives at a time
/// within the day, and each of its sections on a journey names a journey of
/// the storage.
pub open spec fn usable(v: DataStorageView, r: Route) -> bool {
    route_resolves(v, r) && r.arrival().wf()
}

/// Whether the search can work on the route (see `usable`).
fn route_is_usable(data_storage: &DataStorage, route: &Route) -> (res: bool)
    ensures
        res == usable(data_storage@, *route),
{
    let ghost v = data_storage@;
    let sections = route.route_sections();
    if sections.len() == 0 {
        return false;
    }
    let mut i: usize = 0;
    while i < sections.len()
        invariant
            0 <= i <= sections@.len(),
            sections@ == route.sections(),
            v == data_storage@,
            forall|k: int|
                0 <= k < i && has_journey(#[trigger] sections@[k]) ==> section_resolves(v, sections@[k]),
        decreases sections@.len() - i,
    {
        match sections[i].journey_id() {
            Some(id) => match data_storage.journeys().find(id) {
                Some(j) => {
                    if j.route().len() == usize::MAX {
                        assert(has_journey(route.sections()[i as int]));
                        return false;
                    }
                },
                None => {
                    assert(has_journey(route.sections()[i as int]));
                    return false;
                },
            },
            None => {},
        }
        i = i + 1;
    }
    let at = route.arrival_at();
    proof {
        at.lemma_instant();
    }
    at.time().is_within_day()
}

/// Every route starts at `stop_id`.
pub open spec fn all_start_at(rs: Seq<Route>, stop_id: i32) -> bool {
    forall|i: int| 0 <= i < rs.len() ==> starts_at(#[trigger] rs[i], stop_id)
}

/// Every solution starts at `stop_id`.
pub open spec fn solutions_start_at(m: Map<i32, Route>, stop_id: i32) -> bool {
    forall|k: i32| #[trigger] m.contains_key(k) ==> starts_at(m[k], stop_id)
}

/// The most routes that one round of the search takes from its work list.
pub const MAXIMUM_NUMBER_OF_EXPLORED_ROUTES: usize = 100_000_000;

/// The last part of a step of the search from `route` (see
/// `explore_route_step`): the walks to nearby stops join the routes to
/// explore, and the connections on other journeys are kept.
pub open spec fn explore_around(
    v: DataStorageView,
    route: Route,
    w0: Seq<Route>,
    i0: Set<i32>,
    s0: Map<i32, Route>,
    n0: Seq<Route>,
    w1: Seq<Route>,
    s1: Map<i32, Route>,
    n1: Seq<Route>,
    res: HResult<()>,
) -> bool {
    exists|wn: Seq<Route>, rn: HResult<()>|
        #![trigger nearby_explored(v, route, w0, wn, rn)]
        nearby_explored(v, route, w0, wn, rn) && w1 == wn && s1 == s0 && match rn {
            Err(e) => res == Err::<(), HrdfError>(e) && n1 == n0,
            Ok(()) => match res {
                Ok(()) => exists|out: Seq<Route>|
                    #![trigger connections_ok(v, route, i0, out)]
                    connections_ok(v, route, i0, out) && n1 == n0 + out,
                Err(e) => connections_fail(v, route, i0, e) && n1 == n0,
            },
        }
}

/// The middle part of a step of the search from `route` (see
/// `explore_route_step`), once it goes on: the continuation on the same
/// journey, and, where the route is the earliest yet at its arrival stop,
/// the rest (see `explore_around`).
pub open spec fn explore_onwards(
    v: DataStorageView,
    route: Route,
    w0: Seq<Route>,
    i0: Set<i32>,
    e0: Map<i32, DateTime>,
    s0: Map<i32, Route>,
    n0: Seq<Route>,
    w1: Seq<Route>,
    i1: Set<i32>,
    e1: Map<i32, DateTime>,
    s1: Map<i32, Route>,
    n1: Seq<Route>,
    res: HResult<()>,
) -> bool {
    exists|wm: Seq<Route>, rm: HResult<()>|
        #![trigger next_section_explored(v, route, i0, i1, w0, wm, rm)]
        next_section_explored(v, route, i0, i1, w0, wm, rm) && match rm {
            Err(e) => res == Err::<(), HrdfError>(e) && w1 == wm && e1 == e0 && s1 == s0 && n1 == n0,
            Ok(()) => exists|allowed: bool|
                #![trigger exploring_allowed(v, route, e0, e1, allowed)]
                exploring_allowed(v, route, e0, e1, allowed) && if allowed {
                    explore_around(v, route, wm, i1, s0, n0, w1, s1, n1, res)
                } else {
                    w1 == wm && s1 == s0 && n1 == n0 && res is Ok
                },
        }
}

/// One step of the search on `route`, taken from the work list whose other
/// routes are `w0`: `i`, `e`, `s` and `n` are the journeys to ignore, the
/// earliest arrivals by stop, the solutions and the connections kept, before
/// (0) and after (1). A route the search cannot work on is passed over;
/// otherwise the solutions are updated and it is decided whether to go on
/// (see `can_continue_exploration`); the search does not go on from a route
/// whose last section comes back to its own departure stop.
pub open spec fn explore_route_step(
    v: DataStorageView,
    args: RoutingAlgorithmArgs,
    route: Route,
    w0: Seq<Route>,
    i0: Set<i32>,
    e0: Map<i32, DateTime>,
    s0: Map<i32, Route>,
    n0: Seq<Route>,
    w1: Seq<Route>,
    i1: Set<i32>,
    e1: Map<i32, DateTime>,
    s1: Map<i32, Route>,
    n1: Seq<Route>,
    res: HResult<()>,
) -> bool {
    if !usable(v, route) {
        w1 == w0 && i1 == i0 && e1 == e0 && s1 == s0 && n1 == n0 && res is Ok
    } else {
        exists|go: HResult<bool>|
            #![trigger continue_outcome(v, route, s0, s1, args, go)]
            continue_outcome(v, route, s0, s1, args, go) && match go {
                Err(e) => res == Err::<(), HrdfError>(e) && w1 == w0 && i1 == i0 && e1 == e0 && n1 == n0,
                Ok(b) => if !b || route.sections().last().spec_departure_stop_id()
                    == route.sections().last().spec_arrival_stop_id() {
                    w1 == w0 && i1 == i0 && e1 == e0 && n1 == n0 && res is Ok
                } else {
                    explore_onwards(v, route, w0, i0, e0, s1, n0, w1, i1, e1, s1, n1, res)
                },
            }
    }
}

/// A round of the search that may still take `fuel` routes from its work
/// list `w0`, from the state `i0`, `e0`, `s0`, `n0` to `w1`, `i1`, `e1`,
/// `s1`, `n1` (see `explore_route_step`): it takes the first route and makes
/// a step, until the work list is empty or the fuel is spent; the first step
/// that fails ends the round with its error.
pub open spec fn explore_run(
    v: DataStorageView,
    args: RoutingAlgorithmArgs,
    fuel: nat,
    w0: Seq<Route>,
    i0: Set<i32>,
    e0: Map<i32, DateTime>,
    s0: Map<i32, Route>,
    n0: Seq<Route>,
    w1: Seq<Route>,
    i1: Set<i32>,
    e1: Map<i32, DateTime>,
    s1: Map<i32, Route>,
    n1: Seq<Route>,
    res: HResult<()>,
) -> bool
    decreases fuel,
{
    if w0.len() == 0 || fuel == 0 {
        w1 == w0 && i1 == i0 && e1 == e0 && s1 == s0 && n1 == n0 && res is Ok
    } else {
        exists|wm: Seq<Route>, im: Set<i32>, em: Map<i32, DateTime>, sm: Map<i32, Route>, nm: Seq<Route>, r: HResult<()>|
            #![trigger explore_route_step(v, args, w0[0], w0.drop_first(), i0, e0, s0, n0, wm, im, em, sm, nm, r)]
            explore_route_step(v, args, w0[0], w0.drop_first(), i0, e0, s0, n0, wm, im, em, sm, nm, r) && if r is Err {
                res == r && w1 == wm && i1 == im && e1 == em && s1 == sm && n1 == nm
            } else {
                explore_run(v, args, (fuel - 1) as nat, wm, im, em, sm, nm, w1, i1, e1, s1, n1, res)
            }
    }
}

/// One step of the search on `route`, the routes to explore being `work`
/// (see `explore_route_step`).
fn explore_one(
    data_storage: &DataStorage,
    route: Route,
    work: &mut Vec<Route>,
    journeys_to_ignore: &mut HashSet<i32>,
    earliest_arrival_by_stop_id: &mut HashMap<i32, DateTime>,
    args: RoutingAlgorithmArgs,
    solutions: &mut FxHashMap<i32, Route>,
    new_routes: &mut Vec<Route>,
) -> (res: HResult<()>)
    requires
        route.sections().len() > 0,
        all_have_sections(old(work)@),
        all_end_on_journeys(old(new_routes)@),
        forall|i: int| 0 <= i < old(new_routes)@.len() ==> continues_a_route(data_storage@, #[trigger] old(new_routes)@[i]),
        solutions_resolve(data_storage@, old(solutions)@),
    ensures
        explore_route_step(
            data_storage@,
            args,
            route,
            old(work)@,
            old(journeys_to_ignore)@,
            old(earliest_arrival_by_stop_id)@,
            old(solutions)@,
            old(new_routes)@,
            final(work)@,
            final(journeys_to_ignore)@,
            final(earliest_arrival_by_stop_id)@,
            final(solutions)@,
            final(new_routes)@,
            res,
        ),
        solutions_resolve(data_storage@, final(solutions)@),
        old(journeys_to_ignore)@.subset_of(final(journeys_to_ignore)@),
        res is Ok ==> {
            &&& all_have_sections(final(work)@)
            &&& all_end_on_journeys(final(new_routes)@)
            &&& forall|i: int|
                0 <= i < final(new_routes)@.len() ==> continues_a_route(data_storage@, #[trigger] final(new_routes)@[i])
            &&& no_worse(old(solutions)@, final(solutions)@)
            &&& solutions_fit(args, old(solutions)@) ==> solutions_fit(args, final(solutions)@)
        },
        forall|s: i32|
            #![trigger starts_at(route, s)]
            starts_at(route, s) && all_start_at(old(work)@, s) && all_start_at(old(new_routes)@, s) ==> (res
                is Ok ==> all_start_at(final(work)@, s) && all_start_at(final(new_routes)@, s)
                && changed_start_at(old(solutions)@, final(solutions)@, s)),
{
    let ghost v = data_storage@;
    let ghost w0 = work@;
    let ghost i0 = journeys_to_ignore@;
    let ghost e0 = earliest_arrival_by_stop_id@;
    let ghost s0 = solutions@;
    let ghost n0 = new_routes@;
    if !route_is_usable(data_storage, &route) {
        return Ok(());
    }
    let go = can_continue_exploration(data_storage, &route, solutions, args);
    let ghost s1 = solutions@;
    let b = match go {
        Ok(b) => b,
        Err(e) => {
            return Err(e);
        },
    };
    proof {
        lemma_continue_outcome(v, route, s0, s1, args, go);
    }
    let last = *route.last_route_section();
    if !b || last.departure_stop_id() == last.arrival_stop_id() {
        return Ok(());
    }
    let rm = explore_next_section(data_storage, &route, journeys_to_ignore, work);
    let ghost wm = work@;
    let ghost i1 = journeys_to_ignore@;
    match rm {
        Ok(()) => {},
        Err(e) => {
            assert(explore_onwards(v, route, w0, i0, e0, s1, n0, wm, i1, e0, s1, n0, Err::<(), HrdfError>(e)));
            return Err(e);
        },
    }
    proof {
        if work@ != w0 {
            let r = choose|r: Route|
                extend_outcome(
                    v,
                    route,
                    last.spec_journey_id()->0,
                    route.arrival().date_part(),
                    false,
                    Ok::<Option<Route>, HrdfError>(Some(r)),
                ) && work@ == inserted_in_order(w0, seq![r]);
            lemma_extension_shape(v, route, last.spec_journey_id()->0, route.arrival().date_part(), false, r);
            lemma_inserted_members(w0, seq![r]);
            assert forall|s: i32| starts_at(route, s) && all_start_at(w0, s) implies all_start_at(work@, s) by {
                assert forall|i: int| 0 <= i < work@.len() implies starts_at(#[trigger] work@[i], s) by {
                    if !w0.contains(work@[i]) {
                        assert(seq![r].contains(work@[i]));
                        assert(seq![r][0] == r);
                    } else {
                        let w = choose|w: int| 0 <= w < w0.len() && w0[w] == work@[i];
                        assert(starts_at(w0[w], s));
                    }
                }
            }
        }
    }
    let allowed = can_explore_connections(data_storage, &route, earliest_arrival_by_stop_id);
    let ghost e1 = earliest_arrival_by_stop_id@;
    if !allowed {
        assert(explore_onwards(v, route, w0, i0, e0, s1, n0, wm, i1, e1, s1, n0, Ok::<(), HrdfError>(())));
        return Ok(());
    }
    let rn = explore_nearby_stops(data_storage, &route, work);
    let ghost wn = work@;
    match rn {
        Ok(()) => {},
        Err(e) => {
            assert(explore_around(v, route, wm, i1, s1, n0, wn, s1, n0, Err::<(), HrdfError>(e)));
            assert(explore_onwards(v, route, w0, i0, e0, s1, n0, wn, i1, e1, s1, n0, Err::<(), HrdfError>(e)));
            return Err(e);
        },
    }
    proof {
        if work@ != wm {
            let stop = route.sections().last().spec_arrival_stop_id();
            let (cs, walks) = choose|cs: Seq<&StopConnection>, walks: Seq<Route>|
                v.stop_connections_by_stop_id.contains_key(stop) && resolved(
                    v.stop_connections,
                    v.stop_connections_by_stop_id[stop]@,
                    cs,
                ) && walks_along(v, route, cs, walks) && work@ == inserted_in_order(wm, walks);
            lemma_walks_shape(v, route, cs, walks);
            lemma_inserted_members(wm, walks);
            assert forall|s: i32| starts_at(route, s) && all_start_at(wm, s) implies all_start_at(work@, s) by {
                assert forall|i: int| 0 <= i < work@.len() implies starts_at(#[trigger] work@[i], s) by {
                    if !wm.contains(work@[i]) {
                        let w = choose|w: int| 0 <= w < walks.len() && walks[w] == work@[i];
                        assert(starts_at(walks[w], s));
                    } else {
                        let w = choose|w: int| 0 <= w < wm.len() && wm[w] == work@[i];
                        assert(starts_at(wm[w], s));
                    }
                }
            }
        }
    }
    let rc = explore_connections(data_storage, &route, journeys_to_ignore, new_routes);
    proof {
        assert(explore_around(v, route, wm, i1, s1, n0, wn, s1, new_routes@, rc));
        assert(explore_onwards(v, route, w0, i0, e0, s1, n0, wn, i1, e1, s1, new_routes@, rc));
    }
    match rc {
        Ok(()) => {},
        Err(e) => {
            return Err(e);
        },
    }
    proof {
        let out = choose|out: Seq<Route>|
            connections_ok(v, route, journeys_to_ignore@, out) && new_routes@ == n0 + out;
        let stop = route.sections().last().spec_arrival_stop_id();
        let dep = route.arrival();
        let deps = choose|deps: Seq<(&Journey, DateTime)>|
            departures_ok(v, stop, dep, taken_route_hashes(v, route), deps) && connections_from(
                v,
                route,
                deps,
                journeys_to_ignore@,
                out,
            );
        lemma_connections_shape(v, route, deps, journeys_to_ignore@, out);
        assert forall|i: int| 0 <= i < new_routes@.len() implies (#[trigger] new_routes@[i]).sections().len() > 0
            && new_routes@[i].sections().last().spec_journey_id() is Some && continues_a_route(v, new_routes@[i])
            && forall|s: i32| starts_at(route, s) && all_start_at(n0, s) ==> starts_at(new_routes@[i], s) by {
            if i < n0.len() {
                assert(new_routes@[i] == n0[i]);
            } else {
                assert(new_routes@[i] == out[i - n0.len()]);
            }
        }
    }
    Ok(())
}

/// One round of the search. The routes are taken from the work list in
/// order, and a step is made on each (see `explore_route_step`): routes the
/// search cannot work on are passed over; for the others, the solutions are
/// updated and it is decided whether to go on from them (see
/// `can_continue_exploration`). From a route that goes on and whose last
/// section does not come back to its own departure stop, the continuation on
/// the same journey joins the work list (see `explore_next_section`); where
/// the route is the earliest yet at its arrival stop (see
/// `can_explore_connections`), the walks to nearby stops join the work list
/// too, and the connections on other journeys are kept for the next round.
/// A round takes at most `MAXIMUM_NUMBER_OF_EXPLORED_ROUTES` routes from its
/// work list (see `explore_run`). The result is the connections kept whose
/// journey has not been ignored since, sorted by arrival.
pub fn explore_routes(
    data_storage: &DataStorage,
    routes: Vec<Route>,
    journeys_to_ignore: &mut HashSet<i32>,
    earliest_arrival_by_stop_id: &mut HashMap<i32, DateTime>,
    args: RoutingAlgorithmArgs,
    solutions: &mut FxHashMap<i32, Route>,
) -> (res: HResult<Vec<Route>>)
    requires
        all_have_sections(routes@),
        solutions_resolve(data_storage@, old(solutions)@),
    ensures
        exists|w1: Seq<Route>, n1: Seq<Route>, r: HResult<()>|
            #![trigger explore_run(data_storage@, args, MAXIMUM_NUMBER_OF_EXPLORED_ROUTES as nat, routes@, old(journeys_to_ignore)@, old(earliest_arrival_by_stop_id)@, old(solutions)@, Seq::<Route>::empty(), w1, final(journeys_to_ignore)@, final(earliest_arrival_by_stop_id)@, final(solutions)@, n1, r)]
            explore_run(
                data_storage@,
                args,
                MAXIMUM_NUMBER_OF_EXPLORED_ROUTES as nat,
                routes@,
                old(journeys_to_ignore)@,
                old(earliest_arrival_by_stop_id)@,
                old(solutions)@,
                Seq::<Route>::empty(),
                w1,
                final(journeys_to_ignore)@,
                final(earliest_arrival_by_stop_id)@,
                final(solutions)@,
                n1,
                r,
            ) && match res {
                Ok(rs) => r is Ok && rs@ == arrival_sorted(routes_kept(n1, final(journeys_to_ignore)@)),
                Err(e) => r == Err::<(), HrdfError>(e),
            },
        solutions_resolve(data_storage@, final(solutions)@),
        old(journeys_to_ignore)@.subset_of(final(journeys_to_ignore)@),
        res is Ok ==> no_worse(old(solutions)@, final(solutions)@),
        res is Ok ==> (solutions_fit(args, old(solutions)@) ==> solutions_fit(args, final(solutions)@)),
        forall|s: i32|
            #![trigger all_start_at(routes@, s)]
            all_start_at(routes@, s) && solutions_start_at(old(solutions)@, s) ==> (res matches Ok(rs)
                ==> solutions_start_at(final(solutions)@, s) && all_start_at(rs@, s)),
        res matches Ok(rs) ==> {
            &&& sorted_by_arrival(rs@)
            &&& all_end_on_journeys(rs@)
            &&& forall|i: int|
                0 <= i < rs@.len() ==> !final(journeys_to_ignore)@.contains(
                    (#[trigger] rs@[i]).sections().last().spec_journey_id()->0,
                ) && continues_a_route(data_storage@, rs@[i])
        },
{
    let ghost v = data_storage@;
    let ghost orig = routes@;
    let ghost sol0 = solutions@;
    let ghost ign0 = journeys_to_ignore@;
    let ghost ear0 = earliest_arrival_by_stop_id@;
    let ghost s0: i32 = if orig.len() > 0 && orig[0].sections().len() > 0 {
        orig[0].sections()[0].spec_departure_stop_id()
    } else {
        0
    };
    let mut work = routes;
    let mut new_routes: Vec<Route> = Vec::new();
    let mut count: usize = 0;
    while work.len() > 0 && count < MAXIMUM_NUMBER_OF_EXPLORED_ROUTES
        invariant
            v == data_storage@,
            orig == routes@,
            sol0 == old(solutions)@,
            ign0 == old(journeys_to_ignore)@,
            ear0 == old(earliest_arrival_by_stop_id)@,
            count <= MAXIMUM_NUMBER_OF_EXPLORED_ROUTES,
            all_have_sections(work@),
            all_end_on_journeys(new_routes@),
            forall|i: int| 0 <= i < new_routes@.len() ==> continues_a_route(v, #[trigger] new_routes@[i]),
            solutions_resolve(v, solutions@),
            ign0.subset_of(journeys_to_ignore@),
            no_worse(sol0, solutions@),
            solutions_fit(args, sol0) ==> solutions_fit(args, solutions@),
            all_start_at(orig, s0) ==> all_start_at(work@, s0) && all_start_at(new_routes@, s0)
                && changed_start_at(sol0, solutions@, s0),
            orig.len() == 0 ==> work@.len() == 0 && new_routes@.len() == 0 && solutions@ == sol0,
            forall|w1: Seq<Route>, i1: Set<i32>, e1: Map<i32, DateTime>, s1: Map<i32, Route>, n1: Seq<Route>, r: HResult<()>|
                #[trigger] explore_run(
                    v,
                    args,
                    (MAXIMUM_NUMBER_OF_EXPLORED_ROUTES - count) as nat,
                    work@,
                    journeys_to_ignore@,
                    earliest_arrival_by_stop_id@,
                    solutions@,
                    new_routes@,
                    w1,
                    i1,
                    e1,
                    s1,
                    n1,
                    r,
                ) ==> explore_run(
                    v,
                    args,
                    MAXIMUM_NUMBER_OF_EXPLORED_ROUTES as nat,
                    orig,
                    ign0,
                    ear0,
                    sol0,
                    Seq::<Route>::empty(),
                    w1,
                    i1,
                    e1,
                    s1,
                    n1,
                    r,
                ),
        decreases MAXIMUM_NUMBER_OF_EXPLORED_ROUTES - count,
    {
        let ghost work0 = work@;
        let ghost i0 = journeys_to_ignore@;
        let ghost e0 = earliest_arrival_by_stop_id@;
        let ghost sl0 = solutions@;
        let ghost n0 = new_routes@;
        let ghost fuel = (MAXIMUM_NUMBER_OF_EXPLORED_ROUTES - count) as nat;
        let route = work.remove(0);
        assert(work0[0] == route);
        assert(work@ =~= work0.drop_first());
        assert(all_have_sections(work@)) by {
            assert forall|i: int| 0 <= i < work@.len() implies (#[trigger] work@[i]).sections().len() > 0 by {
                assert(work@[i] == work0[i + 1]);
            }
        }
        assert(all_start_at(orig, s0) ==> all_start_at(work@, s0)) by {
            if all_start_at(orig, s0) {
                assert forall|i: int| 0 <= i < work@.len() implies starts_at(#[trigger] work@[i], s0) by {
                    assert(work@[i] == work0[i + 1]);
                }
            }
        }
        assert(all_start_at(orig, s0) ==> starts_at(route, s0));
        let step = explore_one(
            data_storage,
            route,
            &mut work,
            journeys_to_ignore,
            earliest_arrival_by_stop_id,
            args,
            solutions,
            &mut new_routes,
        );
        match step {
            Ok(()) => {},
            Err(e) => {
                proof {
                    assert(explore_run(v, args, fuel, work0, i0, e0, sl0, n0, work@, journeys_to_ignore@, earliest_arrival_by_stop_id@, solutions@, new_routes@, Err::<(), HrdfError>(e)));
                    assert(explore_run(v, args, MAXIMUM_NUMBER_OF_EXPLORED_ROUTES as nat, orig, ign0, ear0, sol0, Seq::<Route>::empty(), work@, journeys_to_ignore@, earliest_arrival_by_stop_id@, solutions@, new_routes@, Err::<(), HrdfError>(e)));
                }
                return Err(e);
            },
        }
        proof {
            lemma_no_worse_transitive(sol0, sl0, solutions@);
            assert forall|w1: Seq<Route>, i1: Set<i32>, e1: Map<i32, DateTime>, s1: Map<i32, Route>, n1: Seq<Route>, r: HResult<()>|
                #[trigger] explore_run(
                    v,
                    args,
                    (fuel - 1) as nat,
                    work@,
                    journeys_to_ignore@,
                    earliest_arrival_by_stop_id@,
                    solutions@,
                    new_routes@,
                    w1,
                    i1,
                    e1,
                    s1,
                    n1,
                    r,
                ) implies explore_run(v, args, fuel, work0, i0, e0, sl0, n0, w1, i1, e1, s1, n1, r) by {
                assert(explore_route_step(v, args, work0[0], work0.drop_first(), i0, e0, sl0, n0, work@, journeys_to_ignore@, earliest_arrival_by_stop_id@, solutions@, new_routes@, step));
            }
        }
        count = count + 1;
    }
    proof {
        let fuel = (MAXIMUM_NUMBER_OF_EXPLORED_ROUTES - count) as nat;
        assert(explore_run(v, args, fuel, work@, journeys_to_ignore@, earliest_arrival_by_stop_id@, solutions@, new_routes@, work@, journeys_to_ignore@, earliest_arrival_by_stop_id@, solutions@, new_routes@, Ok::<(), HrdfError>(())));
    }
    let ghost final_new = new_routes@;
    let ghost final_work = work@;
    let mut kept = filter_new_routes(new_routes, journeys_to_ignore);
    proof {
        lemma_routes_kept(final_new, journeys_to_ignore@);
    }
    let ghost kept0 = kept@;
    sort_routes(&mut kept);
    proof {
        assert(explore_run(v, args, MAXIMUM_NUMBER_OF_EXPLORED_ROUTES as nat, orig, ign0, ear0, sol0, Seq::<Route>::empty(), final_work, journeys_to_ignore@, earliest_arrival_by_stop_id@, solutions@, final_new, Ok::<(), HrdfError>(())));
        assert forall|i: int| 0 <= i < kept@.len() implies kept0.contains(#[trigger] kept@[i]) by {
            vstd::seq_lib::to_multiset_contains(kept@, kept@[i]);
            vstd::seq_lib::to_multiset_contains(kept0, kept@[i]);
        }
        assert forall|i: int| 0 <= i < kept@.len() implies (#[trigger] kept@[i]).sections().len() > 0
            && kept@[i].sections().last().spec_journey_id() is Some && !journeys_to_ignore@.contains(
            kept@[i].sections().last().spec_journey_id()->0,
        ) && continues_a_route(v, kept@[i]) && (all_start_at(orig, s0) ==> starts_at(kept@[i], s0)) by {
            assert(kept0.contains(kept@[i]));
            let w = choose|w: int| 0 <= w < kept0.len() && kept0[w] == kept@[i];
            let u = choose|u: int| 0 <= u < final_new.len() && final_new[u] == kept0[w];
            assert(final_new[u].sections().len() > 0);
        }
        assert forall|s: i32|
            all_start_at(orig, s) && solutions_start_at(sol0, s) implies solutions_start_at(solutions@, s)
            && all_start_at(kept@, s) by {
            if orig.len() > 0 {
                assert(starts_at(orig[0], s));
                assert(s == s0);
                assert forall|k: i32| #[trigger] solutions@.contains_key(k) implies starts_at(solutions@[k], s) by {
                    if sol0.contains_key(k) && solutions@[k] == sol0[k] {
                        assert(starts_at(sol0[k], s));
                    }
                }
            } else {
                assert(kept@.len() == 0);
            }
        }
    }
    Ok(kept)
}

/// The routes kept by `routes_kept` are routes of `routes` whose last
/// section is on a journey not ignored.
proof fn lemma_routes_kept(routes: Seq<Route>, ignore: Set<i32>)
    ensures
        forall|i: int|
            0 <= i < routes_kept(routes, ignore).len() ==> exists|u: int|
                0 <= u < routes.len() && routes[u] == #[trigger] routes_kept(routes, ignore)[i]
                    && !ignore.contains(routes[u].sections().last().spec_journey_id()->0),
        routes_kept(routes, ignore).len() <= routes.len(),
    decreases routes.len(),
{
    if routes.len() > 0 {
        let rest = routes_kept(routes.drop_last(), ignore);
        lemma_routes_kept(routes.drop_last(), ignore);
        assert forall|i: int| 0 <= i < routes_kept(routes, ignore).len() implies exists|u: int|
            0 <= u < routes.len() && routes[u] == #[trigger] routes_kept(routes, ignore)[i]
                && !ignore.contains(routes[u].sections().last().spec_journey_id()->0) by {
            if i < rest.len() {
                assert(routes_kept(routes, ignore)[i] == rest[i]);
                let u = choose|u: int|
                    0 <= u < routes.drop_last().len() && routes.drop_last()[u] == rest[i]
                        && !ignore.contains(routes.drop_last()[u].sections().last().spec_journey_id()->0);
                assert(routes[u] == routes.drop_last()[u]);
            } else {
                assert(routes[routes.len() - 1] == routes.last());
            }
        }
    }
}

} // verus!
