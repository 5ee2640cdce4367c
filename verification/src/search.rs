//! The search for routes from a stop: the routes to start from, and the
//! rounds of exploration that improve the solutions.
use crate::calendar::DateTime;
use crate::error::HResult;
use crate::exploration::{
    all_start_at, explore_routes, explore_run, routes_kept, solutions_start_at,
    MAXIMUM_NUMBER_OF_EXPLORED_ROUTES,
};
use crate::calendar::in_calendar_range;
use crate::fxmap::{fx_map_new, fx_map_remove, fx_set_insert};
use crate::error::HrdfError;
use crate::journey::{find_stop, Journey};
use crate::routing::{
    all_have_sections, arrival_sorted, candidate, departures_fail, departures_ok, find_next_fails,
    next_departures, next_exit, next_section, sort_routes, sorted_by_arrival, Route, RouteSection,
};
use crate::solutions::{solutions_fit, solutions_resolve, RoutingAlgorithmArgs};
use crate::storage::{DataStorage, DataStorageView};
use rustc_hash::FxHashMap;
use std::collections::{HashMap, HashSet};
use vstd::prelude::*;

verus! {

broadcast use vstd::std_specs::hash::group_hash_axioms;

/// The most rounds of exploration, that is connections, of a search.
pub const MAXIMUM_NUMBER_OF_EXPLORABLE_CONNECTIONS: usize = 10;

/// `r` is a route of one section: the departure `(j, dt)` from `stop_id`
/// taken up to the next stop where the passenger can leave, the stop itself
/// counted as passed.
pub open spec fn initial_route(v: DataStorageView, stop_id: i32, dep: DateTime, r: Route) -> bool {
    &&& r.sections().len() == 1
    &&& exists|j: Journey, dt: DateTime, visited: Set<i32>|
        #![trigger next_section(v, j, stop_id, dt.date_part(), true, r.sections()[0], visited)]
        candidate(v, stop_id, dep, j, dt) && next_section(
            v,
            j,
            stop_id,
            dt.date_part(),
            true,
            r.sections()[0],
            visited,
        ) && r.visited() == visited.insert(stop_id)
}

/// `r` is a route of one section: journey `j`, boarded at `stop_id` on the
/// day of `dt`, taken up to the next stop where the passenger can leave,
/// the stop itself counted as passed.
pub open spec fn initial_route_on(v: DataStorageView, stop_id: i32, j: Journey, dt: DateTime, r: Route) -> bool {
    &&& r.sections().len() == 1
    &&& exists|visited: Set<i32>|
        #![trigger next_section(v, j, stop_id, dt.date_part(), true, r.sections()[0], visited)]
        next_section(v, j, stop_id, dt.date_part(), true, r.sections()[0], visited) && r.visited()
            == visited.insert(stop_id)
}

/// `out` are the routes of one section for the departures `deps` from
/// `stop_id`, in their order; a departure with no stop to leave the journey
/// at gives none.
pub open spec fn initial_routes_from(
    v: DataStorageView,
    stop_id: i32,
    deps: Seq<(&Journey, DateTime)>,
    out: Seq<Route>,
) -> bool
    decreases deps.len(),
{
    if deps.len() == 0 {
        out.len() == 0
    } else {
        let j = *deps.last().0;
        let dt = deps.last().1;
        let route = j.route_view();
        let p = find_stop(route, stop_id, 0);
        ||| (out.len() > 0 && initial_route_on(v, stop_id, j, dt, out.last()) && initial_routes_from(
            v,
            stop_id,
            deps.drop_last(),
            out.drop_last(),
        ))
        ||| ((p >= route.len() || next_exit(v, route, p + 1) == Ok::<Option<int>, HrdfError>(None))
            && initial_routes_from(v, stop_id, deps.drop_last(), out))
    }
}

/// `rs` are the routes to start a search from `stop_id` at `dep`: the
/// routes of one section for the next departures there, sorted by arrival.
pub open spec fn initial_routes_ok(v: DataStorageView, stop_id: i32, dep: DateTime, rs: Seq<Route>) -> bool {
    exists|deps: Seq<(&Journey, DateTime)>, unsorted: Seq<Route>|
        #![trigger initial_routes_from(v, stop_id, deps, unsorted)]
        departures_ok(v, stop_id, dep, Set::empty(), deps) && initial_routes_from(v, stop_id, deps, unsorted)
            && rs == arrival_sorted(unsorted)
}

/// The errors of `create_initial_routes`: the next departures cannot be
/// listed, or one of them cannot be taken to its first exit.
pub open spec fn initial_routes_fail(v: DataStorageView, stop_id: i32, dep: DateTime, e: HrdfError) -> bool {
    departures_fail(v, stop_id, dep, e) || exists|j: Journey, dt: DateTime|
        #![trigger candidate(v, stop_id, dep, j, dt)]
        candidate(v, stop_id, dep, j, dt) && find_next_fails(v, j, stop_id, dt.date_part(), true, e)
}

/// The routes to start a search from `departure_stop_id` at
/// `departure_at`: for each of the next departures there (see
/// `next_departures`), the journey taken up to the next stop where the
/// passenger can leave (see `RouteSection::find_next`), sorted by arrival.
pub fn create_initial_routes(data_storage: &DataStorage, departure_stop_id: i32, departure_at: DateTime) -> (res:
    HResult<Vec<Route>>)
    requires
        departure_at.wf(),
    ensures
        match res {
            Ok(rs) => {
                &&& initial_routes_ok(data_storage@, departure_stop_id, departure_at, rs@)
                &&& sorted_by_arrival(rs@)
                &&& forall|i: int|
                    0 <= i < rs@.len() ==> initial_route(data_storage@, departure_stop_id, departure_at, #[trigger] rs@[i])
            },
            Err(e) => initial_routes_fail(data_storage@, departure_stop_id, departure_at, e),
        },
{
    let ghost v = data_storage@;
    let deps = next_departures(data_storage, departure_stop_id, departure_at, None, None)?;
    let ghost ign = crate::routing::ignored(None);
    let mut routes: Vec<Route> = Vec::new();
    let mut i: usize = 0;
    while i < deps.len()
        invariant
            0 <= i <= deps@.len(),
            v == data_storage@,
            departures_ok(v, departure_stop_id, departure_at, ign, deps@),
            ign == Set::<u64>::empty(),
            forall|k: int|
                0 <= k < routes@.len() ==> initial_route(v, departure_stop_id, departure_at, #[trigger] routes@[k]),
            initial_routes_from(v, departure_stop_id, deps@.take(i as int), routes@),
        decreases deps@.len() - i,
    {
        let (j, dt) = deps[i];
        assert(candidate(v, departure_stop_id, departure_at, *deps@[i as int].0, deps@[i as int].1));
        let ghost pre = deps@.take(i + 1);
        assert(pre.drop_last() =~= deps@.take(i as int));
        assert(pre.last() == deps@[i as int]);
        match RouteSection::find_next(data_storage, j, departure_stop_id, dt.date(), true) {
            Ok(Some((sec, visited))) => {
                let ghost vis = visited@;
                let mut visited = visited;
                fx_set_insert(&mut visited, sec.departure_stop_id());
                let r = Route::new(vec![sec], visited);
                assert(r.sections()[0] == sec);
                assert(next_section(v, *j, departure_stop_id, dt.date_part(), true, r.sections()[0], vis));
                let ghost before = routes@;
                routes.push(r);
                assert(routes@.drop_last() =~= before);
                assert(initial_route_on(v, departure_stop_id, *j, dt, r));
                assert forall|k: int| 0 <= k < routes@.len() implies initial_route(
                    v,
                    departure_stop_id,
                    departure_at,
                    #[trigger] routes@[k],
                ) by {
                    if k < before.len() {
                        assert(routes@[k] == before[k]);
                    }
                }
            },
            Ok(None) => {},
            Err(e) => {
                return Err(e);
            },
        }
        i = i + 1;
    }
    let ghost unsorted = routes@;
    assert(deps@.take(deps@.len() as int) =~= deps@);
    sort_routes(&mut routes);
    assert(initial_routes_ok(v, departure_stop_id, departure_at, routes@));
    assert forall|k: int| 0 <= k < routes@.len() implies initial_route(
        v,
        departure_stop_id,
        departure_at,
        #[trigger] routes@[k],
    ) by {
        vstd::seq_lib::to_multiset_contains(routes@, routes@[k]);
        vstd::seq_lib::to_multiset_contains(unsorted, routes@[k]);
        let w = choose|w: int| 0 <= w < unsorted.len() && unsorted[w] == routes@[k];
        assert(initial_route(v, departure_stop_id, departure_at, unsorted[w]));
    }
    Ok(routes)
}

/// The rounds of a search that may still make `rounds` rounds, from the
/// routes `routes` and the state `i0`, `e0`, `s0` (journeys to ignore,
/// earliest arrivals, solutions) to the solutions `s1`: a round (see
/// `explore_run`) keeps connections, and the next round starts from those
/// whose journey is not ignored, sorted by arrival; the search ends when
/// none is kept or the rounds are spent, and the first round that fails
/// ends it with its error.
pub open spec fn routing_run(
    v: DataStorageView,
    args: RoutingAlgorithmArgs,
    rounds: nat,
    routes: Seq<Route>,
    i0: Set<i32>,
    e0: Map<i32, DateTime>,
    s0: Map<i32, Route>,
    s1: Map<i32, Route>,
    res: HResult<()>,
) -> bool
    decreases rounds,
{
    if rounds == 0 {
        s1 == s0 && res is Ok
    } else {
        exists|w: Seq<Route>, n: Seq<Route>, r: HResult<()>, i: Set<i32>, e: Map<i32, DateTime>, sm: Map<i32, Route>|
            #![trigger explore_run(v, args, MAXIMUM_NUMBER_OF_EXPLORED_ROUTES as nat, routes, i0, e0, s0, Seq::<Route>::empty(), w, i, e, sm, n, r)]
            explore_run(
                v,
                args,
                MAXIMUM_NUMBER_OF_EXPLORED_ROUTES as nat,
                routes,
                i0,
                e0,
                s0,
                Seq::<Route>::empty(),
                w,
                i,
                e,
                sm,
                n,
                r,
            ) && match r {
                Err(err) => res == Err::<(), HrdfError>(err) && s1 == sm,
                Ok(()) => {
                    let next = arrival_sorted(routes_kept(n, i));
                    if next.len() == 0 {
                        s1 == sm && res is Ok
                    } else {
                        routing_run(v, args, (rounds - 1) as nat, next, i, e, sm, s1, res)
                    }
                },
            }
    }
}

/// `m` are the solutions of the search from `stop_id` at `dep` (see
/// `compute_routing`): from the initial routes, the rounds of exploration
/// end without error with these solutions.
pub open spec fn routing_found(
    v: DataStorageView,
    stop_id: i32,
    dep: DateTime,
    args: RoutingAlgorithmArgs,
    m: Map<i32, Route>,
) -> bool {
    exists|rs: Seq<Route>|
        #![trigger initial_routes_ok(v, stop_id, dep, rs)]
        initial_routes_ok(v, stop_id, dep, rs) && routing_run(
            v,
            args,
            MAXIMUM_NUMBER_OF_EXPLORABLE_CONNECTIONS as nat,
            rs,
            Set::empty(),
            Map::empty(),
            Map::empty(),
            m,
            Ok::<(), HrdfError>(()),
        )
}

/// The search from `stop_id` at `dep` fails with `e`: the initial routes
/// cannot be made, or a round of exploration fails with it.
pub open spec fn routing_failed(
    v: DataStorageView,
    stop_id: i32,
    dep: DateTime,
    args: RoutingAlgorithmArgs,
    e: HrdfError,
) -> bool {
    initial_routes_fail(v, stop_id, dep, e) || exists|rs: Seq<Route>, s: Map<i32, Route>|
        #![trigger routing_run(v, args, MAXIMUM_NUMBER_OF_EXPLORABLE_CONNECTIONS as nat, rs, Set::empty(), Map::empty(), Map::empty(), s, Err::<(), HrdfError>(e))]
        initial_routes_ok(v, stop_id, dep, rs) && routing_run(
            v,
            args,
            MAXIMUM_NUMBER_OF_EXPLORABLE_CONNECTIONS as nat,
            rs,
            Set::empty(),
            Map::empty(),
            Map::empty(),
            s,
            Err::<(), HrdfError>(e),
        )
}

/// The search for the best routes from `departure_stop_id` at
/// `departure_at` (see `RoutingAlgorithmArgs`): from the initial routes (see
/// `create_initial_routes`), rounds of exploration (see `explore_routes`),
/// each starting from the connections that the round before found, until a
/// round finds none or `MAXIMUM_NUMBER_OF_EXPLORABLE_CONNECTIONS` rounds
/// are done. The result is the solutions by arrival stop: each starts at
/// `departure_stop_id` and names journeys of the storage; looking for one
/// stop, that stop is the only key, and looking for the stops reached by a
/// time limit, each solution arrives at its key by then (see `routing_run`
/// for the whole search). It fails where the initial routes cannot be made
/// or a round fails, with that error.
pub fn compute_routing(
    data_storage: &DataStorage,
    departure_stop_id: i32,
    departure_at: DateTime,
    args: RoutingAlgorithmArgs,
) -> (res: HResult<FxHashMap<i32, Route>>)
    requires
        departure_at.wf(),
    ensures
        res matches Ok(m) ==> {
            &&& solutions_resolve(data_storage@, m@)
            &&& solutions_fit(args, m@)
            &&& solutions_start_at(m@, departure_stop_id)
        },
        match res {
            Ok(m) => routing_found(data_storage@, departure_stop_id, departure_at, args, m@),
            Err(e) => routing_failed(data_storage@, departure_stop_id, departure_at, args, e),
        },
{
    let ghost v = data_storage@;
    let mut routes = create_initial_routes(data_storage, departure_stop_id, departure_at)?;
    proof {
        assert forall|k: int| 0 <= k < routes@.len() implies (#[trigger] routes@[k]).sections().len() > 0
            && crate::routing::starts_at(routes@[k], departure_stop_id) by {
            let r = routes@[k];
            let (j, dt, vis) = choose|j: Journey, dt: DateTime, visited: Set<i32>|
                candidate(v, departure_stop_id, departure_at, j, dt) && next_section(
                    v,
                    j,
                    departure_stop_id,
                    dt.date_part(),
                    true,
                    r.sections()[0],
                    visited,
                ) && r.visited() == visited.insert(departure_stop_id);
        }
    }
    let ghost rs0 = routes@;
    let mut journeys_to_ignore: HashSet<i32> = HashSet::new();
    let mut earliest_arrival_by_stop_id: HashMap<i32, DateTime> = HashMap::new();
    let mut solutions: FxHashMap<i32, Route> = fx_map_new();
    let ghost total = MAXIMUM_NUMBER_OF_EXPLORABLE_CONNECTIONS as nat;
    assert(journeys_to_ignore@ =~= Set::<i32>::empty());
    assert(earliest_arrival_by_stop_id@ =~= Map::<i32, DateTime>::empty());
    let mut i: usize = 0;
    let mut done = false;
    while i < MAXIMUM_NUMBER_OF_EXPLORABLE_CONNECTIONS && !done
        invariant
            v == data_storage@,
            initial_routes_ok(v, departure_stop_id, departure_at, rs0),
            total == MAXIMUM_NUMBER_OF_EXPLORABLE_CONNECTIONS as nat,
            done ==> routing_run(v, args, total, rs0, Set::empty(), Map::empty(), Map::empty(), solutions@, Ok::<(), HrdfError>(())),
            !done ==> forall|s1: Map<i32, Route>, r: HResult<()>|
                #[trigger] routing_run(
                    v,
                    args,
                    (total - i) as nat,
                    routes@,
                    journeys_to_ignore@,
                    earliest_arrival_by_stop_id@,
                    solutions@,
                    s1,
                    r,
                ) ==> routing_run(v, args, total, rs0, Set::empty(), Map::empty(), Map::empty(), s1, r),
            all_have_sections(routes@),
            all_start_at(routes@, departure_stop_id),
            solutions_resolve(v, solutions@),
            solutions_fit(args, solutions@),
            solutions_start_at(solutions@, departure_stop_id),
            i <= MAXIMUM_NUMBER_OF_EXPLORABLE_CONNECTIONS,
        decreases MAXIMUM_NUMBER_OF_EXPLORABLE_CONNECTIONS - i + (if done {
            0int
        } else {
            1int
        }),
    {
        let ghost r0 = routes@;
        let ghost i0 = journeys_to_ignore@;
        let ghost e0 = earliest_arrival_by_stop_id@;
        let ghost s0 = solutions@;
        let ghost left = (total - i) as nat;
        let round = explore_routes(
            data_storage,
            routes,
            &mut journeys_to_ignore,
            &mut earliest_arrival_by_stop_id,
            args,
            &mut solutions,
        );
        let ghost (w, n, r) = choose|w: Seq<Route>, n: Seq<Route>, r: HResult<()>|
            explore_run(
                v,
                args,
                MAXIMUM_NUMBER_OF_EXPLORED_ROUTES as nat,
                r0,
                i0,
                e0,
                s0,
                Seq::<Route>::empty(),
                w,
                journeys_to_ignore@,
                earliest_arrival_by_stop_id@,
                solutions@,
                n,
                r,
            ) && match round {
                Ok(rs) => r is Ok && rs@ == arrival_sorted(routes_kept(n, journeys_to_ignore@)),
                Err(e) => r == Err::<(), HrdfError>(e),
            };
        let new_routes = match round {
            Ok(rs) => rs,
            Err(e) => {
                assert(routing_run(v, args, left, r0, i0, e0, s0, solutions@, Err::<(), HrdfError>(e)));
                return Err(e);
            },
        };
        if new_routes.len() == 0 {
            assert(routing_run(v, args, left, r0, i0, e0, s0, solutions@, Ok::<(), HrdfError>(())));
            done = true;
            routes = new_routes;
        } else {
            routes = new_routes;
            i = i + 1;
            assert forall|s1: Map<i32, Route>, r1: HResult<()>|
                #[trigger] routing_run(
                    v,
                    args,
                    (total - i) as nat,
                    routes@,
                    journeys_to_ignore@,
                    earliest_arrival_by_stop_id@,
                    solutions@,
                    s1,
                    r1,
                ) implies routing_run(v, args, left, r0, i0, e0, s0, s1, r1) by {
                assert((left - 1) as nat == (total - i) as nat);
            }
        }
    }
    if !done {
        assert(routing_run(
            v,
            args,
            (total - i) as nat,
            routes@,
            journeys_to_ignore@,
            earliest_arrival_by_stop_id@,
            solutions@,
            solutions@,
            Ok::<(), HrdfError>(()),
        ));
    }
    assert(routing_run(v, args, total, rs0, Set::empty(), Map::empty(), Map::empty(), solutions@, Ok::<(), HrdfError>(())));
    assert(routing_found(v, departure_stop_id, departure_at, args, solutions@));
    Ok(solutions)
}

/// The best route from `departure_stop_id` at `departure_at` to
/// `arrival_stop_id` (see `compute_routing`), if the search finds one.
pub fn plan_journey(
    data_storage: &DataStorage,
    departure_stop_id: i32,
    arrival_stop_id: i32,
    departure_at: DateTime,
) -> (res: HResult<Option<Route>>)
    requires
        departure_at.wf(),
    ensures
        ({
            let args = RoutingAlgorithmArgs::SolveFromDepartureStopToArrivalStop(arrival_stop_id);
            match res {
                Ok(r) => exists|m: Map<i32, Route>|
                    #![trigger routing_found(data_storage@, departure_stop_id, departure_at, args, m)]
                    routing_found(data_storage@, departure_stop_id, departure_at, args, m) && r == (if m.contains_key(
                        arrival_stop_id,
                    ) {
                        Some(m[arrival_stop_id])
                    } else {
                        None
                    }),
                Err(e) => routing_failed(data_storage@, departure_stop_id, departure_at, args, e),
            }
        }),
{
    let args = RoutingAlgorithmArgs::solve_from_departure_stop_to_arrival_stop(arrival_stop_id);
    let mut solutions = compute_routing(data_storage, departure_stop_id, departure_at, args)?;
    let ghost m = solutions@;
    let r = fx_map_remove(&mut solutions, arrival_stop_id);
    assert(routing_found(data_storage@, departure_stop_id, departure_at, args, m));
    Ok(r)
}

/// The best routes from `departure_stop_id` at `departure_at` to every stop
/// reached within `time_limit` minutes (see `compute_routing`), by arrival
/// stop.
pub fn find_reachable_stops_within_time_limit(
    data_storage: &DataStorage,
    departure_stop_id: i32,
    departure_at: DateTime,
    time_limit: u32,
) -> (res: HResult<FxHashMap<i32, Route>>)
    requires
        departure_at.wf(),
        in_calendar_range(departure_at.date_part().day_number()),
        in_calendar_range(departure_at.shifted_day_number(time_limit as int)),
    ensures
        exists|limit: DateTime|
            #![trigger limit.instant()]
            limit.wf() && limit.instant() == departure_at.instant() + time_limit && match res {
                Ok(m) => routing_found(
                    data_storage@,
                    departure_stop_id,
                    departure_at,
                    RoutingAlgorithmArgs::SolveFromDepartureStopToReachableArrivalStops(limit),
                    m@,
                ),
                Err(e) => routing_failed(
                    data_storage@,
                    departure_stop_id,
                    departure_at,
                    RoutingAlgorithmArgs::SolveFromDepartureStopToReachableArrivalStops(limit),
                    e,
                ),
            },
{
    let limit = match departure_at.checked_add_minutes(time_limit) {
        Some(l) => l,
        None => {
            assert(false);
            departure_at
        },
    };
    let args = RoutingAlgorithmArgs::solve_from_departure_stop_to_reachable_arrival_stops(limit);
    let res = compute_routing(data_storage, departure_stop_id, departure_at, args);
    assert(limit.wf() && limit.instant() == departure_at.instant() + time_limit);
    res
}

} // verus!
