//! The best routes found so far, by arrival stop, and whether the search
//! should go on from a route.
use crate::calendar::DateTime;
use crate::error::{HResult, HrdfError};
use crate::fxmap::{fx_map_get, fx_map_insert, fx_set_contains};
use crate::journey::{section_entries, JourneyRouteEntry};
use crate::routing::{
    arrival_updated, can_improve_solution, clone_route, has_journey, improves, is_improving_solution,
    journey_sections, lemma_updated_starts, section_resolves, starts_at, update_arrival_stop, Route,
    RouteSection,
};
use crate::storage::{DataStorage, DataStorageView};
use rustc_hash::FxHashMap;
use vstd::prelude::*;

verus! {

/// Every section of the route that is on a journey names a journey of the
/// storage, and the route has a section.
pub open spec fn route_resolves(v: DataStorageView, r: Route) -> bool {
    &&& r.sections().len() > 0
    &&& forall|i: int|
        0 <= i < r.sections().len() && has_journey(#[trigger] r.sections()[i]) ==> section_resolves(
            v,
            r.sections()[i],
        )
}

/// Every solution resolves.
pub open spec fn solutions_resolve(v: DataStorageView, m: Map<i32, Route>) -> bool {
    forall|k: i32| #[trigger] m.contains_key(k) ==> route_resolves(v, m[k])
}

/// The sections of a route on a journey resolve when all of its sections on
/// a journey do.
proof fn lemma_journey_sections_resolve(v: DataStorageView, r: Route)
    requires
        route_resolves(v, r),
    ensures
        forall|i: int|
            0 <= i < journey_sections(r).len() ==> section_resolves(v, #[trigger] journey_sections(r)[i]),
{
    assert forall|i: int| 0 <= i < journey_sections(r).len() implies section_resolves(
        v,
        #[trigger] journey_sections(r)[i],
    ) by {
        let s = journey_sections(r)[i];
        r.sections().lemma_filter_pred(|s: RouteSection| has_journey(s), i);
        assert(journey_sections(r).contains(s));
        r.sections().lemma_filter_contains_rev(|s: RouteSection| has_journey(s), s);
        assert(r.sections().contains(s));
        let k = choose|k: int| 0 <= k < r.sections().len() && r.sections()[k] == s;
        assert(has_journey(r.sections()[k]));
    }
}

/// A route whose last section now ends elsewhere, on the same journey,
/// still resolves.
proof fn lemma_updated_resolves(v: DataStorageView, r: Route, arrival_stop_id: i32, c: Route)
    requires
        route_resolves(v, r),
        arrival_updated(v, r, arrival_stop_id, Ok::<Route, HrdfError>(c)),
    ensures
        route_resolves(v, c),
{
    let n = r.sections().len();
    assert forall|i: int| 0 <= i < c.sections().len() && has_journey(#[trigger] c.sections()[i]) implies section_resolves(
        v,
        c.sections()[i],
    ) by {
        if i < n - 1 {
            assert(c.sections()[i] == r.sections()[i]);
        } else {
            assert(c.sections()[i].spec_journey_id() == r.sections()[n - 1].spec_journey_id());
            assert(has_journey(r.sections()[n - 1]));
        }
    }
}

/// The candidate that `route` makes at `arrival_stop_id`: the route itself
/// after a walk, else the route with its last section ended there.
pub open spec fn candidate_for(v: DataStorageView, route: Route, arrival_stop_id: i32, c: Route) -> bool {
    if route.sections().last().spec_journey_id() is None {
        c.sections() == route.sections() && c.visited() == route.visited()
    } else {
        arrival_updated(v, route, arrival_stop_id, Ok::<Route, HrdfError>(c))
    }
}

/// What `can_continue_exploration_one_to_one` does with `route` (see
/// there): `before` and `after` are the solutions before and after.
pub open spec fn one_to_one_outcome(
    v: DataStorageView,
    route: Route,
    before: Map<i32, Route>,
    after: Map<i32, Route>,
    arrival_stop_id: i32,
    res: HResult<bool>,
) -> bool {
    let sol = if before.contains_key(arrival_stop_id) {
        Some(before[arrival_stop_id])
    } else {
        None
    };
    if !route.visited().contains(arrival_stop_id) {
        &&& res == Ok::<bool, HrdfError>(
            match sol {
                None => true,
                Some(s) => !s.arrival().precedes(route.arrival()),
            },
        )
        &&& after == before
    } else {
        match res {
            Ok(b) => !b && ({
                ||| (after == before.insert(arrival_stop_id, after[arrival_stop_id]) && candidate_for(
                    v,
                    route,
                    arrival_stop_id,
                    after[arrival_stop_id],
                ) && improves(v, after[arrival_stop_id], sol))
                ||| (after == before && exists|c: Route|
                    #![trigger candidate_for(v, route, arrival_stop_id, c)]
                    candidate_for(v, route, arrival_stop_id, c) && !improves(v, c, sol))
            }),
            Err(e) => route.sections().last().spec_journey_id() is Some && arrival_updated(
                v,
                route,
                arrival_stop_id,
                Err::<Route, HrdfError>(e),
            ) && after == before,
        }
    }
}

/// Looking for the best route to `arrival_stop_id`: where `route` has not
/// reached it, whether it can still beat the solution (it arrives no later);
/// where it has, the route (ended at that stop) replaces the solution if it
/// is better, and the search does not go on from it.
pub fn can_continue_exploration_one_to_one(
    data_storage: &DataStorage,
    route: &Route,
    solutions: &mut FxHashMap<i32, Route>,
    arrival_stop_id: i32,
) -> (res: HResult<bool>)
    requires
        route_resolves(data_storage@, *route),
        solutions_resolve(data_storage@, old(solutions)@),
    ensures
        solutions_resolve(data_storage@, final(solutions)@),
        one_to_one_outcome(data_storage@, *route, old(solutions)@, final(solutions)@, arrival_stop_id, res),
{
    let ghost v = data_storage@;
    let solution = fx_map_get(solutions, arrival_stop_id);
    if !fx_set_contains(route.visited_stops(), arrival_stop_id) {
        return Ok(can_improve_solution(route, solution));
    }
    let candidate = if route.last_route_section().journey_id().is_none() {
        clone_route(route)
    } else {
        proof {
            assert(has_journey(route.sections()[route.sections().len() - 1]));
        }
        let c = match update_arrival_stop(data_storage, clone_route(route), arrival_stop_id) {
            Ok(c) => c,
            Err(e) => {
                return Err(e);
            },
        };
        proof {
            lemma_updated_resolves(v, *route, arrival_stop_id, c);
        }
        c
    };
    proof {
        lemma_journey_sections_resolve(v, candidate);
        if solution is Some {
            lemma_journey_sections_resolve(v, *solution->0);
        }
    }
    let ghost sol_view = match solution {
        None => None,
        Some(s) => Some(*s),
    };
    if is_improving_solution(data_storage, &candidate, solution) {
        fx_map_insert(solutions, arrival_stop_id, candidate);
    } else {
        assert(candidate_for(v, *route, arrival_stop_id, candidate) && !improves(v, candidate, sol_view));
    }
    Ok(false)
}

/// The solutions after looking at candidate `c`: it replaces the solution
/// at its arrival stop where it arrives by `time_limit` and is better.
pub open spec fn evaluated(v: DataStorageView, m: Map<i32, Route>, c: Route, time_limit: DateTime) -> Map<i32, Route> {
    let stop = c.sections().last().spec_arrival_stop_id();
    let sol = if m.contains_key(stop) {
        Some(m[stop])
    } else {
        None
    };
    if time_limit.precedes(c.arrival()) {
        m
    } else if improves(v, c, sol) {
        m.insert(stop, c)
    } else {
        m
    }
}

/// The solutions after looking at the candidates in order.
pub open spec fn evaluated_all(v: DataStorageView, m: Map<i32, Route>, cs: Seq<Route>, time_limit: DateTime) -> Map<
    i32,
    Route,
>
    decreases cs.len(),
{
    if cs.len() == 0 {
        m
    } else {
        evaluated(v, evaluated_all(v, m, cs.drop_last(), time_limit), cs.last(), time_limit)
    }
}

/// Looks at a candidate (see `evaluated`).
fn evaluate_candidate(
    data_storage: &DataStorage,
    candidate: Route,
    solutions: &mut FxHashMap<i32, Route>,
    time_limit: DateTime,
)
    requires
        route_resolves(data_storage@, candidate),
        solutions_resolve(data_storage@, old(solutions)@),
    ensures
        solutions_resolve(data_storage@, final(solutions)@),
        final(solutions)@ == evaluated(data_storage@, old(solutions)@, candidate, time_limit),
{
    if time_limit.is_before(&candidate.arrival_at()) {
        return;
    }
    let arrival_stop_id = candidate.last_route_section().arrival_stop_id();
    let solution = fx_map_get(solutions, arrival_stop_id);
    proof {
        lemma_journey_sections_resolve(data_storage@, candidate);
        if solution is Some {
            lemma_journey_sections_resolve(data_storage@, *solution->0);
        }
    }
    if is_improving_solution(data_storage, &candidate, solution) {
        fx_map_insert(solutions, arrival_stop_id, candidate);
    }
}

/// What `can_continue_exploration_one_to_many` does with `route` (see
/// there): `before` and `after` are the solutions before and after.
pub open spec fn one_to_many_outcome(
    v: DataStorageView,
    route: Route,
    before: Map<i32, Route>,
    after: Map<i32, Route>,
    time_limit: DateTime,
    res: HResult<bool>,
) -> bool {
    let last = route.sections().last();
    match res {
        Ok(b) => {
            &&& b == route.arrival().precedes(time_limit)
            &&& if last.spec_journey_id() is None {
                exists|c: Route|
                    #![trigger evaluated(v, before, c, time_limit)]
                    c.sections() == route.sections() && c.visited() == route.visited()
                        && after == evaluated(v, before, c, time_limit)
            } else {
                let entries = section_entries(
                    v.journeys[last.spec_journey_id()->0].route_view(),
                    last.spec_departure_stop_id(),
                    last.spec_arrival_stop_id(),
                );
                exists|cs: Seq<Route>|
                    #![trigger evaluated_all(v, before, cs, time_limit)]
                    cs.len() == entries.len() && (forall|k: int|
                        0 <= k < cs.len() ==> arrival_updated(
                            v,
                            route,
                            (#[trigger] entries[k]).spec_stop_id(),
                            Ok::<Route, HrdfError>(cs[k]),
                        )) && after == evaluated_all(v, before, cs, time_limit)
            }
        },
        Err(e) => last.spec_journey_id() is Some && exists|k: int|
            0 <= k < section_entries(
                v.journeys[last.spec_journey_id()->0].route_view(),
                last.spec_departure_stop_id(),
                last.spec_arrival_stop_id(),
            ).len() && arrival_updated(
                v,
                route,
                (#[trigger] section_entries(
                    v.journeys[last.spec_journey_id()->0].route_view(),
                    last.spec_departure_stop_id(),
                    last.spec_arrival_stop_id(),
                )[k]).spec_stop_id(),
                Err::<Route, HrdfError>(e),
            ),
    }
}

/// Looking for the best routes to every stop reachable by `time_limit`:
/// after a walk, the route itself is a candidate; on a journey, the route
/// ended at each stop of its last section (after the boarding stop) is one,
/// in the order of the journey. Each candidate that arrives by `time_limit`
/// replaces the solution at its stop where it is better. The search goes on
/// from the route while its last section arrives before `time_limit`.
pub fn can_continue_exploration_one_to_many(
    data_storage: &DataStorage,
    route: &Route,
    solutions: &mut FxHashMap<i32, Route>,
    time_limit: DateTime,
) -> (res: HResult<bool>)
    requires
        route_resolves(data_storage@, *route),
        solutions_resolve(data_storage@, old(solutions)@),
    ensures
        solutions_resolve(data_storage@, final(solutions)@),
        one_to_many_outcome(data_storage@, *route, old(solutions)@, final(solutions)@, time_limit, res),
{
    let ghost v = data_storage@;
    let ghost start = solutions@;
    let last = *route.last_route_section();
    if last.journey_id().is_none() {
        let c = clone_route(route);
        evaluate_candidate(data_storage, c, solutions, time_limit);
        assert(c.sections() == route.sections() && c.visited() == route.visited() && solutions@ == evaluated(
            v,
            start,
            c,
            time_limit,
        ));
    } else {
        assert(has_journey(route.sections()[route.sections().len() - 1]));
        let journey = match last.journey(data_storage) {
            Some(j) => j,
            None => {
                assert(false);
                return Ok(false);
            },
        };
        let entries: Vec<JourneyRouteEntry> = journey.route_section(
            last.departure_stop_id(),
            last.arrival_stop_id(),
        );
        let ghost mut cs: Seq<Route> = Seq::empty();
        let mut i: usize = 0;
        while i < entries.len()
            invariant
                0 <= i <= entries@.len(),
                v == data_storage@,
                route_resolves(v, *route),
                last == route.sections().last(),
                last.spec_journey_id() is Some,
                entries@ == section_entries(
                    v.journeys[last.spec_journey_id()->0].route_view(),
                    last.spec_departure_stop_id(),
                    last.spec_arrival_stop_id(),
                ),
                cs.len() == i,
                forall|k: int|
                    0 <= k < i ==> arrival_updated(
                        v,
                        *route,
                        (#[trigger] entries@[k]).spec_stop_id(),
                        Ok::<Route, HrdfError>(cs[k]),
                    ),
                solutions_resolve(v, solutions@),
                solutions@ == evaluated_all(v, start, cs, time_limit),
                start == old(solutions)@,
            decreases entries@.len() - i,
        {
            let stop = entries[i].stop_id();
            assert(has_journey(route.sections()[route.sections().len() - 1]));
            let candidate = match update_arrival_stop(data_storage, clone_route(route), stop) {
                Ok(c) => c,
                Err(e) => {
                    return Err(e);
                },
            };
            proof {
                lemma_updated_resolves(v, *route, stop, candidate);
            }
            evaluate_candidate(data_storage, candidate, solutions, time_limit);
            proof {
                let cs2 = cs.push(candidate);
                assert(cs2.drop_last() =~= cs);
                cs = cs2;
            }
            i = i + 1;
        }
        assert(cs.len() == entries@.len());
    }
    Ok(route.arrival_at().is_before(&time_limit))
}

/// What the search for routes looks for.
#[derive(Clone, Copy, Debug)]
pub enum RoutingAlgorithmArgs {
    /// The best route to this stop.
    SolveFromDepartureStopToArrivalStop(i32),
    /// The best routes to every stop reached by this instant.
    SolveFromDepartureStopToReachableArrivalStops(DateTime),
}

impl RoutingAlgorithmArgs {
    /// Looking for the best route to `arrival_stop_id`.
    pub fn solve_from_departure_stop_to_arrival_stop(arrival_stop_id: i32) -> (res: RoutingAlgorithmArgs)
        ensures
            res == RoutingAlgorithmArgs::SolveFromDepartureStopToArrivalStop(arrival_stop_id),
    {
        RoutingAlgorithmArgs::SolveFromDepartureStopToArrivalStop(arrival_stop_id)
    }

    /// Looking for the best routes to every stop reached by `time_limit`.
    pub fn solve_from_departure_stop_to_reachable_arrival_stops(time_limit: DateTime) -> (res:
        RoutingAlgorithmArgs)
        ensures
            res == RoutingAlgorithmArgs::SolveFromDepartureStopToReachableArrivalStops(time_limit),
    {
        RoutingAlgorithmArgs::SolveFromDepartureStopToReachableArrivalStops(time_limit)
    }
}

/// What `can_continue_exploration` does with `route`, by what the search
/// looks for.
pub open spec fn continue_outcome(
    v: DataStorageView,
    route: Route,
    before: Map<i32, Route>,
    after: Map<i32, Route>,
    args: RoutingAlgorithmArgs,
    res: HResult<bool>,
) -> bool {
    match args {
        RoutingAlgorithmArgs::SolveFromDepartureStopToArrivalStop(a) => one_to_one_outcome(
            v,
            route,
            before,
            after,
            a,
            res,
        ),
        RoutingAlgorithmArgs::SolveFromDepartureStopToReachableArrivalStops(t) => one_to_many_outcome(
            v,
            route,
            before,
            after,
            t,
            res,
        ),
    }
}

/// Whether the search goes on from `route`, updating the solutions on the
/// way: `can_continue_exploration_one_to_one` or
/// `can_continue_exploration_one_to_many`, by what the search looks for.
pub fn can_continue_exploration(
    data_storage: &DataStorage,
    route: &Route,
    solutions: &mut FxHashMap<i32, Route>,
    args: RoutingAlgorithmArgs,
) -> (res: HResult<bool>)
    requires
        route_resolves(data_storage@, *route),
        solutions_resolve(data_storage@, old(solutions)@),
    ensures
        solutions_resolve(data_storage@, final(solutions)@),
        continue_outcome(data_storage@, *route, old(solutions)@, final(solutions)@, args, res),
{
    match args {
        RoutingAlgorithmArgs::SolveFromDepartureStopToArrivalStop(a) => can_continue_exploration_one_to_one(
            data_storage,
            route,
            solutions,
            a,
        ),
        RoutingAlgorithmArgs::SolveFromDepartureStopToReachableArrivalStops(
            t,
        ) => can_continue_exploration_one_to_many(data_storage, route, solutions, t),
    }
}

/// The solutions fit what the search looks for: looking for one stop, that
/// stop is the only key; looking for the stops reached by a time limit, each
/// solution arrives at its key by then.
pub open spec fn solutions_fit(args: RoutingAlgorithmArgs, m: Map<i32, Route>) -> bool {
    match args {
        RoutingAlgorithmArgs::SolveFromDepartureStopToArrivalStop(a) => forall|k: i32|
            #[trigger] m.contains_key(k) ==> k == a,
        RoutingAlgorithmArgs::SolveFromDepartureStopToReachableArrivalStops(t) => forall|k: i32|
            #[trigger] m.contains_key(k) ==> m[k].sections().len() > 0
                && m[k].sections().last().spec_arrival_stop_id() == k && !t.precedes(m[k].arrival()),
    }
}

/// No solution is lost, and none arrives later than before.
pub open spec fn no_worse(before: Map<i32, Route>, after: Map<i32, Route>) -> bool {
    forall|k: i32|
        #[trigger] before.contains_key(k) ==> after.contains_key(k) && !before[k].arrival().precedes(
            after[k].arrival(),
        )
}

/// Every solution that is new or changed starts at `stop_id`.
pub open spec fn changed_start_at(before: Map<i32, Route>, after: Map<i32, Route>, stop_id: i32) -> bool {
    forall|k: i32|
        #[trigger] after.contains_key(k) ==> (before.contains_key(k) && after[k] == before[k]) || starts_at(
            after[k],
            stop_id,
        )
}

/// Solutions that got no worse twice got no worse.
pub proof fn lemma_no_worse_transitive(a: Map<i32, Route>, b: Map<i32, Route>, c: Map<i32, Route>)
    requires
        no_worse(a, b),
        no_worse(b, c),
    ensures
        no_worse(a, c),
{
    assert forall|k: i32| #[trigger] a.contains_key(k) implies c.contains_key(k) && !a[k].arrival().precedes(
        c[k].arrival(),
    ) by {
        assert(b.contains_key(k));
    }
}

/// Looking at candidates in order loses no solution, makes none arrive
/// later, and only puts in candidates that arrive at their key by the time
/// limit.
proof fn lemma_evaluated_all(v: DataStorageView, m: Map<i32, Route>, cs: Seq<Route>, t: DateTime)
    ensures
        no_worse(m, evaluated_all(v, m, cs, t)),
        forall|k: i32|
            #[trigger] evaluated_all(v, m, cs, t).contains_key(k) ==> (m.contains_key(k)
                && evaluated_all(v, m, cs, t)[k] == m[k]) || exists|i: int|
                0 <= i < cs.len() && evaluated_all(v, m, cs, t)[k] == cs[i]
                    && k == cs[i].sections().last().spec_arrival_stop_id() && !t.precedes(cs[i].arrival()),
    decreases cs.len(),
{
    if cs.len() > 0 {
        let prev = evaluated_all(v, m, cs.drop_last(), t);
        lemma_evaluated_all(v, m, cs.drop_last(), t);
        let c = cs.last();
        let m2 = evaluated(v, prev, c, t);
        assert(m2 == evaluated_all(v, m, cs, t));
        assert(no_worse(prev, m2));
        lemma_no_worse_transitive(m, prev, m2);
        assert forall|k: i32| #[trigger] m2.contains_key(k) implies (m.contains_key(k) && m2[k] == m[k])
            || exists|i: int|
            0 <= i < cs.len() && m2[k] == cs[i] && k == cs[i].sections().last().spec_arrival_stop_id()
                && !t.precedes(cs[i].arrival()) by {
            if m2[k] == c && k == c.sections().last().spec_arrival_stop_id() && !t.precedes(c.arrival()) {
                assert(cs[cs.len() - 1] == c);
            } else {
                assert(prev.contains_key(k) && m2[k] == prev[k]);
                if !(m.contains_key(k) && prev[k] == m[k]) {
                    let i = choose|i: int|
                        0 <= i < cs.drop_last().len() && prev[k] == cs.drop_last()[i]
                            && k == cs.drop_last()[i].sections().last().spec_arrival_stop_id()
                            && !t.precedes(cs.drop_last()[i].arrival());
                    assert(cs[i] == cs.drop_last()[i]);
                }
            }
        }
    }
}

/// What one step of the search does to the solutions: it keeps them
/// fitting what the search looks for, loses none, makes none arrive later,
/// and every solution it puts in starts where `route` starts.
pub proof fn lemma_continue_outcome(
    v: DataStorageView,
    route: Route,
    before: Map<i32, Route>,
    after: Map<i32, Route>,
    args: RoutingAlgorithmArgs,
    res: HResult<bool>,
)
    requires
        route.sections().len() > 0,
        continue_outcome(v, route, before, after, args, res),
        res is Ok,
    ensures
        solutions_fit(args, before) ==> solutions_fit(args, after),
        no_worse(before, after),
        forall|s: i32| starts_at(route, s) ==> changed_start_at(before, after, s),
{
    match args {
        RoutingAlgorithmArgs::SolveFromDepartureStopToArrivalStop(a) => {
            if route.visited().contains(a) && after != before {
                let c = after[a];
                assert(after == before.insert(a, c));
                if route.sections().last().spec_journey_id() is Some {
                    lemma_updated_starts(v, route, a, c);
                }
            }
        },
        RoutingAlgorithmArgs::SolveFromDepartureStopToReachableArrivalStops(t) => {
            let last = route.sections().last();
            if last.spec_journey_id() is None {
                let c = choose|c: Route|
                    c.sections() == route.sections() && c.visited() == route.visited() && after == evaluated(
                        v,
                        before,
                        c,
                        t,
                    );
                assert(evaluated_all(v, before, seq![c], t) == after) by {
                    assert(seq![c].drop_last() =~= Seq::<Route>::empty());
                    assert(evaluated_all(v, before, Seq::<Route>::empty(), t) == before);
                    assert(seq![c].last() == c);
                }
                lemma_evaluated_all(v, before, seq![c], t);
                assert forall|s: i32| starts_at(route, s) implies changed_start_at(before, after, s) by {
                    assert forall|k: i32| #[trigger] after.contains_key(k) implies (before.contains_key(k)
                        && after[k] == before[k]) || starts_at(after[k], s) by {
                        if !(before.contains_key(k) && after[k] == before[k]) {
                            assert(seq![c][0] == c);
                        }
                    }
                }
            } else {
                let entries = crate::journey::section_entries(
                    v.journeys[last.spec_journey_id()->0].route_view(),
                    last.spec_departure_stop_id(),
                    last.spec_arrival_stop_id(),
                );
                let cs = choose|cs: Seq<Route>|
                    cs.len() == entries.len() && (forall|k: int|
                        0 <= k < cs.len() ==> arrival_updated(
                            v,
                            route,
                            (#[trigger] entries[k]).spec_stop_id(),
                            Ok::<Route, HrdfError>(cs[k]),
                        )) && after == evaluated_all(v, before, cs, t);
                lemma_evaluated_all(v, before, cs, t);
                assert forall|i: int| 0 <= i < cs.len() implies (#[trigger] cs[i]).sections().len() > 0
                    && forall|s: i32| starts_at(route, s) ==> starts_at(cs[i], s) by {
                    assert(arrival_updated(v, route, entries[i].spec_stop_id(), Ok::<Route, HrdfError>(cs[i])));
                    lemma_updated_starts(v, route, entries[i].spec_stop_id(), cs[i]);
                }
            }
        },
    }
}

} // verus!
