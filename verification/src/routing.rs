//! Routes through the network: sections on journeys (or on foot), and the
//! order in which routes are explored.
use crate::calendar::{Date, DateTime, Time};
use crate::fxmap::{fx_map_get, fx_set_contains, fx_set_elements, fx_set_insert, fx_set_new};
use crate::journey::{
    arrival_time_spec, arrival_with_origin, departure_time_spec, find_stop, shift_reachable, Journey,
    JourneyRouteEntry,
};
use crate::storage::{DataStorage, DataStorageView};
use crate::error::{HResult, HrdfError, JourneyError};
use crate::utils::{add_1_day, sub_1_day};
use rustc_hash::FxHashSet;
use vstd::prelude::*;

verus! {

/// A leg of a route: on a journey, or on foot where there is no journey.
#[derive(Clone, Copy, Debug)]
pub struct RouteSection {
    journey_id: Option<i32>,
    departure_stop_id: i32,
    arrival_stop_id: i32,
    arrival_at: DateTime,
    duration: Option<i16>,
}

impl RouteSection {
    pub closed spec fn spec_journey_id(self) -> Option<i32> {
        self.journey_id
    }

    pub closed spec fn spec_departure_stop_id(self) -> i32 {
        self.departure_stop_id
    }

    pub closed spec fn spec_arrival_stop_id(self) -> i32 {
        self.arrival_stop_id
    }

    pub closed spec fn spec_arrival_at(self) -> DateTime {
        self.arrival_at
    }

    pub closed spec fn spec_duration(self) -> Option<i16> {
        self.duration
    }

    /// A section.
    pub fn new(
        journey_id: Option<i32>,
        departure_stop_id: i32,
        arrival_stop_id: i32,
        arrival_at: DateTime,
        duration: Option<i16>,
    ) -> (res: RouteSection)
        ensures
            res.spec_journey_id() == journey_id,
            res.spec_departure_stop_id() == departure_stop_id,
            res.spec_arrival_stop_id() == arrival_stop_id,
            res.spec_arrival_at() == arrival_at,
            res.spec_duration() == duration,
    {
        RouteSection { journey_id, departure_stop_id, arrival_stop_id, arrival_at, duration }
    }

    /// The journey, if the section is on one.
    pub fn journey_id(&self) -> (res: Option<i32>)
        ensures
            res == self.spec_journey_id(),
    {
        self.journey_id
    }

    /// Where the section starts.
    pub fn departure_stop_id(&self) -> (res: i32)
        ensures
            res == self.spec_departure_stop_id(),
    {
        self.departure_stop_id
    }

    /// Where the section ends.
    pub fn arrival_stop_id(&self) -> (res: i32)
        ensures
            res == self.spec_arrival_stop_id(),
    {
        self.arrival_stop_id
    }

    /// Moves the end of the section.
    pub fn set_arrival_stop_id(&mut self, value: i32)
        ensures
            final(self).spec_arrival_stop_id() == value,
            final(self).spec_journey_id() == old(self).spec_journey_id(),
            final(self).spec_departure_stop_id() == old(self).spec_departure_stop_id(),
            final(self).spec_arrival_at() == old(self).spec_arrival_at(),
            final(self).spec_duration() == old(self).spec_duration(),
    {
        self.arrival_stop_id = value;
    }

    /// When the section ends.
    pub fn arrival_at(&self) -> (res: DateTime)
        ensures
            res == self.spec_arrival_at(),
    {
        self.arrival_at
    }

    /// Changes when the section ends.
    pub fn set_arrival_at(&mut self, value: DateTime)
        ensures
            final(self).spec_arrival_at() == value,
            final(self).spec_journey_id() == old(self).spec_journey_id(),
            final(self).spec_departure_stop_id() == old(self).spec_departure_stop_id(),
            final(self).spec_arrival_stop_id() == old(self).spec_arrival_stop_id(),
            final(self).spec_duration() == old(self).spec_duration(),
    {
        self.arrival_at = value;
    }

    /// The walking time of a section on foot, in minutes.
    pub fn duration(&self) -> (res: Option<i16>)
        ensures
            res == self.spec_duration(),
    {
        self.duration
    }

    /// The journey of the section, where it has one and the storage holds it.
    pub fn journey<'a>(&self, data_storage: &'a DataStorage) -> (res: Option<&'a Journey>)
        ensures
            match self.spec_journey_id() {
                None => res is None,
                Some(id) => match res {
                    Some(j) => data_storage@.journeys.contains_key(id) && *j
                        == data_storage@.journeys[id],
                    None => !data_storage@.journeys.contains_key(id),
                },
            },
    {
        match self.journey_id {
            Some(id) => data_storage.journeys().find(id),
            None => None,
        }
    }
}

/// A route: its sections in order, and the stops it has passed.
pub struct Route {
    route_sections: Vec<RouteSection>,
    visited_stops: FxHashSet<i32>,
}

/// Whether the section is on a journey.
pub open spec fn has_journey(s: RouteSection) -> bool {
    s.spec_journey_id() is Some
}

impl Route {
    pub closed spec fn sections(self) -> Seq<RouteSection> {
        self.route_sections@
    }

    pub closed spec fn visited(self) -> Set<i32> {
        self.visited_stops@
    }

    /// When the route arrives: the end of its last section.
    pub open spec fn arrival(self) -> DateTime {
        self.sections().last().spec_arrival_at()
    }

    /// A route.
    pub fn new(route_sections: Vec<RouteSection>, visited_stops: FxHashSet<i32>) -> (res: Route)
        ensures
            res.sections() == route_sections@,
            res.visited() == visited_stops@,
    {
        Route { route_sections, visited_stops }
    }

    /// The sections, in order.
    pub fn route_sections(&self) -> (res: &Vec<RouteSection>)
        ensures
            res@ == self.sections(),
    {
        &self.route_sections
    }

    /// The stops passed.
    pub fn visited_stops(&self) -> (res: &FxHashSet<i32>)
        ensures
            res@ == self.visited(),
    {
        &self.visited_stops
    }

    /// The last section.
    pub fn last_route_section(&self) -> (res: &RouteSection)
        requires
            self.sections().len() > 0,
        ensures
            *res == self.sections().last(),
    {
        &self.route_sections[self.route_sections.len() - 1]
    }

    /// Where the route arrives.
    pub fn arrival_stop_id(&self) -> (res: i32)
        requires
            self.sections().len() > 0,
        ensures
            res == self.sections().last().spec_arrival_stop_id(),
    {
        self.last_route_section().arrival_stop_id()
    }

    /// When the route arrives.
    pub fn arrival_at(&self) -> (res: DateTime)
        requires
            self.sections().len() > 0,
        ensures
            res == self.arrival(),
    {
        self.last_route_section().arrival_at()
    }

    /// Whether the route has passed one of `stops`.
    pub fn has_visited_any_stops(&self, stops: &FxHashSet<i32>) -> (res: bool)
        ensures
            res == exists|s: i32| self.visited().contains(s) && stops@.contains(s),
    {
        let elems = fx_set_elements(&self.visited_stops);
        let mut i: usize = 0;
        while i < elems.len()
            invariant
                0 <= i <= elems@.len(),
                elems@.to_set() == self.visited(),
                forall|j: int| 0 <= j < i ==> !stops@.contains(#[trigger] elems@[j]),
            decreases elems@.len() - i,
        {
            if fx_set_contains(stops, elems[i]) {
                assert(elems@.to_set().contains(elems@[i as int]));
                return true;
            }
            i = i + 1;
        }
        proof {
            assert forall|s: i32| self.visited().contains(s) implies !stops@.contains(s) by {
                assert(elems@.to_set().contains(s));
                let j = choose|j: int| 0 <= j < elems@.len() && elems@[j] == s;
            }
        }
        false
    }

    /// The sections on a journey, in order.
    pub fn route_sections_with_existing_journey(&self) -> (res: Vec<&RouteSection>)
        ensures
            res@.len() == self.sections().filter(|s: RouteSection| has_journey(s)).len(),
            forall|i: int|
                0 <= i < res@.len() ==> *res@[i] == self.sections().filter(
                    |s: RouteSection| has_journey(s),
                )[i],
    {
        let ghost keep = |s: RouteSection| has_journey(s);
        let ghost all = self.route_sections@;
        let mut res: Vec<&RouteSection> = Vec::new();
        let mut i: usize = 0;
        while i < self.route_sections.len()
            invariant
                0 <= i <= all.len(),
                all == self.route_sections@,
                keep == (|s: RouteSection| has_journey(s)),
                res@.len() == all.subrange(0, i as int).filter(keep).len(),
                forall|j: int|
                    0 <= j < res@.len() ==> *res@[j] == all.subrange(0, i as int).filter(keep)[j],
            decreases all.len() - i,
        {
            let s = &self.route_sections[i];
            proof {
                all.subrange(0, i as int).lemma_filter_push(*s, keep);
                assert(all.subrange(0, i as int).push(*s) =~= all.subrange(0, i + 1));
            }
            if s.journey_id().is_some() {
                res.push(s);
            }
            i = i + 1;
        }
        assert(all.subrange(0, all.len() as int) =~= all);
        res
    }

    /// The number of sections on a journey.
    pub fn count_connections(&self) -> (res: usize)
        ensures
            res == self.sections().filter(|s: RouteSection| has_journey(s)).len(),
    {
        self.route_sections_with_existing_journey().len()
    }
}

/// Every route has a section.
pub open spec fn all_have_sections(rs: Seq<Route>) -> bool {
    forall|i: int| 0 <= i < rs.len() ==> (#[trigger] rs[i]).sections().len() > 0
}

/// `a` arrives strictly before `b`.
pub open spec fn arrives_before(a: Route, b: Route) -> bool {
    a.arrival().precedes(b.arrival())
}

/// No route arrives strictly before one that comes earlier.
pub open spec fn sorted_by_arrival(rs: Seq<Route>) -> bool {
    forall|i: int, j: int| 0 <= i < j < rs.len() ==> !arrives_before(#[trigger] rs[j], #[trigger] rs[i])
}

/// `i` is where `r` goes among `rs`: before the first route that `r`
/// arrives strictly before, at the end if there is none.
pub open spec fn insert_index(rs: Seq<Route>, r: Route, i: int) -> bool {
    &&& 0 <= i <= rs.len()
    &&& forall|j: int| 0 <= j < i ==> !arrives_before(r, #[trigger] rs[j])
    &&& i < rs.len() ==> arrives_before(r, rs[i])
}

/// There is one place to insert a route.
pub proof fn lemma_insert_index_unique(rs: Seq<Route>, r: Route, i: int, j: int)
    requires
        insert_index(rs, r, i),
        insert_index(rs, r, j),
    ensures
        i == j,
{
    if i < j {
        assert(!arrives_before(r, rs[i]));
    } else if j < i {
        assert(!arrives_before(r, rs[j]));
    }
}

/// Inserting a route at its place keeps routes sorted by arrival.
pub proof fn lemma_insert_keeps_sorted(rs: Seq<Route>, r: Route, i: int)
    requires
        sorted_by_arrival(rs),
        insert_index(rs, r, i),
    ensures
        sorted_by_arrival(rs.insert(i, r)),
{
    let t = rs.insert(i, r);
    assert forall|a: int, b: int| 0 <= a < b < t.len() implies !arrives_before(
        #[trigger] t[b],
        #[trigger] t[a],
    ) by {
        if a < i && b < i {
            assert(t[a] == rs[a] && t[b] == rs[b]);
        } else if a < i && b == i {
            assert(t[a] == rs[a]);
        } else if a < i {
            assert(t[a] == rs[a] && t[b] == rs[b - 1]);
            assert(!arrives_before(r, rs[a]));
            assert(arrives_before(r, rs[i]));
            assert(!arrives_before(rs[b - 1], rs[i]) || b - 1 == i);
        } else if a == i {
            assert(t[b] == rs[b - 1]);
            assert(arrives_before(r, rs[i]));
            assert(!arrives_before(rs[b - 1], rs[i]) || b - 1 == i);
        } else {
            assert(t[a] == rs[a - 1] && t[b] == rs[b - 1]);
        }
    }
}

/// Inserts a route before the first route that it arrives strictly before
/// (at the end if there is none).
pub fn sorted_insert(routes: &mut Vec<Route>, route_to_insert: Route)
    requires
        all_have_sections(old(routes)@),
        route_to_insert.sections().len() > 0,
    ensures
        exists|i: int|
            insert_index(old(routes)@, route_to_insert, i) && final(routes)@ == old(routes)@.insert(
                i,
                route_to_insert,
            ),
        all_have_sections(final(routes)@),
        sorted_by_arrival(old(routes)@) ==> sorted_by_arrival(final(routes)@),
{
    let t = route_to_insert.arrival_at();
    let mut index: usize = 0;
    while index < routes.len()
        invariant
            0 <= index <= routes@.len(),
            routes@ == old(routes)@,
            all_have_sections(routes@),
            t == route_to_insert.arrival(),
            forall|j: int| 0 <= j < index ==> !arrives_before(route_to_insert, #[trigger] routes@[j]),
        ensures
            0 <= index <= routes@.len(),
            routes@ == old(routes)@,
            all_have_sections(routes@),
            forall|j: int| 0 <= j < index ==> !arrives_before(route_to_insert, #[trigger] routes@[j]),
            index < routes@.len() ==> arrives_before(route_to_insert, routes@[index as int]),
        decreases routes@.len() - index,
    {
        assert(routes@[index as int].sections().len() > 0);
        if t.is_before(&routes[index].arrival_at()) {
            break;
        }
        index = index + 1;
    }
    let ghost before = routes@;
    routes.insert(index, route_to_insert);
    proof {
        assert(insert_index(before, route_to_insert, index as int));
        if sorted_by_arrival(before) {
            lemma_insert_keeps_sorted(before, route_to_insert, index as int);
        }
        assert forall|k: int| 0 <= k < routes@.len() implies (#[trigger] routes@[k]).sections().len() > 0 by {
            if k < index {
                assert(routes@[k] == before[k]);
            } else if k > index {
                assert(routes@[k] == before[k - 1]);
            }
        }
    }
}

/// The routes of `rs` put in order of arrival one after the other, each at
/// its place: a stable sort by arrival.
pub open spec fn arrival_sorted(rs: Seq<Route>) -> Seq<Route>
    decreases rs.len(),
{
    if rs.len() == 0 {
        rs
    } else {
        let prev = arrival_sorted(rs.drop_last());
        prev.insert(choose|i: int| insert_index(prev, rs.last(), i), rs.last())
    }
}

/// Sorts the routes by arrival, keeping the order of routes that arrive at
/// the same time.
pub fn sort_routes(routes: &mut Vec<Route>)
    requires
        all_have_sections(old(routes)@),
    ensures
        final(routes)@ == arrival_sorted(old(routes)@),
        sorted_by_arrival(final(routes)@),
        final(routes)@.to_multiset() == old(routes)@.to_multiset(),
{
    let ghost start = routes@;
    let n = routes.len();
    assert(start.len() == n);
    let mut input: Vec<Route> = Vec::new();
    std::mem::swap(routes, &mut input);
    assert(input@ == start);
    let mut k: usize = 0;
    let ghost consumed: Seq<Route> = Seq::empty();
    assert(start.subrange(0, 0) =~= Seq::<Route>::empty());
    assert(routes@ =~= start.subrange(0, 0));
    while input.len() > 0
        invariant
            k + input@.len() == start.len(),
            start.len() <= usize::MAX,
            input@ == start.subrange(k as int, start.len() as int),
            all_have_sections(start),
            all_have_sections(routes@),
            routes@ == arrival_sorted(start.subrange(0, k as int)),
            sorted_by_arrival(routes@),
            routes@.to_multiset() == start.subrange(0, k as int).to_multiset(),
        decreases input@.len(),
    {
        let ghost prev = routes@;
        let r = input.remove(0);
        assert(r == start[k as int]);
        assert(start[k as int].sections().len() > 0);
        sorted_insert(routes, r);
        proof {
            let kk = k as int;
            let pre = start.subrange(0, kk + 1);
            assert(pre.drop_last() =~= start.subrange(0, kk));
            assert(pre.last() == r);
            let i = choose|i: int| insert_index(prev, r, i) && routes@ == prev.insert(i, r);
            let c = choose|c: int| insert_index(prev, r, c);
            lemma_insert_index_unique(prev, r, i, c);
            assert(routes@ == arrival_sorted(pre));
            assert(input@ =~= start.subrange(kk + 1, start.len() as int));
            vstd::seq_lib::to_multiset_insert(prev, i, r);
            assert(pre =~= start.subrange(0, kk).push(r));
            vstd::seq_lib::to_multiset_build(start.subrange(0, kk), r);
            assert(routes@.to_multiset() =~= pre.to_multiset());
        }
        k = k + 1;
    }
    assert(start.subrange(0, start.len() as int) =~= start);
}

} // verus!

verus! {

/// The ids of the journeys that, by the storage's indexes, operate on `date`
/// and pass `stop_id`: those indexed under (stop, bit field) for a bit field
/// of the day that some journey at the stop has.
pub open spec fn operating_ids(v: DataStorageView, date: Date, stop_id: i32) -> Set<i32> {
    Set::new(
        |id: i32|
            exists|bf: i32|
                #![trigger v.journeys_by_stop_id_and_bit_field_id[(stop_id, bf)]]
                v.bit_fields_by_day.contains_key(date) && v.bit_fields_by_day[date]@.contains(bf)
                    && v.bit_fields_by_stop_id.contains_key(stop_id)
                    && v.bit_fields_by_stop_id[stop_id]@.contains(bf)
                    && v.journeys_by_stop_id_and_bit_field_id.contains_key((stop_id, bf))
                    && v.journeys_by_stop_id_and_bit_field_id[(stop_id, bf)]@.contains(id),
    )
}

/// The journeys of the storage with the ids in `ids` (ids that it does not
/// hold are skipped), with those ids.
fn journeys_of_ids<'a>(data_storage: &'a DataStorage, ids: &FxHashSet<i32>) -> (res: (
    Vec<&'a Journey>,
    Vec<i32>,
))
    ensures
        res.1@.len() == res.0@.len(),
        forall|i: int|
            #![trigger res.1@[i]]
            0 <= i < res.0@.len() ==> ids@.contains(res.1@[i]) && data_storage@.journeys.contains_key(
                res.1@[i],
            ) && *res.0@[i] == data_storage@.journeys[res.1@[i]],
        forall|id: i32|
            ids@.contains(id) && data_storage@.journeys.contains_key(id) ==> exists|i: int|
                0 <= i < res.0@.len() && *res.0@[i] == data_storage@.journeys[id],
{
    let ghost v = data_storage@;
    let elems = fx_set_elements(ids);
    let mut res: Vec<&'a Journey> = Vec::new();
    let mut found: Vec<i32> = Vec::new();
    let mut b: usize = 0;
    while b < elems.len()
        invariant
            0 <= b <= elems@.len(),
            v == data_storage@,
            elems@.to_set() == ids@,
            found@.len() == res@.len(),
            forall|i: int|
                #![trigger found@[i]]
                0 <= i < res@.len() ==> ids@.contains(found@[i]) && v.journeys.contains_key(found@[i])
                    && *res@[i] == v.journeys[found@[i]],
            forall|id: i32|
                elems@.subrange(0, b as int).contains(id) && v.journeys.contains_key(id) ==> exists|
                    i: int,
                | 0 <= i < res@.len() && *res@[i] == v.journeys[id],
        decreases elems@.len() - b,
    {
        let id = elems[b];
        assert(elems@.to_set().contains(id));
        let ghost prev = res@;
        match data_storage.journeys().find(id) {
            Some(j) => {
                res.push(j);
                found.push(id);
            },
            None => {},
        }
        proof {
            assert(elems@.subrange(0, b + 1) =~= elems@.subrange(0, b as int).push(id));
            assert forall|id2: i32|
                elems@.subrange(0, b + 1).contains(id2) && v.journeys.contains_key(id2) implies exists|
                i: int,
            | 0 <= i < res@.len() && *res@[i] == v.journeys[id2] by {
                if id2 != id {
                    assert(elems@.subrange(0, b as int).contains(id2));
                    let i = choose|i: int| 0 <= i < prev.len() && *prev[i] == v.journeys[id2];
                    assert(res@[i] == prev[i]);
                } else {
                    assert(*res@[res@.len() - 1] == v.journeys[id]);
                }
            }
        }
        b = b + 1;
    }
    let result = (res, found);
    proof {
        assert(elems@.subrange(0, elems@.len() as int) =~= elems@);
        assert forall|id: i32| ids@.contains(id) && data_storage@.journeys.contains_key(id) implies exists|i: int|
            0 <= i < result.0@.len() && *result.0@[i] == data_storage@.journeys[id] by {
            assert(elems@.to_set().contains(id));
            assert(elems@.subrange(0, elems@.len() as int).contains(id));
            let i = choose|i: int| 0 <= i < res@.len() && *res@[i] == v.journeys[id];
            assert(result.0@[i] == res@[i]);
        }
    }
    result
}

/// `j` is a journey of the storage that operates on `date` and passes
/// `stop_id`, by the storage's indexes.
pub open spec fn is_operating_journey(v: DataStorageView, date: Date, stop_id: i32, j: Journey) -> bool {
    exists|id: i32|
        #![trigger v.journeys[id]]
        operating_ids(v, date, stop_id).contains(id) && v.journeys.contains_key(id) && j == v.journeys[id]
}

/// The journeys that operate on `date` and pass `stop_id`, by the storage's
/// indexes (ids that the storage does not hold are skipped).
pub fn get_operating_journeys<'a>(data_storage: &'a DataStorage, date: Date, stop_id: i32) -> (res:
    Vec<&'a Journey>)
    ensures
        forall|i: int|
            0 <= i < res@.len() ==> is_operating_journey(data_storage@, date, stop_id, *res@[i]),
        forall|id: i32|
            operating_ids(data_storage@, date, stop_id).contains(id)
                && data_storage@.journeys.contains_key(id) ==> exists|i: int|
                0 <= i < res@.len() && *res@[i] == data_storage@.journeys[id],
{
    let ghost v = data_storage@;
    let ghost ops = operating_ids(v, date, stop_id);
    let mut res: Vec<&'a Journey> = Vec::new();
    let ghost mut ids_of_res: Seq<i32> = Seq::empty();
    let day_set = match fx_map_get(data_storage.bit_fields_by_day(), date) {
        Some(s) => s,
        None => {
            assert(ops =~= Set::empty());
            return res;
        },
    };
    let stop_set = match fx_map_get(data_storage.bit_fields_by_stop_id(), stop_id) {
        Some(s) => s,
        None => {
            assert(ops =~= Set::empty());
            return res;
        },
    };
    let index = data_storage.journeys_by_stop_id_and_bit_field_id();
    let bfs = fx_set_elements(stop_set);
    let mut a: usize = 0;
    while a < bfs.len()
        invariant
            0 <= a <= bfs@.len(),
            v == data_storage@,
            ops == operating_ids(v, date, stop_id),
            v.bit_fields_by_day.contains_key(date) && *day_set == v.bit_fields_by_day[date],
            v.bit_fields_by_stop_id.contains_key(stop_id) && *stop_set == v.bit_fields_by_stop_id[stop_id],
            index@ == v.journeys_by_stop_id_and_bit_field_id,
            bfs@.to_set() == stop_set@,
            ids_of_res.len() == res@.len(),
            forall|i: int|
                #![trigger ids_of_res[i]]
                0 <= i < res@.len() ==> ops.contains(ids_of_res[i]) && v.journeys.contains_key(
                    ids_of_res[i],
                ) && *res@[i] == v.journeys[ids_of_res[i]],
            forall|id: i32, bf: i32|
                #![trigger index@[(stop_id, bf)]@.contains(id)]
                bfs@.subrange(0, a as int).contains(bf) && day_set@.contains(bf)
                    && index@.contains_key((stop_id, bf)) && index@[(stop_id, bf)]@.contains(id)
                    && v.journeys.contains_key(id) ==> exists|i: int|
                    0 <= i < res@.len() && *res@[i] == v.journeys[id],
        decreases bfs@.len() - a,
    {
        let bf = bfs[a];
        let ghost prefix = bfs@.subrange(0, a as int);
        let ghost next = bfs@.subrange(0, a + 1);
        assert(next =~= prefix.push(bf));
        assert(bfs@.to_set().contains(bf));
        let ghost before = res@;
        let ghost before_ids = ids_of_res;
        if fx_set_contains(day_set, bf) {
            match fx_map_get(index, (stop_id, bf)) {
                Some(ids_set) => {
                    let (mut found, fids_vec) = journeys_of_ids(data_storage, ids_set);
                    let ghost fids = fids_vec@;
                    let ghost fseq = found@;
                    res.append(&mut found);
                    proof {
                        ids_of_res = ids_of_res + fids;
                        assert forall|i: int| #![trigger ids_of_res[i]] 0 <= i < res@.len() implies ops.contains(ids_of_res[i])
                            && v.journeys.contains_key(ids_of_res[i]) && *res@[i] == v.journeys[ids_of_res[i]] by {
                            if i < before.len() {
                                assert(res@[i] == before[i]);
                                assert(ids_of_res[i] == before_ids[i]);
                            } else {
                                let k = i - before.len();
                                assert(res@[i] == fseq[k]);
                                assert(ids_of_res[i] == fids[k]);
                                assert(ids_set@.contains(fids[k]));
                                assert(index@[(stop_id, bf)]@.contains(fids[k]));
                            }
                        }
                        assert forall|id2: i32, bf2: i32|
                            #![trigger index@[(stop_id, bf2)]@.contains(id2)]
                            next.contains(bf2) && day_set@.contains(bf2) && index@.contains_key((stop_id, bf2))
                                && index@[(stop_id, bf2)]@.contains(id2) && v.journeys.contains_key(id2) implies exists|
                            i: int,
                        | 0 <= i < res@.len() && *res@[i] == v.journeys[id2] by {
                            if bf2 == bf {
                                assert(ids_set@.contains(id2));
                                let k = choose|k: int| 0 <= k < fseq.len() && *fseq[k] == v.journeys[id2];
                                assert(res@[before.len() + k] == fseq[k]);
                            } else {
                                assert(prefix.contains(bf2));
                                let i = choose|i: int| 0 <= i < before.len() && *before[i] == v.journeys[id2];
                                assert(res@[i] == before[i]);
                            }
                        }
                    }
                },
                None => {
                    proof {
                        assert forall|id2: i32, bf2: i32|
                            #![trigger index@[(stop_id, bf2)]@.contains(id2)]
                            next.contains(bf2) && day_set@.contains(bf2) && index@.contains_key((stop_id, bf2))
                                && index@[(stop_id, bf2)]@.contains(id2) && v.journeys.contains_key(id2) implies exists|
                            i: int,
                        | 0 <= i < res@.len() && *res@[i] == v.journeys[id2] by {
                            assert(prefix.contains(bf2));
                        }
                    }
                },
            }
        } else {
            proof {
                assert forall|id2: i32, bf2: i32|
                    #![trigger index@[(stop_id, bf2)]@.contains(id2)]
                    next.contains(bf2) && day_set@.contains(bf2) && index@.contains_key((stop_id, bf2))
                        && index@[(stop_id, bf2)]@.contains(id2) && v.journeys.contains_key(id2) implies exists|
                    i: int,
                | 0 <= i < res@.len() && *res@[i] == v.journeys[id2] by {
                    assert(prefix.contains(bf2));
                }
            }
        }
        a = a + 1;
    }
    proof {
        assert forall|i: int| 0 <= i < res@.len() implies is_operating_journey(
            data_storage@,
            date,
            stop_id,
            *res@[i],
        ) by {
            assert(ops.contains(ids_of_res[i]));
            assert(*res@[i] == data_storage@.journeys[ids_of_res[i]]);
        }
        assert(bfs@.subrange(0, bfs@.len() as int) =~= bfs@);
        assert forall|id: i32| ops.contains(id) && v.journeys.contains_key(id) implies exists|i: int|
            0 <= i < res@.len() && *res@[i] == v.journeys[id] by {
            let bf = choose|bf: i32|
                #![trigger v.journeys_by_stop_id_and_bit_field_id[(stop_id, bf)]]
                v.bit_fields_by_day.contains_key(date) && v.bit_fields_by_day[date]@.contains(bf)
                    && v.bit_fields_by_stop_id.contains_key(stop_id)
                    && v.bit_fields_by_stop_id[stop_id]@.contains(bf)
                    && v.journeys_by_stop_id_and_bit_field_id.contains_key((stop_id, bf))
                    && v.journeys_by_stop_id_and_bit_field_id[(stop_id, bf)]@.contains(id);
            assert(bfs@.to_set().contains(bf));
            assert(index@[(stop_id, bf)]@.contains(id));
        }
    }
    res
}

/// In a storage whose indexes are built and whose journeys are stored under
/// their ids, a journey is listed as operating at a stop on a date exactly
/// when it passes the stop and its bit field is one of the bit fields of
/// that date.
pub proof fn lemma_operating_journeys_run_on_the_date(v: DataStorageView, date: Date, stop_id: i32, id: i32)
    requires
        crate::storage::indexes_built(v),
        crate::storage::keys_are_ids(v.journeys),
        v.journeys.contains_key(id),
    ensures
        is_operating_journey(v, date, stop_id, v.journeys[id]) <==> (crate::storage::on_route(
            v.journeys[id],
            stop_id,
        ) && v.bit_fields_by_day.contains_key(date) && v.bit_fields_by_day[date]@.contains(
            crate::storage::effective_bit_field(v.journeys[id]),
        )),
{
    let j = v.journeys[id];
    let index = v.journeys_by_stop_id_and_bit_field_id;
    if is_operating_journey(v, date, stop_id, j) {
        let id2 = choose|id2: i32|
            #![trigger v.journeys[id2]]
            operating_ids(v, date, stop_id).contains(id2) && v.journeys.contains_key(id2) && j == v.journeys[id2];
        assert(v.journeys[id2].spec_id() == id2);
        assert(id2 == id);
        let bf = choose|bf: i32|
            #![trigger index[(stop_id, bf)]]
            v.bit_fields_by_day.contains_key(date) && v.bit_fields_by_day[date]@.contains(bf)
                && v.bit_fields_by_stop_id.contains_key(stop_id)
                && v.bit_fields_by_stop_id[stop_id]@.contains(bf) && index.contains_key((stop_id, bf))
                && index[(stop_id, bf)]@.contains(id);
        assert(crate::storage::index_pairs(index).contains(((stop_id, bf), id)));
        assert(crate::storage::stop_bit_field_journey_pairs(v.journeys).contains(((stop_id, bf), id)));
        let k = choose|k: i32|
            #![trigger v.journeys[k]]
            v.journeys.contains_key(k) && crate::storage::on_route(v.journeys[k], stop_id)
                && crate::storage::effective_bit_field(v.journeys[k]) == bf && v.journeys[k].spec_id() == id;
        assert(v.journeys[k].spec_id() == k);
    }
    if crate::storage::on_route(j, stop_id) && v.bit_fields_by_day.contains_key(date)
        && v.bit_fields_by_day[date]@.contains(crate::storage::effective_bit_field(j)) {
        let bf = crate::storage::effective_bit_field(j);
        assert(v.journeys[id] == j);
        assert(crate::storage::stop_bit_field_journey_pairs(v.journeys).contains(((stop_id, bf), id)));
        assert(crate::storage::index_pairs(index).contains(((stop_id, bf), id)));
        assert(crate::storage::stop_bit_field_pairs(v.journeys).contains((stop_id, bf)));
        assert(crate::storage::index_pairs(v.bit_fields_by_stop_id).contains((stop_id, bf)));
        assert(index[(stop_id, bf)]@.contains(id));
        assert(operating_ids(v, date, stop_id).contains(id));
        assert(is_operating_journey(v, date, stop_id, v.journeys[id]));
    }
}

} // verus!

verus! {

/// The route of `j` ends at `stop_id` (a route that ends where it starts
/// has no end).
pub open spec fn ends_at(j: Journey, stop_id: i32) -> bool {
    j.route_view().len() > 0 && !j.is_loop() && stop_id == j.route_view().last().spec_stop_id()
}

/// `j` leaves `stop_id` at `dt` when its first departure is on `date`.
pub open spec fn leaves_at(j: Journey, stop_id: i32, date: Date, dt: DateTime) -> bool {
    departure_time_spec(j.route_view(), stop_id) matches Ok((t, next)) && dt.time_part() == t
        && dt.date_part().day_number() == date.day_number() + (if next {
        1int
    } else {
        0int
    })
}

/// `j` operates on `date`, passes `stop_id` without ending there, and
/// leaves it at `dt`.
pub open spec fn departs_on(v: DataStorageView, date: Date, stop_id: i32, j: Journey, dt: DateTime) -> bool {
    &&& is_operating_journey(v, date, stop_id, j)
    &&& j.route_view().len() > 0
    &&& !ends_at(j, stop_id)
    &&& leaves_at(j, stop_id, date, dt)
}

/// `j` operates on `date` and passes `stop_id`, but has no route, or does
/// not end there and its departure there cannot be computed: its time
/// cannot be read, or it falls on the next day and that day leaves the
/// calendar.
pub open spec fn departure_unknown(v: DataStorageView, date: Date, stop_id: i32, j: Journey) -> bool {
    &&& is_operating_journey(v, date, stop_id, j)
    &&& {
        ||| j.route_view().len() == 0
        ||| (!ends_at(j, stop_id) && departure_time_spec(j.route_view(), stop_id) is Err)
        ||| (!ends_at(j, stop_id) && !shift_reachable(date, 1) && (departure_time_spec(
            j.route_view(),
            stop_id,
        ) matches Ok((_, true))))
    }
}

/// `e` is the error met at `j` (see `departure_unknown`): its route is
/// empty, or its departure time at `stop_id` cannot be read, or that
/// departure falls on a next day outside the calendar.
pub open spec fn departure_error(date: Date, stop_id: i32, j: Journey, e: HrdfError) -> bool {
    ||| (j.route_view().len() == 0 && e == HrdfError::Journey(JourneyError::EmptyRoute))
    ||| (!ends_at(j, stop_id) && departure_time_spec(j.route_view(), stop_id) == Err::<(Time, bool), HrdfError>(e))
    ||| (!ends_at(j, stop_id) && !shift_reachable(date, 1) && (departure_time_spec(
        j.route_view(),
        stop_id,
    ) matches Ok((_, true))) && e == HrdfError::FailedToAddDays(date, 1))
}

/// Some pair of `r` has the journey `j`.
pub open spec fn has_journey_in(r: Seq<(&Journey, DateTime)>, j: Journey) -> bool {
    exists|i: int| #![trigger r[i]] 0 <= i < r.len() && *r[i].0 == j
}

/// The journeys that operate on `date`, pass `stop_id` and do not end
/// there, with the time at which they leave it. Fails where such a journey
/// has no route, or where its departure there cannot be computed.
fn departures_on<'a>(data_storage: &'a DataStorage, date: Date, stop_id: i32) -> (res: HResult<
    Vec<(&'a Journey, DateTime)>,
>)
    ensures
        match res {
            Ok(r) => {
                &&& forall|i: int|
                    0 <= i < r@.len() ==> departs_on(data_storage@, date, stop_id, *(#[trigger] r@[i]).0, r@[i].1)
                &&& forall|j: Journey|
                    is_operating_journey(data_storage@, date, stop_id, j) && j.route_view().len() > 0
                        && !ends_at(j, stop_id) ==> has_journey_in(r@, j)
            },
            Err(e) => exists|j: Journey|
                #![trigger departure_unknown(data_storage@, date, stop_id, j)]
                departure_unknown(data_storage@, date, stop_id, j) && departure_error(date, stop_id, j, e),
        },
        res is Err <==> exists|j: Journey| departure_unknown(data_storage@, date, stop_id, j),
{
    let journeys = get_operating_journeys(data_storage, date, stop_id);
    let mut res: Vec<(&'a Journey, DateTime)> = Vec::new();
    let mut k: usize = 0;
    while k < journeys.len()
        invariant
            0 <= k <= journeys@.len(),
            forall|i: int|
                0 <= i < journeys@.len() ==> is_operating_journey(
                    data_storage@,
                    date,
                    stop_id,
                    *(#[trigger] journeys@[i]),
                ),
            forall|i: int|
                0 <= i < res@.len() ==> departs_on(data_storage@, date, stop_id, *(#[trigger] res@[i]).0, res@[i].1),
            forall|i: int|
                0 <= i < k && journeys@[i].route_view().len() > 0 && !ends_at(*journeys@[i], stop_id)
                    ==> has_journey_in(res@, *(#[trigger] journeys@[i])),
            forall|i: int|
                0 <= i < k ==> !departure_unknown(data_storage@, date, stop_id, *(#[trigger] journeys@[i])),
        decreases journeys@.len() - k,
    {
        let j = journeys[k];
        assert(is_operating_journey(data_storage@, date, stop_id, *journeys@[k as int]));
        let last = match j.is_last_stop(stop_id, true) {
            Ok(b) => b,
            Err(e) => {
                assert(departure_unknown(data_storage@, date, stop_id, *j));
                return Err(e);
            },
        };
        let ghost prev = res@;
        if !last {
            let dt = match j.departure_at_of(stop_id, date) {
                Ok(dt) => dt,
                Err(e) => {
                    assert(!(departure_time_spec(j.route_view(), stop_id) matches Ok((_, false))));
                    assert(departure_unknown(data_storage@, date, stop_id, *j));
                    return Err(e);
                },
            };
            res.push((j, dt));
            proof {
                assert(res@[res@.len() - 1] == (j, dt));
                assert forall|i: int| 0 <= i < k + 1 && journeys@[i].route_view().len() > 0 && !ends_at(
                    *journeys@[i],
                    stop_id,
                ) implies has_journey_in(res@, *(#[trigger] journeys@[i])) by {
                    if i < k {
                        let w = choose|w: int| #![trigger prev[w]] 0 <= w < prev.len() && *prev[w].0 == *journeys@[i];
                        assert(res@[w] == prev[w]);
                    } else {
                        assert(res@[res@.len() - 1].0 == j);
                    }
                }
                assert forall|i: int| 0 <= i < res@.len() implies departs_on(
                    data_storage@,
                    date,
                    stop_id,
                    *(#[trigger] res@[i]).0,
                    res@[i].1,
                ) by {
                    if i < prev.len() {
                        assert(res@[i] == prev[i]);
                    }
                }
            }
        }
        k = k + 1;
    }
    proof {
        assert forall|jj: Journey|
            is_operating_journey(data_storage@, date, stop_id, jj) && jj.route_view().len() > 0
                && !ends_at(jj, stop_id) implies has_journey_in(res@, jj) by {
            let id = choose|id: i32|
                #![trigger data_storage@.journeys[id]]
                operating_ids(data_storage@, date, stop_id).contains(id)
                    && data_storage@.journeys.contains_key(id) && jj == data_storage@.journeys[id];
            let i = choose|i: int| 0 <= i < journeys@.len() && *journeys@[i] == data_storage@.journeys[id];
            assert(*journeys@[i] == jj);
        }
    }
    Ok(res)
}

} // verus!

verus! {

/// No departure comes strictly after one that follows it.
pub open spec fn sorted_by_departure(r: Seq<(&Journey, DateTime)>) -> bool {
    forall|i: int, k: int| 0 <= i < k < r.len() ==> !(#[trigger] r[k]).1.precedes((#[trigger] r[i]).1)
}

/// The departures sorted by time, those at the same time kept in their
/// order.
fn sort_departures<'a>(v: Vec<(&'a Journey, DateTime)>) -> (res: Vec<(&'a Journey, DateTime)>)
    ensures
        sorted_by_departure(res@),
        res@.to_multiset() == v@.to_multiset(),
{
    let ghost start = v@;
    let mut input = v;
    let mut out: Vec<(&'a Journey, DateTime)> = Vec::new();
    let n = input.len();
    let mut k: usize = 0;
    assert(out@ =~= start.subrange(0, 0));
    while input.len() > 0
        invariant
            k + input@.len() == start.len(),
            start.len() == n,
            input@ == start.subrange(k as int, start.len() as int),
            sorted_by_departure(out@),
            out@.to_multiset() == start.subrange(0, k as int).to_multiset(),
        decreases input@.len(),
    {
        let x = input.remove(0);
        assert(x == start[k as int]);
        let mut p: usize = 0;
        while p < out.len()
            invariant
                0 <= p <= out@.len(),
                forall|q: int| 0 <= q < p ==> !x.1.precedes((#[trigger] out@[q]).1),
            ensures
                0 <= p <= out@.len(),
                forall|q: int| 0 <= q < p ==> !x.1.precedes((#[trigger] out@[q]).1),
                p < out@.len() ==> x.1.precedes(out@[p as int].1),
            decreases out@.len() - p,
        {
            if x.1.is_before(&out[p].1) {
                break;
            }
            p = p + 1;
        }
        let ghost prev = out@;
        out.insert(p, x);
        proof {
            let kk = k as int;
            let pp = p as int;
            assert forall|a: int, b: int| 0 <= a < b < out@.len() implies !(#[trigger] out@[b]).1.precedes(
                (#[trigger] out@[a]).1,
            ) by {
                if a < pp && b < pp {
                    assert(out@[a] == prev[a] && out@[b] == prev[b]);
                } else if a < pp && b == pp {
                    assert(out@[a] == prev[a]);
                } else if a < pp {
                    assert(out@[a] == prev[a] && out@[b] == prev[b - 1]);
                    assert(!x.1.precedes(prev[a].1));
                    assert(x.1.precedes(prev[pp].1));
                    if b - 1 != pp {
                        assert(!prev[b - 1].1.precedes(prev[pp].1));
                    }
                } else if a == pp {
                    assert(out@[b] == prev[b - 1]);
                    assert(x.1.precedes(prev[pp].1));
                    if b - 1 != pp {
                        assert(!prev[b - 1].1.precedes(prev[pp].1));
                    }
                } else {
                    assert(out@[a] == prev[a - 1] && out@[b] == prev[b - 1]);
                }
            }
            vstd::seq_lib::to_multiset_insert(prev, pp, x);
            assert(start.subrange(0, kk + 1) =~= start.subrange(0, kk).push(x));
            vstd::seq_lib::to_multiset_build(start.subrange(0, kk), x);
            assert(input@ =~= start.subrange(kk + 1, start.len() as int));
        }
        k = k + 1;
    }
    assert(start.subrange(0, start.len() as int) =~= start);
    out
}

} // verus!

verus! {

/// Some departure of `r` has the route hash `h` from `stop_id`.
pub open spec fn has_hash(r: Seq<(&Journey, DateTime)>, stop_id: i32, h: u64) -> bool {
    exists|i: int| #![trigger r[i]] 0 <= i < r.len() && r[i].0.route_hash_of(stop_id) == Some(h)
}

/// Some departure of `r` has the route hash `h` from `stop_id` and leaves
/// no later than `dt`.
pub open spec fn covered(r: Seq<(&Journey, DateTime)>, stop_id: i32, h: u64, dt: DateTime) -> bool {
    exists|i: int|
        #![trigger r[i]]
        0 <= i < r.len() && r[i].0.route_hash_of(stop_id) == Some(h) && !dt.precedes(r[i].1)
}

/// Some pair of `r` is `x`.
pub open spec fn contains_pair(r: Seq<(&Journey, DateTime)>, x: (&Journey, DateTime)) -> bool {
    exists|i: int| #![trigger r[i]] 0 <= i < r.len() && r[i] == x
}

/// Keeps, of departures sorted by time, the first of each route (by the hash
/// of its stops from `stop_id`) whose hash is not in `ignore`.
fn first_of_each_route<'a>(s: Vec<(&'a Journey, DateTime)>, ignore: FxHashSet<u64>, stop_id: i32) -> (res:
    Vec<(&'a Journey, DateTime)>)
    requires
        sorted_by_departure(s@),
        forall|q: int| 0 <= q < s@.len() ==> (#[trigger] s@[q]).0.route_hash_of(stop_id) is Some,
    ensures
        sorted_by_departure(res@),
        forall|i: int| 0 <= i < res@.len() ==> contains_pair(s@, #[trigger] res@[i]),
        forall|i: int|
            0 <= i < res@.len() ==> !ignore@.contains((#[trigger] res@[i]).0.route_hash_of(stop_id)->0),
        forall|i: int, k: int|
            0 <= i < k < res@.len() ==> (#[trigger] res@[i]).0.route_hash_of(stop_id) != (
            #[trigger] res@[k]).0.route_hash_of(stop_id),
        forall|q: int|
            0 <= q < s@.len() && !ignore@.contains((#[trigger] s@[q]).0.route_hash_of(stop_id)->0)
                ==> covered(res@, stop_id, s@[q].0.route_hash_of(stop_id)->0, s@[q].1),
{
    let ghost ign0 = ignore@;
    let mut seen = ignore;
    let mut res: Vec<(&'a Journey, DateTime)> = Vec::new();
    let ghost mut pos: Seq<int> = Seq::empty();
    let mut q: usize = 0;
    while q < s.len()
        invariant
            0 <= q <= s@.len(),
            sorted_by_departure(s@),
            forall|q2: int| 0 <= q2 < s@.len() ==> (#[trigger] s@[q2]).0.route_hash_of(stop_id) is Some,
            pos.len() == res@.len(),
            forall|i: int| 0 <= i < res@.len() ==> 0 <= #[trigger] pos[i] < q && res@[i] == s@[pos[i]],
            forall|i: int, k: int| 0 <= i < k < res@.len() ==> #[trigger] pos[i] < #[trigger] pos[k],
            forall|h: u64| seen@.contains(h) <==> (ign0.contains(h) || has_hash(res@, stop_id, h)),
            forall|i: int| 0 <= i < res@.len() ==> !ign0.contains((#[trigger] res@[i]).0.route_hash_of(stop_id)->0),
            forall|i: int, k: int|
                0 <= i < k < res@.len() ==> (#[trigger] res@[i]).0.route_hash_of(stop_id) != (
                #[trigger] res@[k]).0.route_hash_of(stop_id),
            forall|q2: int|
                0 <= q2 < q && !ign0.contains((#[trigger] s@[q2]).0.route_hash_of(stop_id)->0)
                    ==> covered(res@, stop_id, s@[q2].0.route_hash_of(stop_id)->0, s@[q2].1),
        decreases s@.len() - q,
    {
        let x = s[q];
        assert(s@[q as int].0.route_hash_of(stop_id) is Some);
        let h = match x.0.hash_route(stop_id) {
            Some(h) => h,
            None => {
                assert(false);
                return res;
            },
        };
        let ghost prev = res@;
        let ghost prev_pos = pos;
        if !fx_set_contains(&seen, h) {
            fx_set_insert(&mut seen, h);
            res.push(x);
            proof {
                pos = pos.push(q as int);
                let n = prev.len() as int;
                assert(res@[n] == x);
                assert forall|i: int| 0 <= i < res@.len() implies 0 <= #[trigger] pos[i] < q + 1 && res@[i] == s@[pos[i]] by {
                    if i < n {
                        assert(res@[i] == prev[i]);
                        assert(pos[i] == prev_pos[i]);
                    }
                }
                assert forall|i: int, k: int| 0 <= i < k < res@.len() implies #[trigger] pos[i] < #[trigger] pos[k] by {
                    if k < n {
                        assert(pos[i] == prev_pos[i] && pos[k] == prev_pos[k]);
                    } else {
                        assert(pos[i] == prev_pos[i]);
                    }
                }
                assert forall|hh: u64| seen@.contains(hh) <==> (ign0.contains(hh) || has_hash(res@, stop_id, hh)) by {
                    if has_hash(prev, stop_id, hh) {
                        let i = choose|i: int| #![trigger prev[i]] 0 <= i < prev.len() && prev[i].0.route_hash_of(stop_id) == Some(hh);
                        assert(res@[i] == prev[i]);
                    }
                    if has_hash(res@, stop_id, hh) {
                        let i = choose|i: int| #![trigger res@[i]] 0 <= i < res@.len() && res@[i].0.route_hash_of(stop_id) == Some(hh);
                        if i < n {
                            assert(res@[i] == prev[i]);
                        }
                    }
                }
                assert forall|i: int| 0 <= i < res@.len() implies !ign0.contains((#[trigger] res@[i]).0.route_hash_of(stop_id)->0) by {
                    if i < n {
                        assert(res@[i] == prev[i]);
                    }
                }
                assert forall|i: int, k: int|
                    0 <= i < k < res@.len() implies (#[trigger] res@[i]).0.route_hash_of(stop_id) != (
                    #[trigger] res@[k]).0.route_hash_of(stop_id) by {
                    assert(res@[i] == prev[i]);
                    if k < n {
                        assert(res@[k] == prev[k]);
                    } else {
                        assert(prev[i] == s@[prev_pos[i]]);
                        assert(s@[prev_pos[i]].0.route_hash_of(stop_id) is Some);
                        assert(has_hash(prev, stop_id, prev[i].0.route_hash_of(stop_id)->0));
                    }
                }
                assert forall|q2: int|
                    0 <= q2 < q + 1 && !ign0.contains((#[trigger] s@[q2]).0.route_hash_of(stop_id)->0)
                    implies covered(res@, stop_id, s@[q2].0.route_hash_of(stop_id)->0, s@[q2].1) by {
                    if q2 < q {
                        let i = choose|i: int|
                            #![trigger prev[i]]
                            0 <= i < prev.len() && prev[i].0.route_hash_of(stop_id) == Some(s@[q2].0.route_hash_of(stop_id)->0)
                                && !s@[q2].1.precedes(prev[i].1);
                        assert(res@[i] == prev[i]);
                    } else {
                        assert(res@[n] == s@[q2]);
                    }
                }
            }
        } else {
            proof {
                assert forall|q2: int|
                    0 <= q2 < q + 1 && !ign0.contains((#[trigger] s@[q2]).0.route_hash_of(stop_id)->0)
                    implies covered(res@, stop_id, s@[q2].0.route_hash_of(stop_id)->0, s@[q2].1) by {
                    if q2 == q {
                        assert(has_hash(res@, stop_id, h));
                        let i = choose|i: int| #![trigger res@[i]] 0 <= i < res@.len() && res@[i].0.route_hash_of(stop_id) == Some(h);
                        assert(pos[i] < q);
                        assert(res@[i] == s@[pos[i]]);
                        assert(!s@[q2].1.precedes(s@[pos[i]].1));
                    }
                }
            }
        }
        q = q + 1;
    }
    proof {
        assert forall|i: int| 0 <= i < res@.len() implies contains_pair(s@, #[trigger] res@[i]) by {
            assert(s@[pos[i]] == res@[i]);
        }
        assert forall|i: int, k: int| 0 <= i < k < res@.len() implies !(#[trigger] res@[k]).1.precedes(
            (#[trigger] res@[i]).1,
        ) by {
            assert(pos[i] < pos[k]);
            assert(res@[i] == s@[pos[i]] && res@[k] == s@[pos[k]]);
        }
    }
    res
}

} // verus!

verus! {

/// `dt` lies between `dep` and `max`, both included.
pub open spec fn between(dep: DateTime, max: DateTime, dt: DateTime) -> bool {
    !dt.precedes(dep) && !max.precedes(dt)
}

/// Appends the departures of `deps` that lie between `dep` and `max`.
fn append_in_window<'a>(
    out: &mut Vec<(&'a Journey, DateTime)>,
    deps: &Vec<(&'a Journey, DateTime)>,
    dep: DateTime,
    max: DateTime,
)
    ensures
        final(out)@.len() >= old(out)@.len(),
        forall|i: int| 0 <= i < old(out)@.len() ==> final(out)@[i] == old(out)@[i],
        forall|i: int|
            old(out)@.len() <= i < final(out)@.len() ==> contains_pair(deps@, #[trigger] final(out)@[i])
                && between(dep, max, final(out)@[i].1),
        forall|k: int|
            0 <= k < deps@.len() && between(dep, max, (#[trigger] deps@[k]).1) ==> contains_pair(
                final(out)@,
                deps@[k],
            ),
{
    let ghost start = out@;
    let mut k: usize = 0;
    while k < deps.len()
        invariant
            0 <= k <= deps@.len(),
            out@.len() >= start.len(),
            forall|i: int| 0 <= i < start.len() ==> out@[i] == start[i],
            forall|i: int|
                start.len() <= i < out@.len() ==> contains_pair(deps@, #[trigger] out@[i]) && between(
                    dep,
                    max,
                    out@[i].1,
                ),
            forall|k2: int|
                0 <= k2 < k && between(dep, max, (#[trigger] deps@[k2]).1) ==> contains_pair(out@, deps@[k2]),
        decreases deps@.len() - k,
    {
        let x = deps[k];
        let ghost prev = out@;
        if !x.1.is_before(&dep) && !max.is_before(&x.1) {
            out.push(x);
            proof {
                assert(out@[prev.len() as int] == x);
                assert(deps@[k as int] == x);
                assert forall|i: int|
                    start.len() <= i < out@.len() implies contains_pair(deps@, #[trigger] out@[i]) && between(
                    dep,
                    max,
                    out@[i].1,
                ) by {
                    if i < prev.len() {
                        assert(out@[i] == prev[i]);
                    }
                }
                assert forall|k2: int|
                    0 <= k2 < k + 1 && between(dep, max, (#[trigger] deps@[k2]).1) implies contains_pair(
                    out@,
                    deps@[k2],
                ) by {
                    if k2 < k {
                        let i = choose|i: int| #![trigger prev[i]] 0 <= i < prev.len() && prev[i] == deps@[k2];
                        assert(out@[i] == prev[i]);
                    } else {
                        assert(out@[prev.len() as int] == deps@[k2]);
                    }
                }
            }
        }
        k = k + 1;
    }
}

/// Searching from `dep`: from 18:00 on, the next day too.
pub open spec fn evening(dep: DateTime) -> bool {
    dep.time_part().minute_of_day() >= 1080
}

/// Where a search from `dep` stops, as (day number, minute of day): 08:00
/// the next day from 18:00 on, 08:00 the same day before 08:00, four hours
/// after `dep` otherwise.
pub open spec fn window_end(dep: DateTime) -> (int, int) {
    let d = dep.date_part().day_number();
    let m = dep.time_part().minute_of_day();
    if m >= 1080 {
        (d + 1, 480)
    } else if m < 480 {
        (d, 480)
    } else {
        (d, m + 240)
    }
}

/// `dt` lies between `dep` and the end of the search from `dep`.
pub open spec fn in_window(dep: DateTime, dt: DateTime) -> bool {
    let d = dt.date_part().day_number();
    let m = dt.time_part().minute_of_day();
    let e = window_end(dep);
    &&& !dt.precedes(dep)
    &&& (d < e.0 || (d == e.0 && m <= e.1))
}

/// A departure that a search from `stop_id` at `dep` considers: a journey
/// that operates on the day of `dep` (or, from 18:00, on the next day),
/// passes the stop without ending there, and leaves it within the search's
/// window.
pub open spec fn candidate(v: DataStorageView, stop_id: i32, dep: DateTime, j: Journey, dt: DateTime) -> bool {
    &&& in_window(dep, dt)
    &&& (departs_on(v, dep.date_part(), stop_id, j, dt) || (evening(dep) && exists|d2: Date|
        d2.day_number() == dep.date_part().day_number() + 1 && departs_on(v, d2, stop_id, j, dt)))
}

/// The routes to ignore as a set of hashes.
pub open spec fn ignored(routes_to_ignore: Option<FxHashSet<u64>>) -> Set<u64> {
    match routes_to_ignore {
        Some(s) => s@,
        None => Set::empty(),
    }
}

} // verus!

verus! {

/// Sequences with the same elements, counted, contain the same elements.
proof fn lemma_same_elements<A>(a: Seq<A>, b: Seq<A>, x: A)
    requires
        a.to_multiset() == b.to_multiset(),
        a.contains(x),
    ensures
        b.contains(x),
{
    a.to_multiset_ensures();
    b.to_multiset_ensures();
    assert(a.to_multiset().count(x) > 0);
    assert(b.to_multiset().count(x) > 0);
}

/// `j` departs from `stop_id` at `dt` on `d1` or, where `both`, on `d2`.
pub open spec fn departs_either(
    v: DataStorageView,
    d1: Date,
    d2: Date,
    both: bool,
    stop_id: i32,
    j: Journey,
    dt: DateTime,
) -> bool {
    departs_on(v, d1, stop_id, j, dt) || (both && departs_on(v, d2, stop_id, j, dt))
}

/// A journey leaves a stop at one time.
proof fn lemma_departure_unique(v: DataStorageView, date: Date, stop_id: i32, j: Journey, a: DateTime, b: DateTime)
    requires
        departs_on(v, date, stop_id, j, a),
        departs_on(v, date, stop_id, j, b),
    ensures
        a == b,
{
    Date::lemma_day_number_injective(a.date_part(), b.date_part());
    DateTime::lemma_parts_determine(a, b);
}

/// A departure of `deps` (all of which depart from `stop_id` on `date`)
/// that is the pair (`j`, `dt`).
proof fn lemma_pair_of(
    v: DataStorageView,
    date: Date,
    stop_id: i32,
    deps: Seq<(&Journey, DateTime)>,
    j: Journey,
    dt: DateTime,
) -> (k: int)
    requires
        forall|i: int| 0 <= i < deps.len() ==> departs_on(v, date, stop_id, *(#[trigger] deps[i]).0, deps[i].1),
        has_journey_in(deps, j),
        departs_on(v, date, stop_id, j, dt),
    ensures
        0 <= k < deps.len(),
        *deps[k].0 == j,
        deps[k].1 == dt,
{
    let k = choose|i: int| #![trigger deps[i]] 0 <= i < deps.len() && *deps[i].0 == j;
    assert(departs_on(v, date, stop_id, *deps[k].0, deps[k].1));
    lemma_departure_unique(v, date, stop_id, j, deps[k].1, dt);
    k
}

/// What `next_departures` returns from `stop_id` at `dep`, leaving out the
/// routes whose hashes are in `ign`: departures sorted by time, each a
/// candidate, none on an ignored route, no two on the same route, and every
/// candidate on a route not ignored covered by one at the same time or
/// earlier.
pub open spec fn departures_ok(
    v: DataStorageView,
    stop_id: i32,
    dep: DateTime,
    ign: Set<u64>,
    r: Seq<(&Journey, DateTime)>,
) -> bool {
    &&& sorted_by_departure(r)
    &&& forall|i: int| 0 <= i < r.len() ==> candidate(v, stop_id, dep, *(#[trigger] r[i]).0, r[i].1)
    &&& forall|i: int| 0 <= i < r.len() ==> !ign.contains((#[trigger] r[i]).0.route_hash_of(stop_id)->0)
    &&& forall|i: int, k: int|
        0 <= i < k < r.len() ==> (#[trigger] r[i]).0.route_hash_of(stop_id) != (
        #[trigger] r[k]).0.route_hash_of(stop_id)
    &&& forall|j: Journey, dt: DateTime|
        candidate(v, stop_id, dep, j, dt) && !ign.contains(j.route_hash_of(stop_id)->0) ==> covered(
            r,
            stop_id,
            j.route_hash_of(stop_id)->0,
            dt,
        )
}

/// The errors of `next_departures`: the next day leaves the calendar, or a
/// departure time on the day (or on the next day, from 18:00) is unknown.
pub open spec fn departures_fail(v: DataStorageView, stop_id: i32, dep: DateTime, e: HrdfError) -> bool {
    ||| (evening(dep) && !shift_reachable(dep.date_part(), 1) && e == HrdfError::FailedToAddDays(
        dep.date_part(),
        1,
    ))
    ||| exists|j: Journey|
        #![trigger departure_unknown(v, dep.date_part(), stop_id, j)]
        departure_unknown(v, dep.date_part(), stop_id, j) && departure_error(dep.date_part(), stop_id, j, e)
    ||| (evening(dep) && exists|d2: Date, j: Journey|
        #![trigger departure_unknown(v, d2, stop_id, j)]
        d2.day_number() == dep.date_part().day_number() + 1 && departure_unknown(v, d2, stop_id, j)
            && departure_error(d2, stop_id, j, e))
}

/// Whether `next_departures` from `stop_id` at `dep` succeeds: every
/// departure on the day can be computed, and from 18:00 the next day lies
/// in the calendar and every departure on it can be computed too.
pub open spec fn departures_owed(v: DataStorageView, stop_id: i32, dep: DateTime) -> bool {
    &&& forall|j: Journey| !departure_unknown(v, dep.date_part(), stop_id, j)
    &&& evening(dep) ==> shift_reachable(dep.date_part(), 1)
    &&& evening(dep) ==> forall|d2: Date, j: Journey|
        d2.day_number() == dep.date_part().day_number() + 1 ==> !departure_unknown(v, d2, stop_id, j)
}

/// The next departures from `departure_stop_id` at or after
/// `departure_at`, sorted by time, one per route (routes are told apart by
/// the hash of their stops from `departure_stop_id`, and those in
/// `routes_to_ignore` are left out): the journeys operating on the day (and,
/// from 18:00, on the next day) that pass the stop without ending there and
/// leave it up to 08:00 the next day (from 18:00), up to 08:00 (before
/// 08:00), or up to four hours later. Where several departures share a
/// route, the earliest is kept.
pub fn next_departures<'a>(
    data_storage: &'a DataStorage,
    departure_stop_id: i32,
    departure_at: DateTime,
    routes_to_ignore: Option<FxHashSet<u64>>,
    previous_journey_id: Option<i32>,
) -> (res: HResult<Vec<(&'a Journey, DateTime)>>)
    requires
        departure_at.wf(),
    ensures
        match res {
            Ok(r) => departures_ok(data_storage@, departure_stop_id, departure_at, ignored(routes_to_ignore), r@),
            Err(e) => departures_fail(data_storage@, departure_stop_id, departure_at, e),
        },
        res is Ok <==> departures_owed(data_storage@, departure_stop_id, departure_at),
{
    let ghost v = data_storage@;
    let d1 = departure_at.date();
    let m = departure_at.time().minutes();
    let eight = match Time::from_hm(8, 0) {
        Some(t) => t,
        None => {
            return Err(HrdfError::OutOfRangeDate(d1));
        },
    };
    let deps1 = match departures_on(data_storage, d1, departure_stop_id) {
        Ok(d) => d,
        Err(e) => {
            return Err(e);
        },
    };
    assert(forall|j: Journey| !departure_unknown(v, d1, departure_stop_id, j));
    let mut cands: Vec<(&'a Journey, DateTime)> = Vec::new();
    let ghost mut deps2_view: Seq<(&Journey, DateTime)> = Seq::empty();
    let ghost mut d2_ghost: Date = d1;
    let max: DateTime;
    if m >= 1080 {
        let d2 = match add_1_day(d1) {
            Ok(d) => d,
            Err(e) => {
                return Err(e);
            },
        };
        let deps2 = match departures_on(data_storage, d2, departure_stop_id) {
            Ok(d) => d,
            Err(e) => {
                assert(d2.day_number() == d1.day_number() + 1);
                return Err(e);
            },
        };
        assert forall|d2x: Date, j: Journey|
            d2x.day_number() == d1.day_number() + 1 implies !departure_unknown(
            v,
            d2x,
            departure_stop_id,
            j,
        ) by {
            Date::lemma_day_number_injective(d2x, d2);
        }
        max = DateTime::new(d2, eight);
        append_in_window(&mut cands, &deps1, departure_at, max);
        let ghost mid = cands@;
        append_in_window(&mut cands, &deps2, departure_at, max);
        proof {
            deps2_view = deps2@;
            d2_ghost = d2;
            assert(d2_ghost.day_number() == d1.day_number() + 1);
            assert forall|k: int|
                0 <= k < deps1@.len() && between(departure_at, max, (#[trigger] deps1@[k]).1)
                implies contains_pair(cands@, deps1@[k]) by {
                let i = choose|i: int| #![trigger mid[i]] 0 <= i < mid.len() && mid[i] == deps1@[k];
                assert(cands@[i] == mid[i]);
            }
            assert forall|k: int|
                0 <= k < deps2_view.len() && between(departure_at, max, (#[trigger] deps2_view[k]).1)
                implies contains_pair(cands@, deps2_view[k]) by {
                assert(deps2_view[k] == deps2@[k]);
            }
            assert forall|i: int|
                0 <= i < deps2_view.len() implies departs_on(
                v,
                d2_ghost,
                departure_stop_id,
                *(#[trigger] deps2_view[i]).0,
                deps2_view[i].1,
            ) by {
                assert(deps2_view[i] == deps2@[i]);
            }
            assert forall|jj: Journey|
                is_operating_journey(v, d2_ghost, departure_stop_id, jj) && jj.route_view().len() > 0
                    && !ends_at(jj, departure_stop_id) implies has_journey_in(deps2_view, jj) by {
                assert(has_journey_in(deps2@, jj));
            }
            assert forall|i: int| 0 <= i < cands@.len() implies departs_either(
                v,
                d1,
                d2_ghost,
                true,
                departure_stop_id,
                *(#[trigger] cands@[i]).0,
                cands@[i].1,
            ) && between(departure_at, max, cands@[i].1) by {
                if contains_pair(deps1@, cands@[i]) {
                    let k = choose|k: int| #![trigger deps1@[k]] 0 <= k < deps1@.len() && deps1@[k] == cands@[i];
                    assert(departs_on(v, d1, departure_stop_id, *deps1@[k].0, deps1@[k].1));
                } else {
                    let k = choose|k: int| #![trigger deps2@[k]] 0 <= k < deps2@.len() && deps2@[k] == cands@[i];
                    assert(departs_on(v, d2, departure_stop_id, *deps2@[k].0, deps2@[k].1));
                }
            }
        }
    } else {
        if m < 480 {
            max = DateTime::new(d1, eight);
        } else {
            let later = m + 240;
            let t = match Time::from_hm(later / 60, later % 60) {
                Some(t) => t,
                None => {
                    return Err(HrdfError::OutOfRangeDate(d1));
                },
            };
            max = DateTime::new(d1, t);
        }
        append_in_window(&mut cands, &deps1, departure_at, max);
        proof {
            assert forall|i: int| 0 <= i < cands@.len() implies departs_either(
                v,
                d1,
                d2_ghost,
                false,
                departure_stop_id,
                *(#[trigger] cands@[i]).0,
                cands@[i].1,
            ) && between(departure_at, max, cands@[i].1) by {
                let k = choose|k: int| #![trigger deps1@[k]] 0 <= k < deps1@.len() && deps1@[k] == cands@[i];
                assert(departs_on(v, d1, departure_stop_id, *deps1@[k].0, deps1@[k].1));
            }
        }
    }
    assert(departures_owed(v, departure_stop_id, departure_at));
    assert(max.date_part().day_number() == window_end(departure_at).0);
    assert(max.time_part().minute_of_day() == window_end(departure_at).1);
    let ghost cview = cands@;
    let sorted = sort_departures(cands);
    let ignore = match routes_to_ignore {
        Some(s) => s,
        None => fx_set_new(),
    };
    let ghost ign = ignore@;
    assert(ign == ignored(routes_to_ignore));
    proof {
        assert forall|q: int| 0 <= q < sorted@.len() implies (#[trigger] sorted@[q]).0.route_hash_of(
            departure_stop_id,
        ) is Some by {
            lemma_same_elements(sorted@, cview, sorted@[q]);
            let c = choose|c: int| 0 <= c < cview.len() && cview[c] == sorted@[q];
            assert(departs_either(v, d1, d2_ghost, m >= 1080, departure_stop_id, *cview[c].0, cview[c].1));
        }
    }
    let r = first_of_each_route(sorted, ignore, departure_stop_id);
    proof {
        assert forall|i: int| 0 <= i < r@.len() implies candidate(
            v,
            departure_stop_id,
            departure_at,
            *(#[trigger] r@[i]).0,
            r@[i].1,
        ) by {
            assert(contains_pair(sorted@, r@[i]));
            let q = choose|q: int| #![trigger sorted@[q]] 0 <= q < sorted@.len() && sorted@[q] == r@[i];
            assert(sorted@.contains(r@[i]));
            lemma_same_elements(sorted@, cview, r@[i]);
            let c = choose|c: int| 0 <= c < cview.len() && cview[c] == r@[i];
            assert(departs_either(v, d1, d2_ghost, m >= 1080, departure_stop_id, *cview[c].0, cview[c].1));
            assert(between(departure_at, max, cview[c].1));
        }
        assert forall|j: Journey, dt: DateTime|
            candidate(v, departure_stop_id, departure_at, j, dt) && !ignored(routes_to_ignore).contains(
                j.route_hash_of(departure_stop_id)->0,
            ) implies covered(r@, departure_stop_id, j.route_hash_of(departure_stop_id)->0, dt) by {
            if departs_on(v, d1, departure_stop_id, j, dt) {
                let k = lemma_pair_of(v, d1, departure_stop_id, deps1@, j, dt);
                assert(between(departure_at, max, deps1@[k].1));
                assert(contains_pair(cview, deps1@[k]));
                let x = deps1@[k];
                let c = choose|c: int| #![trigger cview[c]] 0 <= c < cview.len() && cview[c] == x;
                assert(cview.contains(x));
                lemma_same_elements(cview, sorted@, x);
                let q = choose|q: int| 0 <= q < sorted@.len() && sorted@[q] == x;
                assert(!ign.contains((sorted@[q]).0.route_hash_of(departure_stop_id)->0));
            } else {
                let d2w = choose|d2: Date|
                    d2.day_number() == departure_at.date_part().day_number() + 1 && departs_on(
                        v,
                        d2,
                        departure_stop_id,
                        j,
                        dt,
                    );
                Date::lemma_day_number_injective(d2w, d2_ghost);
                let k = lemma_pair_of(v, d2_ghost, departure_stop_id, deps2_view, j, dt);
                assert(between(departure_at, max, deps2_view[k].1));
                assert(contains_pair(cview, deps2_view[k]));
                let x = deps2_view[k];
                let c = choose|c: int| #![trigger cview[c]] 0 <= c < cview.len() && cview[c] == x;
                assert(cview.contains(x));
                lemma_same_elements(cview, sorted@, x);
                let q = choose|q: int| 0 <= q < sorted@.len() && sorted@[q] == x;
                assert(!ign.contains((sorted@[q]).0.route_hash_of(departure_stop_id)->0));
            }
        }
    }
    Ok(r)
}

} // verus!

verus! {

/// Whether `route` arrives no later than the solution, if there is one.
pub fn can_improve_solution(route: &Route, solution: Option<&Route>) -> (res: bool)
    requires
        route.sections().len() > 0,
        solution matches Some(s) ==> s.sections().len() > 0,
    ensures
        res == match solution {
            None => true,
            Some(s) => !s.arrival().precedes(route.arrival()),
        },
{
    match solution {
        None => true,
        Some(sol) => route.arrival_at().is_on_or_before(&sol.arrival_at()),
    }
}

/// The sections of a route that are on a journey.
pub open spec fn journey_sections(r: Route) -> Seq<RouteSection> {
    r.sections().filter(|s: RouteSection| has_journey(s))
}

/// The journey of a section on a journey is in the storage.
pub open spec fn section_resolves(v: DataStorageView, s: RouteSection) -> bool {
    s.spec_journey_id() matches Some(id) && v.journeys.contains_key(id)
        && v.journeys[id].route_view().len() < usize::MAX
}

/// The number of stops that a section on a journey covers: from the first
/// departure stop to the next arrival stop, one end counted.
pub open spec fn section_stops(v: DataStorageView, s: RouteSection) -> int {
    let r = v.journeys[s.spec_journey_id()->0].route_view();
    let i = find_stop(r, s.spec_departure_stop_id(), 0);
    find_stop(r, s.spec_arrival_stop_id(), i) - i + 1
}

/// Compares, from the `i`-th on, the stop counts of the sections of two
/// routes: at the first that differs, the route whose section crosses more
/// stops is better.
pub open spec fn crosses_more_stops(v: DataStorageView, a: Seq<RouteSection>, b: Seq<RouteSection>, i: int) -> bool
    decreases a.len() - i,
{
    if i >= a.len() || i < 0 {
        false
    } else if section_stops(v, a[i]) != section_stops(v, b[i]) {
        section_stops(v, a[i]) > section_stops(v, b[i])
    } else {
        crosses_more_stops(v, a, b, i + 1)
    }
}

/// Whether `candidate` is a better route than the solution: there is no
/// solution yet; or it arrives earlier; or, arriving at the same time, it
/// needs fewer connections; or, with as many connections, at the first
/// connection whose stop counts differ, it crosses more stops.
pub open spec fn improves(v: DataStorageView, candidate: Route, solution: Option<Route>) -> bool {
    match solution {
        None => true,
        Some(s) => {
            let t1 = candidate.arrival();
            let t2 = s.arrival();
            let c1 = journey_sections(candidate).len();
            let c2 = journey_sections(s).len();
            if t1 != t2 {
                t1.precedes(t2)
            } else if c1 != c2 {
                c1 < c2
            } else {
                crosses_more_stops(v, journey_sections(candidate), journey_sections(s), 0)
            }
        },
    }
}

/// The number of stops that a section on a journey covers.
fn count_section_stops(data_storage: &DataStorage, s: &RouteSection) -> (res: usize)
    requires
        section_resolves(data_storage@, *s),
    ensures
        res == section_stops(data_storage@, *s),
{
    match s.journey(data_storage) {
        Some(j) => j.count_stops(s.departure_stop_id(), s.arrival_stop_id()),
        None => {
            assert(false);
            0
        },
    }
}

/// Whether `candidate` is a better route than the solution (see `improves`).
pub fn is_improving_solution(
    data_storage: &DataStorage,
    candidate: &Route,
    solution: Option<&Route>,
) -> (res: bool)
    requires
        candidate.sections().len() > 0,
        forall|i: int|
            0 <= i < journey_sections(*candidate).len() ==> section_resolves(
                data_storage@,
                #[trigger] journey_sections(*candidate)[i],
            ),
        solution matches Some(s) ==> s.sections().len() > 0 && forall|i: int|
            0 <= i < journey_sections(*s).len() ==> section_resolves(
                data_storage@,
                #[trigger] journey_sections(*s)[i],
            ),
    ensures
        res == improves(
            data_storage@,
            *candidate,
            match solution {
                None => None,
                Some(s) => Some(*s),
            },
        ),
{
    let sol = match solution {
        None => {
            return true;
        },
        Some(s) => s,
    };
    let t1 = candidate.arrival_at();
    let t2 = sol.arrival_at();
    if t1 != t2 {
        return t1.is_before(&t2);
    }
    assert(candidate.arrival() == sol.arrival());
    let sections_1 = candidate.route_sections_with_existing_journey();
    let sections_2 = sol.route_sections_with_existing_journey();
    let connection_count_1 = sections_1.len();
    let connection_count_2 = sections_2.len();
    if connection_count_1 != connection_count_2 {
        return connection_count_1 < connection_count_2;
    }
    let ghost a = journey_sections(*candidate);
    let ghost b = journey_sections(*sol);
    let mut i: usize = 0;
    while i < connection_count_1
        invariant
            0 <= i <= connection_count_1,
            connection_count_1 == a.len() && connection_count_2 == b.len(),
            connection_count_1 == connection_count_2,
            a == journey_sections(*candidate),
            b == journey_sections(*sol),
            solution == Some(sol),
            candidate.arrival() == sol.arrival(),
            sections_1@.len() == a.len() && sections_2@.len() == b.len(),
            forall|k: int| 0 <= k < a.len() ==> *sections_1@[k] == a[k],
            forall|k: int| 0 <= k < b.len() ==> *sections_2@[k] == b[k],
            forall|k: int| 0 <= k < a.len() ==> section_resolves(data_storage@, #[trigger] a[k]),
            forall|k: int| 0 <= k < b.len() ==> section_resolves(data_storage@, #[trigger] b[k]),
            crosses_more_stops(data_storage@, a, b, 0) == crosses_more_stops(data_storage@, a, b, i as int),
        decreases connection_count_1 - i,
    {
        assert(section_resolves(data_storage@, a[i as int]));
        assert(section_resolves(data_storage@, b[i as int]));
        let stop_count_1 = count_section_stops(data_storage, sections_1[i]);
        let stop_count_2 = count_section_stops(data_storage, sections_2[i]);
        if stop_count_1 != stop_count_2 {
            assert(section_stops(data_storage@, a[i as int]) == stop_count_1);
            assert(section_stops(data_storage@, b[i as int]) == stop_count_2);
            assert(crosses_more_stops(data_storage@, a, b, i as int) == (stop_count_1 > stop_count_2));
            return stop_count_1 > stop_count_2;
        }
        i = i + 1;
    }
    false
}

/// Of two routes that arrive at the same time, the one with fewer
/// connections (sections on a journey) is the better: it improves on the
/// other, and the other never improves on it.
pub proof fn lemma_fewer_connections_is_better(v: DataStorageView, a: Route, b: Route)
    requires
        a.arrival() == b.arrival(),
        journey_sections(a).len() < journey_sections(b).len(),
    ensures
        improves(v, a, Some(b)),
        !improves(v, b, Some(a)),
{
}

/// A route that arrives strictly earlier than another improves on it, and
/// the other never improves on it.
pub proof fn lemma_earlier_arrival_is_better(v: DataStorageView, a: Route, b: Route)
    requires
        a.arrival().precedes(b.arrival()),
    ensures
        improves(v, a, Some(b)),
        !improves(v, b, Some(a)),
{
}

proof fn lemma_crosses_no_more_than_itself(v: DataStorageView, a: Seq<RouteSection>, i: int)
    ensures
        !crosses_more_stops(v, a, a, i),
    decreases a.len() - i,
{
    if 0 <= i < a.len() {
        lemma_crosses_no_more_than_itself(v, a, i + 1);
    }
}

proof fn lemma_crosses_dominates(v: DataStorageView, a: Seq<RouteSection>, b: Seq<RouteSection>, i: int)
    requires
        a.len() == b.len(),
        0 <= i <= a.len(),
        forall|k: int| i <= k < a.len() ==> section_stops(v, #[trigger] a[k]) >= section_stops(v, b[k]),
        exists|k: int| i <= k < a.len() && section_stops(v, #[trigger] a[k]) > section_stops(v, b[k]),
    ensures
        crosses_more_stops(v, a, b, i),
        !crosses_more_stops(v, b, a, i),
    decreases a.len() - i,
{
    let w = choose|k: int| i <= k < a.len() && section_stops(v, #[trigger] a[k]) > section_stops(v, b[k]);
    assert(section_stops(v, a[i]) >= section_stops(v, b[i]));
    if section_stops(v, a[i]) == section_stops(v, b[i]) {
        assert(w != i);
        assert(i + 1 <= w < a.len() && section_stops(v, a[w]) > section_stops(v, b[w]));
        lemma_crosses_dominates(v, a, b, i + 1);
    }
}

/// Of two routes that arrive at the same time with as many connections,
/// where each connection of the first crosses at least as many stops as the
/// matching connection of the second, and one crosses more, the first is the
/// better: it improves on the second, and the second never improves on it.
pub proof fn lemma_more_stops_is_better(v: DataStorageView, a: Route, b: Route)
    requires
        a.arrival() == b.arrival(),
        journey_sections(a).len() == journey_sections(b).len(),
        forall|k: int|
            0 <= k < journey_sections(a).len() ==> section_stops(v, #[trigger] journey_sections(a)[k])
                >= section_stops(v, journey_sections(b)[k]),
        exists|k: int|
            0 <= k < journey_sections(a).len() && section_stops(v, #[trigger] journey_sections(a)[k])
                > section_stops(v, journey_sections(b)[k]),
    ensures
        improves(v, a, Some(b)),
        !improves(v, b, Some(a)),
{
    lemma_crosses_dominates(v, journey_sections(a), journey_sections(b), 0);
}

/// A route never improves on itself: a solution is only replaced by a
/// strictly better route.
pub proof fn lemma_route_does_not_improve_on_itself(v: DataStorageView, a: Route)
    ensures
        !improves(v, a, Some(a)),
{
    lemma_crosses_no_more_than_itself(v, journey_sections(a), 0);
}

/// The hash of the route of the section's journey from `stop_id`, where the
/// section is on a journey that the storage holds and that passes the stop.
pub open spec fn section_hash(v: DataStorageView, s: RouteSection, stop_id: i32) -> Option<u64> {
    match s.spec_journey_id() {
        Some(id) => if v.journeys.contains_key(id) {
            v.journeys[id].route_hash_of(stop_id)
        } else {
            None
        },
        None => None,
    }
}

/// The hashes of the routes, from the route's arrival stop on, of the
/// journeys that the route has taken.
pub open spec fn taken_route_hashes(v: DataStorageView, route: Route) -> Set<u64> {
    Set::new(
        |h: u64|
            exists|i: int|
                #![trigger route.sections()[i]]
                0 <= i < route.sections().len() && section_hash(
                    v,
                    route.sections()[i],
                    route.sections().last().spec_arrival_stop_id(),
                ) == Some(h),
    )
}

/// The routes not to take again from the route's arrival stop: those of the
/// journeys it has taken.
pub fn get_routes_to_ignore(data_storage: &DataStorage, route: &Route) -> (res: FxHashSet<u64>)
    requires
        route.sections().len() > 0,
    ensures
        res@ == taken_route_hashes(data_storage@, *route),
{
    let stop = route.arrival_stop_id();
    let sections = route.route_sections();
    let mut res: FxHashSet<u64> = fx_set_new();
    let mut i: usize = 0;
    while i < sections.len()
        invariant
            0 <= i <= sections@.len(),
            sections@ == route.sections(),
            stop == route.sections().last().spec_arrival_stop_id(),
            res@ == Set::new(
                |h: u64|
                    exists|k: int|
                        #![trigger route.sections()[k]]
                        0 <= k < i && section_hash(data_storage@, route.sections()[k], stop) == Some(h),
            ),
        decreases sections@.len() - i,
    {
        let ghost prev = res@;
        match sections[i].journey(data_storage) {
            Some(j) => match j.hash_route(stop) {
                Some(h) => {
                    fx_set_insert(&mut res, h);
                },
                None => {},
            },
            None => {},
        }
        proof {
            let ii = i as int;
            assert(res@ =~= Set::new(
                |h: u64|
                    exists|k: int|
                        #![trigger route.sections()[k]]
                        0 <= k < ii + 1 && section_hash(data_storage@, route.sections()[k], stop) == Some(h),
            )) by {
                assert forall|h: u64| res@.contains(h) implies exists|k: int|
                    #![trigger route.sections()[k]]
                    0 <= k < ii + 1 && section_hash(data_storage@, route.sections()[k], stop) == Some(h) by {
                    if !prev.contains(h) {
                        assert(route.sections()[ii] == sections@[ii]);
                    }
                }
            }
        }
        i = i + 1;
    }
    res
}

} // verus!

verus! {

/// `b` is the section `a` ending at `stop_id` at `at` instead.
pub open spec fn ends_instead(a: RouteSection, b: RouteSection, stop_id: i32, at: DateTime) -> bool {
    &&& b.spec_arrival_stop_id() == stop_id
    &&& b.spec_arrival_at() == at
    &&& b.spec_journey_id() == a.spec_journey_id()
    &&& b.spec_departure_stop_id() == a.spec_departure_stop_id()
    &&& b.spec_duration() == a.spec_duration()
}

/// `b` is the route `a` with its last section ending at `stop_id` at `at`.
pub open spec fn last_section_ends_instead(a: Route, b: Route, stop_id: i32, at: DateTime) -> bool {
    &&& b.sections().len() == a.sections().len()
    &&& forall|i: int| 0 <= i < a.sections().len() - 1 ==> b.sections()[i] == a.sections()[i]
    &&& ends_instead(a.sections().last(), b.sections().last(), stop_id, at)
    &&& b.visited() == a.visited()
}

impl Route {
    /// The route with its last section ending at `stop_id` at `at`.
    fn with_last_arrival(self, stop_id: i32, at: DateTime) -> (res: Route)
        requires
            self.sections().len() > 0,
        ensures
            last_section_ends_instead(self, res, stop_id, at),
    {
        let mut route = self;
        let n = route.route_sections.len();
        let mut last = route.route_sections[n - 1];
        last.set_arrival_stop_id(stop_id);
        last.set_arrival_at(at);
        route.route_sections.set(n - 1, last);
        route
    }
}

/// What `update_arrival_stop` gives for `route` ended at `arrival_stop_id`
/// (see there).
pub open spec fn arrival_updated(v: DataStorageView, route: Route, arrival_stop_id: i32, res: HResult<Route>) -> bool {
    let last = route.sections().last();
    let j = v.journeys[last.spec_journey_id()->0];
    let a = last.spec_arrival_at();
    match arrival_time_spec(j.route_view(), arrival_stop_id) {
        Err(e) => res == Err::<Route, HrdfError>(e),
        Ok((t, _)) => if t.minute_of_day() <= a.time_part().minute_of_day() {
            res matches Ok(r) && r.sections().last().spec_arrival_at().date_part()
                == a.date_part() && last_section_ends_instead(
                route,
                r,
                arrival_stop_id,
                r.sections().last().spec_arrival_at(),
            ) && r.sections().last().spec_arrival_at().time_part() == t
        } else {
            match res {
                Ok(r) => r.sections().last().spec_arrival_at().date_part().day_number()
                    == a.date_part().day_number() - 1 && last_section_ends_instead(
                    route,
                    r,
                    arrival_stop_id,
                    r.sections().last().spec_arrival_at(),
                ) && r.sections().last().spec_arrival_at().time_part() == t,
                Err(e) => e == HrdfError::FailedToSubDays(a.date_part(), 1),
            }
        },
    }
}

/// Moves the end of the route's last section (on a journey) to
/// `arrival_stop_id`: it then arrives at the journey's arrival time there, on
/// the day of the section's arrival if that time is not later than the
/// section's, else on the day before.
pub fn update_arrival_stop(data_storage: &DataStorage, route: Route, arrival_stop_id: i32) -> (res:
    HResult<Route>)
    requires
        route.sections().len() > 0,
        section_resolves(data_storage@, route.sections().last()),
    ensures
        arrival_updated(data_storage@, route, arrival_stop_id, res),
{
    let last = *route.last_route_section();
    let journey = match last.journey(data_storage) {
        Some(j) => j,
        None => {
            assert(false);
            return Err(HrdfError::MissingRoute);
        },
    };
    let (new_arrival_time, _) = journey.arrival_time_of(arrival_stop_id)?;
    let arrival_at = last.arrival_at();
    let arrival_date = arrival_at.date();
    let new_arrival_at = if new_arrival_time.minutes() <= arrival_at.time().minutes() {
        DateTime::new(arrival_date, new_arrival_time)
    } else {
        DateTime::new(sub_1_day(arrival_date)?, new_arrival_time)
    };
    Ok(route.with_last_arrival(arrival_stop_id, new_arrival_at))
}

} // verus!

verus! {

/// From the `k`-th stop of a route on, the first stop at which a passenger
/// can leave the journey: one where changing is allowed, or the last stop of
/// the route. Fails at a stop that the storage does not hold.
pub open spec fn next_exit(v: DataStorageView, route: Seq<JourneyRouteEntry>, k: int) -> HResult<
    Option<int>,
>
    decreases route.len() - k,
{
    if k >= route.len() || k < 0 {
        Ok(None)
    } else if !v.stops.contains_key(route[k].spec_stop_id()) {
        Err(HrdfError::Journey(JourneyError::StopIdNotFound(route[k].spec_stop_id())))
    } else if v.stops[route[k].spec_stop_id()]@.exchange_flag != 0 || v.stops[route[k].spec_stop_id()]@.id
        == route.last().spec_stop_id() {
        Ok(Some(k))
    } else {
        next_exit(v, route, k + 1)
    }
}

proof fn lemma_exit_from(v: DataStorageView, route: Seq<JourneyRouteEntry>, s: int)
    requires
        0 <= s < route.len(),
        forall|q: int| s <= q < route.len() ==> v.stops.contains_key(#[trigger] route[q].spec_stop_id()),
        v.stops[route.last().spec_stop_id()]@.id == route.last().spec_stop_id(),
    ensures
        exists|k: int|
            s <= k < route.len() && next_exit(v, route, s) == Ok::<Option<int>, HrdfError>(Some(k)) && (
            v.stops[route[k].spec_stop_id()]@.exchange_flag != 0 || v.stops[route[k].spec_stop_id()]@.id
                == route.last().spec_stop_id()) && forall|q: int|
                s <= q < k ==> v.stops[#[trigger] route[q].spec_stop_id()]@.exchange_flag == 0
                    && v.stops[route[q].spec_stop_id()]@.id != route.last().spec_stop_id(),
    decreases route.len() - s,
{
    assert(v.stops.contains_key(route[s].spec_stop_id()));
    if v.stops[route[s].spec_stop_id()]@.exchange_flag != 0 || v.stops[route[s].spec_stop_id()]@.id
        == route.last().spec_stop_id() {
        assert(next_exit(v, route, s) == Ok::<Option<int>, HrdfError>(Some(s)));
    } else {
        assert(s != route.len() - 1);
        lemma_exit_from(v, route, s + 1);
        let k = choose|k: int|
            s + 1 <= k < route.len() && next_exit(v, route, s + 1) == Ok::<Option<int>, HrdfError>(Some(k)) && (
            v.stops[route[k].spec_stop_id()]@.exchange_flag != 0 || v.stops[route[k].spec_stop_id()]@.id
                == route.last().spec_stop_id()) && forall|q: int|
                s + 1 <= q < k ==> v.stops[#[trigger] route[q].spec_stop_id()]@.exchange_flag == 0
                    && v.stops[route[q].spec_stop_id()]@.id != route.last().spec_stop_id();
        assert(next_exit(v, route, s) == next_exit(v, route, s + 1));
        assert forall|q: int| s <= q < k implies v.stops[#[trigger] route[q].spec_stop_id()]@.exchange_flag == 0
            && v.stops[route[q].spec_stop_id()]@.id != route.last().spec_stop_id() by {
            if q > s {
                assert(s + 1 <= q < k);
            }
        }
    }
}

/// A journey boarded at its `p`-th stop, before its last, can always be left
/// again: at the first following stop where changing is allowed or that is
/// the journey's last stop (where the stops after the `p`-th are in the
/// storage, the last under its own id).
pub proof fn lemma_section_ends_at_first_exit(v: DataStorageView, route: Seq<JourneyRouteEntry>, p: int)
    requires
        0 <= p < route.len() - 1,
        forall|q: int| p < q < route.len() ==> v.stops.contains_key(#[trigger] route[q].spec_stop_id()),
        v.stops[route.last().spec_stop_id()]@.id == route.last().spec_stop_id(),
    ensures
        exists|k: int|
            p < k < route.len() && next_exit(v, route, p + 1) == Ok::<Option<int>, HrdfError>(Some(k)) && (
            v.stops[route[k].spec_stop_id()]@.exchange_flag != 0 || v.stops[route[k].spec_stop_id()]@.id
                == route.last().spec_stop_id()) && forall|q: int|
                p < q < k ==> v.stops[#[trigger] route[q].spec_stop_id()]@.exchange_flag == 0
                    && v.stops[route[q].spec_stop_id()]@.id != route.last().spec_stop_id(),
{
    lemma_exit_from(v, route, p + 1);
}

/// The ids of the stops of the route's entries `from..=to`.
pub open spec fn passed_stops(v: DataStorageView, route: Seq<JourneyRouteEntry>, from: int, to: int) -> Set<i32> {
    Set::new(
        |id: i32|
            exists|q: int|
                #![trigger route[q]]
                from <= q <= to && v.stops[route[q].spec_stop_id()]@.id == id,
    )
}

/// A section that `find_next` may give: on journey `j` from
/// `departure_stop_id` (its first occurrence) to the next stop where the
/// passenger can leave, with the stops passed on the way.
pub open spec fn next_section(
    v: DataStorageView,
    j: Journey,
    departure_stop_id: i32,
    date: Date,
    is_departure_date: bool,
    sec: RouteSection,
    visited: Set<i32>,
) -> bool {
    let route = j.route_view();
    let p = find_stop(route, departure_stop_id, 0);
    if p >= route.len() {
        false
    } else {
        match next_exit(v, route, p + 1) {
            Ok(Some(k)) => {
                let x = v.stops[route[k].spec_stop_id()]@.id;
                &&& sec.spec_journey_id() == Some(j.spec_id())
                &&& sec.spec_departure_stop_id() == departure_stop_id
                &&& sec.spec_arrival_stop_id() == x
                &&& sec.spec_duration() is None
                &&& arrival_with_origin(
                    route,
                    x,
                    date,
                    is_departure_date,
                    departure_stop_id,
                    Ok::<DateTime, HrdfError>(sec.spec_arrival_at()),
                )
                &&& visited == passed_stops(v, route, p + 1, k)
            },
            _ => false,
        }
    }
}

/// A section found on journey `j` from a stop starts there, is on `j`, and
/// ends at a later stop of `j`'s route: the first after the boarding one
/// where changing is allowed or that is the journey's last stop. The stops
/// passed include the one where it ends.
pub proof fn lemma_found_section_is_first_exit(
    v: DataStorageView,
    j: Journey,
    departure_stop_id: i32,
    date: Date,
    is_departure_date: bool,
    sec: RouteSection,
    visited: Set<i32>,
)
    requires
        next_section(v, j, departure_stop_id, date, is_departure_date, sec, visited),
    ensures
        ({
            let route = j.route_view();
            let p = find_stop(route, departure_stop_id, 0);
            &&& sec.spec_journey_id() == Some(j.spec_id())
            &&& sec.spec_departure_stop_id() == departure_stop_id
            &&& visited.contains(sec.spec_arrival_stop_id())
            &&& exists|k: int|
                p < k < route.len() && v.stops[route[k].spec_stop_id()]@.id == sec.spec_arrival_stop_id() && (
                v.stops[route[k].spec_stop_id()]@.exchange_flag != 0 || v.stops[route[k].spec_stop_id()]@.id
                    == route.last().spec_stop_id()) && forall|q: int|
                    p < q < k ==> v.stops[#[trigger] route[q].spec_stop_id()]@.exchange_flag == 0
                        && v.stops[route[q].spec_stop_id()]@.id != route.last().spec_stop_id()
        }),
{
    let route = j.route_view();
    let p = find_stop(route, departure_stop_id, 0);
    let k = choose|k: int| next_exit(v, route, p + 1) == Ok::<Option<int>, HrdfError>(Some(k));
    lemma_next_exit_is_first(v, route, p + 1);
    assert(visited == passed_stops(v, route, p + 1, k));
    assert(route[k] == route[k]);
    assert(visited.contains(v.stops[route[k].spec_stop_id()]@.id));
}

proof fn lemma_next_exit_is_first(v: DataStorageView, route: Seq<JourneyRouteEntry>, s: int)
    ensures
        next_exit(v, route, s) matches Ok(Some(k)) ==> {
            &&& s <= k < route.len()
            &&& v.stops[route[k].spec_stop_id()]@.exchange_flag != 0 || v.stops[route[k].spec_stop_id()]@.id
                == route.last().spec_stop_id()
            &&& forall|q: int|
                s <= q < k ==> v.stops[#[trigger] route[q].spec_stop_id()]@.exchange_flag == 0
                    && v.stops[route[q].spec_stop_id()]@.id != route.last().spec_stop_id()
        },
    decreases route.len() - s,
{
    if 0 <= s < route.len() && v.stops.contains_key(route[s].spec_stop_id()) && !(
    v.stops[route[s].spec_stop_id()]@.exchange_flag != 0 || v.stops[route[s].spec_stop_id()]@.id
        == route.last().spec_stop_id()) {
        lemma_next_exit_is_first(v, route, s + 1);
        if let Ok(Some(k)) = next_exit(v, route, s) {
            assert forall|q: int| s <= q < k implies v.stops[#[trigger] route[q].spec_stop_id()]@.exchange_flag == 0
                && v.stops[route[q].spec_stop_id()]@.id != route.last().spec_stop_id() by {
                if q > s {
                    assert(s + 1 <= q < k);
                }
            }
        }
    }
}

impl RouteSection {
    /// The section of `journey` from `departure_stop_id` to the next stop
    /// where the passenger can leave (one where changing is allowed, or the
    /// last stop), with the stops passed on the way; `None` where the
    /// journey does not pass `departure_stop_id` or no such stop follows.
    pub fn find_next(
        data_storage: &DataStorage,
        journey: &Journey,
        departure_stop_id: i32,
        date: Date,
        is_departure_date: bool,
    ) -> (res: HResult<Option<(RouteSection, FxHashSet<i32>)>>)
        ensures
            ({
                let route = journey.route_view();
                let p = find_stop(route, departure_stop_id, 0);
                match res {
                    Ok(Some((sec, visited))) => next_section(
                        data_storage@,
                        *journey,
                        departure_stop_id,
                        date,
                        is_departure_date,
                        sec,
                        visited@,
                    ),
                    Ok(None) => p >= route.len() || next_exit(data_storage@, route, p + 1) == Ok::<
                        Option<int>,
                        HrdfError,
                    >(None),
                    Err(e) => p < route.len() && match next_exit(data_storage@, route, p + 1) {
                        Err(e2) => e2 == e,
                        Ok(Some(k)) => arrival_with_origin(
                            route,
                            data_storage@.stops[route[k].spec_stop_id()]@.id,
                            date,
                            is_departure_date,
                            departure_stop_id,
                            Err::<DateTime, HrdfError>(e),
                        ),
                        Ok(None) => false,
                    },
                }
            }),
            ({
                let route = journey.route_view();
                let p = find_stop(route, departure_stop_id, 0);
                (p < route.len() - 1 && (forall|q: int|
                    p < q < route.len() ==> data_storage@.stops.contains_key(#[trigger] route[q].spec_stop_id()))
                    && data_storage@.stops[route.last().spec_stop_id()]@.id == route.last().spec_stop_id())
                    ==> !(res matches Ok(None))
            }),
    {
        let ghost v = data_storage@;
        let route = journey.route();
        let ghost rv = route@;
        let mut p: usize = 0;
        while p < route.len()
            invariant
                0 <= p <= rv.len(),
                rv == route@,
                rv == journey.route_view(),
                find_stop(rv, departure_stop_id, 0) == find_stop(rv, departure_stop_id, p as int),
            ensures
                0 <= p <= rv.len(),
                find_stop(rv, departure_stop_id, 0) == find_stop(rv, departure_stop_id, p as int),
                p < rv.len() ==> rv[p as int].spec_stop_id() == departure_stop_id,
            decreases rv.len() - p,
        {
            if route[p].stop_id() == departure_stop_id {
                break;
            }
            p = p + 1;
        }
        if p >= route.len() {
            return Ok(None);
        }
        assert(find_stop(rv, departure_stop_id, 0) == p);
        let mut visited: FxHashSet<i32> = fx_set_new();
        let mut k: usize = p + 1;
        while k < route.len()
            invariant
                p < rv.len(),
                find_stop(rv, departure_stop_id, 0) == p,
                p + 1 <= k <= rv.len(),
                rv == route@,
                rv == journey.route_view(),
                v == data_storage@,
                next_exit(v, rv, p + 1) == next_exit(v, rv, k as int),
                visited@ == passed_stops(v, rv, p + 1, k - 1),
            decreases rv.len() - k,
        {
            let stop = match route[k].stop(data_storage) {
                Ok(s) => s,
                Err(e) => {
                    assert(next_exit(v, rv, k as int) == Err::<Option<int>, HrdfError>(e));
                    return Err(e);
                },
            };
            let ghost prev = visited@;
            fx_set_insert(&mut visited, stop.id());
            proof {
                assert(visited@ =~= passed_stops(v, rv, p + 1, k as int)) by {
                    assert forall|id: i32| visited@.contains(id) implies passed_stops(v, rv, p + 1, k as int).contains(id) by {
                        if !prev.contains(id) {
                            assert(v.stops[rv[k as int].spec_stop_id()]@.id == id);
                        } else {
                            let q = choose|q: int| #![trigger rv[q]] p + 1 <= q <= k - 1 && v.stops[rv[q].spec_stop_id()]@.id == id;
                        }
                    }
                    assert forall|id: i32| passed_stops(v, rv, p + 1, k as int).contains(id) implies visited@.contains(id) by {
                        let q = choose|q: int| #![trigger rv[q]] p + 1 <= q <= k && v.stops[rv[q].spec_stop_id()]@.id == id;
                        if q < k {
                            assert(prev.contains(id));
                        }
                    }
                }
            }
            let is_last = match journey.is_last_stop(stop.id(), false) {
                Ok(b) => b,
                Err(e) => {
                    assert(false);
                    return Err(e);
                },
            };
            if stop.can_be_used_as_exchange_point() || is_last {
                assert(next_exit(v, rv, k as int) == Ok::<Option<int>, HrdfError>(Some(k as int)));
                let arrival_at = journey.arrival_at_of_with_origin(
                    stop.id(),
                    date,
                    is_departure_date,
                    departure_stop_id,
                )?;
                return Ok(
                    Some(
                        (
                            RouteSection::new(
                                Some(journey.id()),
                                departure_stop_id,
                                stop.id(),
                                arrival_at,
                                None,
                            ),
                            visited,
                        ),
                    ),
                );
            }
            k = k + 1;
        }
        proof {
            if p < rv.len() - 1 && (forall|q: int| p < q < rv.len() ==> v.stops.contains_key(#[trigger] rv[q].spec_stop_id()))
                && v.stops[rv.last().spec_stop_id()]@.id == rv.last().spec_stop_id() {
                lemma_section_ends_at_first_exit(v, rv, p as int);
            }
        }
        Ok(None)
    }
}

} // verus!

verus! {

/// Adds the elements of `src` to `dst`.
fn set_union_into(dst: &mut FxHashSet<i32>, src: &FxHashSet<i32>)
    ensures
        final(dst)@ == old(dst)@.union(src@),
{
    let elems = fx_set_elements(src);
    let ghost start = dst@;
    let mut i: usize = 0;
    while i < elems.len()
        invariant
            0 <= i <= elems@.len(),
            elems@.to_set() == src@,
            dst@ == start.union(elems@.subrange(0, i as int).to_set()),
        decreases elems@.len() - i,
    {
        proof {
            assert(elems@.subrange(0, i + 1) =~= elems@.subrange(0, i as int).push(elems@[i as int]));
            elems@.subrange(0, i as int).lemma_push_to_set_commute(elems@[i as int]);
        }
        fx_set_insert(dst, elems[i]);
        assert(dst@ =~= start.union(elems@.subrange(0, i + 1).to_set()));
        i = i + 1;
    }
    assert(elems@.subrange(0, elems@.len() as int) =~= elems@);
}

/// A copy of `route`.
pub fn clone_route(route: &Route) -> (res: Route)
    ensures
        res.sections() == route.sections(),
        res.visited() == route.visited(),
{
    let mut sections: Vec<RouteSection> = Vec::new();
    let mut i: usize = 0;
    while i < route.route_sections.len()
        invariant
            0 <= i <= route.route_sections@.len(),
            sections@ == route.route_sections@.subrange(0, i as int),
        decreases route.route_sections@.len() - i,
    {
        sections.push(route.route_sections[i]);
        assert(sections@ =~= route.route_sections@.subrange(0, i + 1));
        i = i + 1;
    }
    assert(sections@ =~= route.sections());
    let mut visited: FxHashSet<i32> = fx_set_new();
    set_union_into(&mut visited, &route.visited_stops);
    assert(visited@ =~= route.visited());
    Route { route_sections: sections, visited_stops: visited }
}

/// A copy of `route` with `section` added at the end and `visited_stop`
/// added to the stops it has passed.
pub fn clone_update_route(route: &Route, section: RouteSection, visited_stop: i32) -> (res: Route)
    ensures
        res.sections() == route.sections().push(section),
        res.visited() == route.visited().insert(visited_stop),
{
    let base = clone_route(route);
    let mut sections = base.route_sections;
    let mut visited = base.visited_stops;
    sections.push(section);
    fx_set_insert(&mut visited, visited_stop);
    Route { route_sections: sections, visited_stops: visited }
}

/// The outcomes in which `find_next` fails.
pub open spec fn find_next_fails(
    v: DataStorageView,
    j: Journey,
    departure_stop_id: i32,
    date: Date,
    is_departure_date: bool,
    e: HrdfError,
) -> bool {
    let route = j.route_view();
    let p = find_stop(route, departure_stop_id, 0);
    p < route.len() && match next_exit(v, route, p + 1) {
        Err(e2) => e2 == e,
        Ok(Some(k)) => arrival_with_origin(
            route,
            v.stops[route[k].spec_stop_id()]@.id,
            date,
            is_departure_date,
            departure_stop_id,
            Err::<DateTime, HrdfError>(e),
        ),
        Ok(None) => false,
    }
}

/// `b` is `a` continued by the section `sec` on journey `journey_id`
/// (merged into the last section where that is on the same journey), having
/// passed the stops `visited` too.
pub open spec fn extended_by(a: Route, b: Route, sec: RouteSection, visited: Set<i32>, journey_id: i32) -> bool {
    &&& b.visited() == a.visited().union(visited)
    &&& if a.sections().last().spec_journey_id() == Some(journey_id) {
        &&& b.sections().len() == a.sections().len()
        &&& forall|i: int| 0 <= i < a.sections().len() - 1 ==> b.sections()[i] == a.sections()[i]
        &&& ends_instead(
            a.sections().last(),
            b.sections().last(),
            sec.spec_arrival_stop_id(),
            sec.spec_arrival_at(),
        )
    } else {
        b.sections() == a.sections().push(sec)
    }
}

/// Whether the section would bring the route back to a stop it has passed,
/// other than the journey's first stop.
pub open spec fn revisits(a: Route, j: Journey, sec: RouteSection, visited: Set<i32>) -> bool {
    (exists|s: i32| a.visited().contains(s) && visited.contains(s)) && sec.spec_arrival_stop_id()
        != j.route_view()[0].spec_stop_id()
}

/// `r` is `a` continued on journey `journey_id`, boarded at `stop` (see
/// `Route::extend`).
pub open spec fn extends_to(
    v: DataStorageView,
    a: Route,
    journey_id: i32,
    stop: i32,
    date: Date,
    is_departure_date: bool,
    r: Route,
) -> bool {
    exists|sec: RouteSection, visited: Set<i32>|
        #![trigger next_section(v, v.journeys[journey_id], stop, date, is_departure_date, sec, visited)]
        next_section(v, v.journeys[journey_id], stop, date, is_departure_date, sec, visited) && !revisits(
            a,
            v.journeys[journey_id],
            sec,
            visited,
        ) && extended_by(a, r, sec, visited, journey_id)
}

/// The continuation on journey `journey_id` from `stop` would come back to a
/// stop that `a` has passed.
pub open spec fn extension_revisits(
    v: DataStorageView,
    a: Route,
    journey_id: i32,
    stop: i32,
    date: Date,
    is_departure_date: bool,
) -> bool {
    exists|sec: RouteSection, visited: Set<i32>|
        #![trigger next_section(v, v.journeys[journey_id], stop, date, is_departure_date, sec, visited)]
        next_section(v, v.journeys[journey_id], stop, date, is_departure_date, sec, visited) && revisits(
            a,
            v.journeys[journey_id],
            sec,
            visited,
        )
}

/// What `Route::extend` gives for `a` continued on journey `journey_id`
/// (see there).
pub open spec fn extend_outcome(
    v: DataStorageView,
    a: Route,
    journey_id: i32,
    date: Date,
    is_departure_date: bool,
    res: HResult<Option<Route>>,
) -> bool {
    let stop = a.sections().last().spec_arrival_stop_id();
    match res {
        Ok(Some(r)) => v.journeys.contains_key(journey_id) && extends_to(v, a, journey_id, stop, date, is_departure_date, r),
        Ok(None) => !v.journeys.contains_key(journey_id) || ends_at_stop(v.journeys[journey_id], stop) || {
            let route = v.journeys[journey_id].route_view();
            let p = find_stop(route, stop, 0);
            p >= route.len() || next_exit(v, route, p + 1) == Ok::<Option<int>, HrdfError>(None)
        } || extension_revisits(v, a, journey_id, stop, date, is_departure_date),
        Err(e) => v.journeys.contains_key(journey_id) && (v.journeys[journey_id].route_view().len() == 0
            || find_next_fails(v, v.journeys[journey_id], stop, date, is_departure_date, e)),
    }
}

impl Route {
    /// The route continued on journey `journey_id`, boarded at the route's
    /// arrival stop, up to the next stop where the passenger can leave (see
    /// `RouteSection::find_next`); `None` where the storage has no such
    /// journey, where the journey ends at that stop, where no such stop
    /// follows, or where the route would come back to a stop it has passed
    /// (other than the journey's first stop).
    pub fn extend(&self, data_storage: &DataStorage, journey_id: i32, date: Date, is_departure_date: bool) -> (res:
        HResult<Option<Route>>)
        requires
            self.sections().len() > 0,
        ensures
            extend_outcome(data_storage@, *self, journey_id, date, is_departure_date, res),
    {
        let journey = match data_storage.journeys().find(journey_id) {
            Some(j) => j,
            None => {
                return Ok(None);
            },
        };
        let stop = self.arrival_stop_id();
        if journey.is_last_stop(stop, false)? {
            return Ok(None);
        }
        let last = *self.last_route_section();
        let is_same_journey = match last.journey_id() {
            Some(id) => id == journey_id,
            None => false,
        };
        let (new_section, new_visited_stops) = match RouteSection::find_next(
            data_storage,
            journey,
            stop,
            date,
            is_departure_date,
        )? {
            Some(x) => x,
            None => {
                return Ok(None);
            },
        };
        if self.has_visited_any_stops(&new_visited_stops) && new_section.arrival_stop_id()
            != journey.first_stop_id()? {
            assert(next_section(
                data_storage@,
                *journey,
                stop,
                date,
                is_departure_date,
                new_section,
                new_visited_stops@,
            ) && revisits(*self, *journey, new_section, new_visited_stops@));
            return Ok(None);
        }
        assert(!revisits(*self, *journey, new_section, new_visited_stops@));
        let mut sections: Vec<RouteSection> = Vec::new();
        let mut i: usize = 0;
        while i < self.route_sections.len()
            invariant
                0 <= i <= self.route_sections@.len(),
                sections@ == self.route_sections@.subrange(0, i as int),
            decreases self.route_sections@.len() - i,
        {
            sections.push(self.route_sections[i]);
            assert(sections@ =~= self.route_sections@.subrange(0, i + 1));
            i = i + 1;
        }
        assert(sections@ =~= self.sections());
        let mut visited: FxHashSet<i32> = fx_set_new();
        set_union_into(&mut visited, &self.visited_stops);
        set_union_into(&mut visited, &new_visited_stops);
        assert(visited@ =~= self.visited().union(new_visited_stops@));
        let base = Route { route_sections: sections, visited_stops: visited };
        let new_route = if is_same_journey {
            base.with_last_arrival(new_section.arrival_stop_id(), new_section.arrival_at())
        } else {
            let mut b = base;
            b.route_sections.push(new_section);
            b
        };
        proof {
            assert(next_section(
                data_storage@,
                *journey,
                stop,
                date,
                is_departure_date,
                new_section,
                new_visited_stops@,
            ));
            assert(extended_by(*self, new_route, new_section, new_visited_stops@, journey_id));
            let v = data_storage@;
            assert(self.sections().last().spec_arrival_stop_id() == stop);
            let st = self.sections().last().spec_arrival_stop_id();
            assert(next_section(v, v.journeys[journey_id], st, date, is_departure_date, new_section, new_visited_stops@)
                && !revisits(*self, v.journeys[journey_id], new_section, new_visited_stops@) && extended_by(
                *self,
                new_route,
                new_section,
                new_visited_stops@,
                journey_id,
            ));
        }
        Ok(Some(new_route))
    }
}

/// The route leaves from `stop_id`: its first section starts there.
pub open spec fn starts_at(r: Route, stop_id: i32) -> bool {
    r.sections().len() > 0 && r.sections()[0].spec_departure_stop_id() == stop_id
}

/// A continuation of `a` on a journey keeps where `a` starts, has sections
/// and ends on a journey.
pub proof fn lemma_extension_shape(
    v: DataStorageView,
    a: Route,
    journey_id: i32,
    date: Date,
    is_departure_date: bool,
    r: Route,
)
    requires
        a.sections().len() > 0,
        extend_outcome(v, a, journey_id, date, is_departure_date, Ok::<Option<Route>, HrdfError>(Some(r))),
    ensures
        r.sections().len() > 0,
        r.sections().last().spec_journey_id() is Some,
        forall|s: i32| starts_at(a, s) ==> starts_at(r, s),
{
    let stop = a.sections().last().spec_arrival_stop_id();
    let j = v.journeys[journey_id];
    let (sec, visited) = choose|sec: RouteSection, visited: Set<i32>|
        next_section(v, j, stop, date, is_departure_date, sec, visited) && !revisits(a, j, sec, visited)
            && extended_by(a, r, sec, visited, journey_id);
    assert(next_section(v, j, stop, date, is_departure_date, sec, visited));
    if a.sections().last().spec_journey_id() == Some(journey_id) {
        if a.sections().len() > 1 {
            assert(r.sections()[0] == a.sections()[0]);
        }
    } else {
        assert(r.sections()[0] == a.sections()[0]);
        assert(r.sections().last() == sec);
    }
}

/// Continuing a route on the journey of its last section changes only where
/// and when that last section arrives: the route keeps its sections (so as
/// many connections), the last one on the same journey from the same stop.
/// Continuing it on another journey adds one section on that journey (named
/// by the journey's own id), from the stop where the route arrived, and keeps
/// the sections before.
pub proof fn lemma_extension_on_same_journey_keeps_sections(
    v: DataStorageView,
    a: Route,
    journey_id: i32,
    date: Date,
    is_departure_date: bool,
    r: Route,
)
    requires
        a.sections().len() > 0,
        extend_outcome(v, a, journey_id, date, is_departure_date, Ok::<Option<Route>, HrdfError>(Some(r))),
    ensures
        a.visited().subset_of(r.visited()),
        r.visited().contains(r.sections().last().spec_arrival_stop_id()),
        a.sections().last().spec_journey_id() == Some(journey_id) ==> {
            &&& r.sections().len() == a.sections().len()
            &&& journey_sections(r).len() == journey_sections(a).len()
            &&& forall|i: int| 0 <= i < a.sections().len() - 1 ==> r.sections()[i] == a.sections()[i]
            &&& r.sections().last().spec_journey_id() == Some(journey_id)
            &&& r.sections().last().spec_departure_stop_id() == a.sections().last().spec_departure_stop_id()
            &&& r.sections().last().spec_duration() == a.sections().last().spec_duration()
        },
        a.sections().last().spec_journey_id() != Some(journey_id) ==> {
            &&& r.sections().len() == a.sections().len() + 1
            &&& journey_sections(r).len() == journey_sections(a).len() + 1
            &&& forall|i: int| 0 <= i < a.sections().len() ==> r.sections()[i] == a.sections()[i]
            &&& r.sections().last().spec_journey_id() == Some(v.journeys[journey_id].spec_id())
            &&& r.sections().last().spec_departure_stop_id() == a.sections().last().spec_arrival_stop_id()
        },
{
    let stop = a.sections().last().spec_arrival_stop_id();
    let j = v.journeys[journey_id];
    let (sec, visited) = choose|sec: RouteSection, visited: Set<i32>|
        next_section(v, j, stop, date, is_departure_date, sec, visited) && !revisits(a, j, sec, visited)
            && extended_by(a, r, sec, visited, journey_id);
    assert(next_section(v, j, stop, date, is_departure_date, sec, visited));
    lemma_found_section_is_first_exit(v, j, stop, date, is_departure_date, sec, visited);
    let sa = a.sections();
    let sr = r.sections();
    reveal(Seq::filter);
    if sa.last().spec_journey_id() == Some(journey_id) {
        assert(sr.drop_last() =~= sa.drop_last());
        assert(sr =~= sr.drop_last().push(sr.last()));
        assert(sa =~= sa.drop_last().push(sa.last()));
        assert(has_journey(sr.last()) && has_journey(sa.last()));
    } else {
        assert(sr.drop_last() =~= sa);
        assert(sr.last() == sec);
        assert(has_journey(sec));
        assert(sr.len() == sa.len() + 1);
        assert(journey_sections(r).len() == journey_sections(a).len() + 1);
        assert(sr.last().spec_departure_stop_id() == sa.last().spec_arrival_stop_id());
    }
}

/// A route whose last section ends elsewhere keeps where it starts.
pub proof fn lemma_updated_starts(v: DataStorageView, route: Route, arrival_stop_id: i32, c: Route)
    requires
        route.sections().len() > 0,
        arrival_updated(v, route, arrival_stop_id, Ok::<Route, HrdfError>(c)),
    ensures
        forall|s: i32| starts_at(route, s) ==> starts_at(c, s),
        c.sections().last().spec_arrival_stop_id() == arrival_stop_id,
{
    if route.sections().len() > 1 {
        assert(c.sections()[0] == route.sections()[0]);
    }
}

/// The route of `j` ends at `stop_id` (a route that ends where it starts
/// counts as ending there too).
pub open spec fn ends_at_stop(j: Journey, stop_id: i32) -> bool {
    j.route_view().len() > 0 && stop_id == j.route_view().last().spec_stop_id()
}

} // verus!
