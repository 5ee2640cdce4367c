//! Storage of the parsed resources, and the indexes built over them.
use crate::fxmap::{
    fx_map_get, fx_map_insert, fx_map_keys, fx_map_len, fx_map_new, fx_map_remove, fx_set_contains,
    fx_set_elements, fx_set_insert, fx_set_new,
};
use crate::fxmap::{
    admin_map_contents, admin_map_insert, admin_map_new, journey_pair_map_contents,
    journey_pair_map_insert, journey_pair_map_new, journey_pair_map_remove, through_map_contents,
    through_map_insert, through_map_new, PlainKey,
};
use crate::error::{HResult, HrdfError, JourneyError};
use crate::journey::{Journey, JourneyMetadataEntry, JourneyMetadataType, JourneyRouteEntry};
use crate::calendar::{in_calendar_range, parsed_day_number, Date};
use crate::models::{
    Attribute, BitField, Direction, ExchangeTimeAdministration, ExchangeTimeJourney,
    ExchangeTimeLine, Holiday, InformationText, JourneyId, JourneyPlatform, Line, Model, Platform,
    Stop, StopConnection, StopView, ThroughService, TimetableMetadataEntry, TransportCompany,
    TransportType, texts,
};
use crate::line_parser::lines_view;
use crate::text::str_equals;
use rustc_hash::{FxHashMap, FxHashSet};
use vstd::prelude::*;

verus! {

/// The resources of one kind, by primary key.
pub struct ResourceStorage<M: Model> {
    data: FxHashMap<M::K, M>,
}

impl<M: Model> View for ResourceStorage<M> {
    type V = Map<M::K, M>;

    closed spec fn view(&self) -> Map<M::K, M> {
        self.data@
    }
}

impl<M: Model> ResourceStorage<M> where M::K: Copy {
    /// A storage holding `data`.
    pub fn new(data: FxHashMap<M::K, M>) -> (res: ResourceStorage<M>)
        ensures
            res@ == data@,
    {
        ResourceStorage { data }
    }

    /// The resources by key, taken out of the storage.
    pub fn into_data(self) -> (res: FxHashMap<M::K, M>)
        ensures
            res@ == self@,
    {
        self.data
    }

    /// The resources by key.
    pub fn data(&self) -> (res: &FxHashMap<M::K, M>)
        ensures
            res@ == self@,
    {
        &self.data
    }

    /// The resource with key `k`.
    pub fn find(&self, k: M::K) -> (res: Option<&M>)
        ensures
            match res {
                Some(m) => self@.contains_key(k) && *m == self@[k],
                None => !self@.contains_key(k),
            },
    {
        fx_map_get(&self.data, k)
    }

    /// The number of resources.
    pub fn len(&self) -> (res: usize)
        ensures
            res == self@.dom().len(),
    {
        fx_map_len(&self.data)
    }

    /// The keys, each once, in the storage's own order.
    pub fn keys(&self) -> (res: Vec<M::K>)
        ensures
            res@.to_set() == self@.dom(),
            res@.no_duplicates(),
    {
        fx_map_keys(&self.data)
    }

    /// All resources, each once, in the storage's own order.
    pub fn entries(&self) -> (res: Vec<&M>)
        ensures
            res@.len() == self@.dom().len(),
            forall|i: int| 0 <= i < res@.len() ==> self@.values().contains(*res@[i]),
            forall|k: M::K|
                self@.contains_key(k) ==> exists|i: int| 0 <= i < res@.len() && *res@[i] == self@[k],
    {
        let keys = fx_map_keys(&self.data);
        let mut res: Vec<&M> = Vec::new();
        let mut i: usize = 0;
        while i < keys.len()
            invariant
                0 <= i <= keys@.len(),
                keys@.to_set() == self@.dom(),
                keys@.no_duplicates(),
                res@.len() == i,
                forall|j: int| 0 <= j < i ==> #[trigger] res@[j] == self@[keys@[j]] && self@.contains_key(keys@[j]),
            decreases keys@.len() - i,
        {
            assert(keys@.to_set().contains(keys@[i as int]));
            match fx_map_get(&self.data, keys[i]) {
                Some(m) => res.push(m),
                None => {
                    assert(false);
                },
            }
            i = i + 1;
        }
        proof {
            keys@.unique_seq_to_set();
            assert forall|j: int| 0 <= j < res@.len() implies self@.values().contains(*res@[j]) by {
                assert(self@.contains_key(keys@[j]));
            }
            assert forall|k: M::K| self@.contains_key(k) implies exists|j: int|
                0 <= j < res@.len() && *res@[j] == self@[k] by {
                assert(keys@.to_set().contains(k));
                let j = choose|j: int| 0 <= j < keys@.len() && keys@[j] == k;
                assert(*res@[j] == self@[k]);
            }
        }
        res
    }
}

} // verus!

verus! {

/// The pairs (key, element) of an index from keys to sets.
pub open spec fn index_pairs<K>(m: Map<K, FxHashSet<i32>>) -> Set<(K, i32)> {
    Set::new(|p: (K, i32)| m.contains_key(p.0) && m[p.0]@.contains(p.1))
}

/// Adds `id` to the set at key `k`.
fn index_add<K: PlainKey + Copy>(m: &mut FxHashMap<K, FxHashSet<i32>>, k: K, id: i32)
    ensures
        final(m)@.dom() == old(m)@.dom().insert(k),
        index_pairs(final(m)@) == index_pairs(old(m)@).insert((k, id)),
{
    let ghost old_m = m@;
    let mut set = match fx_map_remove(m, k) {
        Some(s) => s,
        None => fx_set_new(),
    };
    fx_set_insert(&mut set, id);
    fx_map_insert(m, k, set);
    assert(m@.dom() =~= old_m.dom().insert(k));
    assert(index_pairs(m@) =~= index_pairs(old_m).insert((k, id)));
}

} // verus!

verus! {

/// The pairs (first stop, id) of the stop connections.
pub open spec fn connection_pairs(view: Map<i32, StopConnection>) -> Set<(i32, i32)> {
    Set::new(
        |p: (i32, i32)|
            exists|k: i32|
                #![trigger view[k]]
                view.contains_key(k) && view[k].spec_stop_id_1() == p.0 && view[k].spec_id() == p.1,
    )
}

/// The stops where stop connections start.
pub open spec fn connection_starts(view: Map<i32, StopConnection>) -> Set<i32> {
    Set::new(
        |s: i32|
            exists|k: i32| #![trigger view[k]] view.contains_key(k) && view[k].spec_stop_id_1() == s,
    )
}

/// Indexes the stop connections by the stop where they start.
pub fn create_stop_connections_by_stop_id(stop_connections: &ResourceStorage<StopConnection>) -> (res:
    FxHashMap<i32, FxHashSet<i32>>)
    ensures
        res@.dom() == connection_starts(stop_connections@),
        index_pairs(res@) == connection_pairs(stop_connections@),
{
    let ghost view = stop_connections@;
    let keys = stop_connections.keys();
    let mut map: FxHashMap<i32, FxHashSet<i32>> = fx_map_new();
    let mut i: usize = 0;
    while i < keys.len()
        invariant
            0 <= i <= keys@.len(),
            view == stop_connections@,
            keys@.to_set() == view.dom(),
            map@.dom() == Set::new(
                |s: i32|
                    exists|j: int|
                        #![trigger keys@[j]]
                        0 <= j < i && view[keys@[j]].spec_stop_id_1() == s,
            ),
            index_pairs(map@) == Set::new(
                |p: (i32, i32)|
                    exists|j: int|
                        #![trigger keys@[j]]
                        0 <= j < i && view[keys@[j]].spec_stop_id_1() == p.0
                            && view[keys@[j]].spec_id() == p.1,
            ),
        decreases keys@.len() - i,
    {
        assert(keys@.to_set().contains(keys@[i as int]));
        let sc = match stop_connections.find(keys[i]) {
            Some(sc) => sc,
            None => {
                assert(false);
                return map;
            },
        };
        let ghost old_map = map@;
        index_add(&mut map, sc.stop_id_1(), sc.id());
        proof {
            let ii = i as int;
            assert(map@.dom() =~= Set::new(
                |s: i32|
                    exists|j: int|
                        #![trigger keys@[j]]
                        0 <= j < ii + 1 && view[keys@[j]].spec_stop_id_1() == s,
            )) by {
                assert forall|s: i32| map@.dom().contains(s) implies exists|j: int|
                    #![trigger keys@[j]]
                    0 <= j < ii + 1 && view[keys@[j]].spec_stop_id_1() == s by {
                    if s != sc.spec_stop_id_1() {
                        assert(old_map.dom().contains(s));
                    } else {
                        assert(view[keys@[ii]].spec_stop_id_1() == s);
                    }
                }
            }
            assert(index_pairs(map@) =~= Set::new(
                |p: (i32, i32)|
                    exists|j: int|
                        #![trigger keys@[j]]
                        0 <= j < ii + 1 && view[keys@[j]].spec_stop_id_1() == p.0
                            && view[keys@[j]].spec_id() == p.1,
            )) by {
                assert forall|p: (i32, i32)| index_pairs(map@).contains(p) implies exists|j: int|
                    #![trigger keys@[j]]
                    0 <= j < ii + 1 && view[keys@[j]].spec_stop_id_1() == p.0
                        && view[keys@[j]].spec_id() == p.1 by {
                    if p != (sc.spec_stop_id_1(), sc.spec_id()) {
                        assert(index_pairs(old_map).contains(p));
                    } else {
                        assert(view[keys@[ii]].spec_id() == p.1);
                    }
                }
            }
        }
        i = i + 1;
    }
    proof {
        assert(map@.dom() =~= connection_starts(view)) by {
            assert forall|s: i32| connection_starts(view).contains(s) implies map@.dom().contains(s) by {
                let k = choose|k: i32| #![trigger view[k]] view.contains_key(k) && view[k].spec_stop_id_1() == s;
                assert(keys@.to_set().contains(k));
                let j = choose|j: int| 0 <= j < keys@.len() && keys@[j] == k;
                assert(view[keys@[j]].spec_stop_id_1() == s);
            }
            assert forall|s: i32| map@.dom().contains(s) implies connection_starts(view).contains(s) by {
                let j = choose|j: int| #![trigger keys@[j]] 0 <= j < keys@.len() && view[keys@[j]].spec_stop_id_1() == s;
                assert(keys@.to_set().contains(keys@[j]));
            }
        }
        assert(index_pairs(map@) =~= connection_pairs(view)) by {
            assert forall|p: (i32, i32)| connection_pairs(view).contains(p) implies index_pairs(map@).contains(p) by {
                let k = choose|k: i32| #![trigger view[k]] view.contains_key(k) && view[k].spec_stop_id_1() == p.0 && view[k].spec_id() == p.1;
                assert(keys@.to_set().contains(k));
                let j = choose|j: int| 0 <= j < keys@.len() && keys@[j] == k;
                assert(view[keys@[j]].spec_id() == p.1);
            }
            assert forall|p: (i32, i32)| index_pairs(map@).contains(p) implies connection_pairs(view).contains(p) by {
                let j = choose|j: int| #![trigger keys@[j]] 0 <= j < keys@.len() && view[keys@[j]].spec_stop_id_1() == p.0 && view[keys@[j]].spec_id() == p.1;
                assert(keys@.to_set().contains(keys@[j]));
            }
        }
    }
    map
}

} // verus!

verus! {

/// The bit field by which a journey is indexed: its first bit field entry,
/// 0 (every day) where that entry names none.
pub open spec fn effective_bit_field(j: Journey) -> i32 {
    let e = j.metadata_of(JourneyMetadataType::BitField);
    if e.len() == 0 {
        0
    } else {
        match e[0].spec_bit_field_id() {
            Some(b) => b,
            None => 0,
        }
    }
}

/// Whether the stop is on the journey's route.
pub open spec fn on_route(j: Journey, s: i32) -> bool {
    exists|n: int| 0 <= n < j.route_view().len() && #[trigger] j.route_view()[n].spec_stop_id() == s
}

/// Every journey with stops has a bit field entry.
pub open spec fn journeys_have_bit_fields(view: Map<i32, Journey>) -> bool {
    forall|k: i32|
        #![trigger view[k]]
        view.contains_key(k) && view[k].route_view().len() > 0 ==> view[k].metadata_of(
            JourneyMetadataType::BitField,
        ).len() > 0
}

/// The stops that some journey passes.
pub open spec fn served_stops(view: Map<i32, Journey>) -> Set<i32> {
    Set::new(|s: i32| exists|k: i32| #![trigger view[k]] view.contains_key(k) && on_route(view[k], s))
}

/// The pairs (stop, bit field) of the journeys.
pub open spec fn stop_bit_field_pairs(view: Map<i32, Journey>) -> Set<(i32, i32)> {
    Set::new(
        |p: (i32, i32)|
            exists|k: i32|
                #![trigger view[k]]
                view.contains_key(k) && on_route(view[k], p.0) && effective_bit_field(view[k])
                    == p.1,
    )
}

/// The (stop, bit field) keys of the journeys.
pub open spec fn stop_bit_field_keys(view: Map<i32, Journey>) -> Set<(i32, i32)> {
    stop_bit_field_pairs(view)
}

/// The ((stop, bit field), journey id) pairs of the journeys.
pub open spec fn stop_bit_field_journey_pairs(view: Map<i32, Journey>) -> Set<((i32, i32), i32)> {
    Set::new(
        |p: ((i32, i32), i32)|
            exists|k: i32|
                #![trigger view[k]]
                view.contains_key(k) && on_route(view[k], p.0.0) && effective_bit_field(view[k])
                    == p.0.1 && view[k].spec_id() == p.1,
    )
}

/// Adds (s, bf) for each stop s of the route to an index.
fn add_route_stops(m: &mut FxHashMap<i32, FxHashSet<i32>>, j: &Journey, bf: i32)
    ensures
        final(m)@.dom() == old(m)@.dom() + Set::new(|s: i32| on_route(*j, s)),
        index_pairs(final(m)@) == index_pairs(old(m)@) + Set::new(
            |p: (i32, i32)| on_route(*j, p.0) && p.1 == bf,
        ),
{
    let ghost old_m = m@;
    let route = j.route();
    let mut n: usize = 0;
    while n < route.len()
        invariant
            0 <= n <= route@.len(),
            route@ == j.route_view(),
            m@.dom() == old_m.dom() + Set::new(
                |s: i32| exists|q: int| 0 <= q < n && #[trigger] route@[q].spec_stop_id() == s,
            ),
            index_pairs(m@) == index_pairs(old_m) + Set::new(
                |p: (i32, i32)|
                    (exists|q: int| 0 <= q < n && #[trigger] route@[q].spec_stop_id() == p.0) && p.1
                        == bf,
            ),
        decreases route@.len() - n,
    {
        let ghost prev = m@;
        let s = route[n].stop_id();
        index_add(m, s, bf);
        proof {
            let nn = n as int;
            assert(m@.dom() =~= old_m.dom() + Set::new(
                |s2: i32| exists|q: int| 0 <= q < nn + 1 && #[trigger] route@[q].spec_stop_id() == s2,
            )) by {
                assert forall|s2: i32| m@.dom().contains(s2) implies (old_m.dom() + Set::new(
                    |s3: i32| exists|q: int| 0 <= q < nn + 1 && #[trigger] route@[q].spec_stop_id() == s3,
                )).contains(s2) by {
                    if s2 == s {
                        assert(route@[nn].spec_stop_id() == s2);
                    } else {
                        assert(prev.dom().contains(s2));
                    }
                }
            }
            assert(index_pairs(m@) =~= index_pairs(old_m) + Set::new(
                |p: (i32, i32)|
                    (exists|q: int| 0 <= q < nn + 1 && #[trigger] route@[q].spec_stop_id() == p.0) && p.1
                        == bf,
            )) by {
                assert forall|p: (i32, i32)| index_pairs(m@).contains(p) implies (index_pairs(old_m) + Set::new(
                    |p2: (i32, i32)|
                        (exists|q: int| 0 <= q < nn + 1 && #[trigger] route@[q].spec_stop_id() == p2.0) && p2.1
                            == bf,
                )).contains(p) by {
                    if p == (s, bf) {
                        assert(route@[nn].spec_stop_id() == p.0);
                    } else {
                        assert(index_pairs(prev).contains(p));
                    }
                }
            }
        }
        n = n + 1;
    }
    assert(m@.dom() =~= old_m.dom() + Set::new(|s: i32| on_route(*j, s)));
    assert(index_pairs(m@) =~= index_pairs(old_m) + Set::new(
        |p: (i32, i32)| on_route(*j, p.0) && p.1 == bf,
    ));
}

/// Indexes the bit fields of the journeys by the stops they pass (a journey
/// without bit field is indexed under 0, every day).
pub fn create_bit_fields_by_stop_id(journeys: &ResourceStorage<Journey>) -> (res: HResult<
    FxHashMap<i32, FxHashSet<i32>>,
>)
    ensures
        res is Err <==> !journeys_have_bit_fields(journeys@),
        res matches Err(e) ==> e == HrdfError::Journey(JourneyError::MissingBitFieldMetadata),
        res matches Ok(m) ==> m@.dom() == served_stops(journeys@) && index_pairs(m@)
            == stop_bit_field_pairs(journeys@),
{
    let ghost view = journeys@;
    let keys = journeys.keys();
    let mut map: FxHashMap<i32, FxHashSet<i32>> = fx_map_new();
    let mut i: usize = 0;
    while i < keys.len()
        invariant
            0 <= i <= keys@.len(),
            view == journeys@,
            keys@.to_set() == view.dom(),
            forall|j: int|
                0 <= j < i && view[keys@[j]].route_view().len() > 0 ==> #[trigger] view[keys@[j]].metadata_of(
                    JourneyMetadataType::BitField,
                ).len() > 0,
            map@.dom() == Set::new(
                |s: i32| exists|j: int| 0 <= j < i && on_route(#[trigger] view[keys@[j]], s),
            ),
            index_pairs(map@) == Set::new(
                |p: (i32, i32)|
                    exists|j: int|
                        0 <= j < i && on_route(#[trigger] view[keys@[j]], p.0)
                            && effective_bit_field(view[keys@[j]]) == p.1,
            ),
        decreases keys@.len() - i,
    {
        assert(keys@.to_set().contains(keys@[i as int]));
        let journey = match journeys.find(keys[i]) {
            Some(j) => j,
            None => {
                assert(false);
                return Ok(map);
            },
        };
        let ghost prev = map@;
        let ii = i;
        if journey.route().len() > 0 {
            let bf = match journey.bit_field_id() {
                Ok(b) => match b {
                    Some(x) => x,
                    None => 0,
                },
                Err(e) => {
                    assert(!journeys_have_bit_fields(view)) by {
                        assert(view.contains_key(keys@[ii as int]));
                    }
                    return Err(HrdfError::Journey(e));
                },
            };
            add_route_stops(&mut map, journey, bf);
        } else {
            assert forall|s: i32| !on_route(*journey, s) by {}
        }
        proof {
            let iz = ii as int;
            assert(map@.dom() =~= Set::new(
                |s: i32| exists|j: int| 0 <= j < iz + 1 && on_route(#[trigger] view[keys@[j]], s),
            )) by {
                assert forall|s: i32| map@.dom().contains(s) implies exists|j: int|
                    0 <= j < iz + 1 && on_route(#[trigger] view[keys@[j]], s) by {
                    if !prev.dom().contains(s) {
                        assert(on_route(view[keys@[iz]], s));
                    }
                }
            }
            assert(index_pairs(map@) =~= Set::new(
                |p: (i32, i32)|
                    exists|j: int|
                        0 <= j < iz + 1 && on_route(#[trigger] view[keys@[j]], p.0)
                            && effective_bit_field(view[keys@[j]]) == p.1,
            )) by {
                assert forall|p: (i32, i32)| index_pairs(map@).contains(p) implies exists|j: int|
                    0 <= j < iz + 1 && on_route(#[trigger] view[keys@[j]], p.0)
                        && effective_bit_field(view[keys@[j]]) == p.1 by {
                    if !index_pairs(prev).contains(p) {
                        assert(on_route(view[keys@[iz]], p.0));
                    }
                }
            }
        }
        i = i + 1;
    }
    proof {
        assert forall|k: i32| #[trigger] view.contains_key(k) implies exists|j: int|
            0 <= j < keys@.len() && keys@[j] == k by {
            assert(keys@.to_set().contains(k));
        }
        assert(journeys_have_bit_fields(view)) by {
            assert forall|k: i32| #![trigger view[k]] view.contains_key(k) && view[k].route_view().len() > 0
                implies view[k].metadata_of(JourneyMetadataType::BitField).len() > 0 by {
                let j = choose|j: int| 0 <= j < keys@.len() && keys@[j] == k;
                assert(view[keys@[j]].route_view().len() > 0);
            }
        }
        assert(map@.dom() =~= served_stops(view)) by {
            assert forall|s: i32| served_stops(view).contains(s) implies map@.dom().contains(s) by {
                let k = choose|k: i32| #![trigger view[k]] view.contains_key(k) && on_route(view[k], s);
                let j = choose|j: int| 0 <= j < keys@.len() && keys@[j] == k;
                assert(on_route(view[keys@[j]], s));
            }
            assert forall|s: i32| map@.dom().contains(s) implies served_stops(view).contains(s) by {
                let j = choose|j: int| 0 <= j < keys@.len() && on_route(#[trigger] view[keys@[j]], s);
                assert(keys@.to_set().contains(keys@[j]));
            }
        }
        assert(index_pairs(map@) =~= stop_bit_field_pairs(view)) by {
            assert forall|p: (i32, i32)| stop_bit_field_pairs(view).contains(p) implies index_pairs(map@).contains(p) by {
                let k = choose|k: i32| #![trigger view[k]] view.contains_key(k) && on_route(view[k], p.0) && effective_bit_field(view[k]) == p.1;
                let j = choose|j: int| 0 <= j < keys@.len() && keys@[j] == k;
                assert(on_route(view[keys@[j]], p.0));
            }
            assert forall|p: (i32, i32)| index_pairs(map@).contains(p) implies stop_bit_field_pairs(view).contains(p) by {
                let j = choose|j: int| 0 <= j < keys@.len() && on_route(#[trigger] view[keys@[j]], p.0) && effective_bit_field(view[keys@[j]]) == p.1;
                assert(keys@.to_set().contains(keys@[j]));
            }
        }
    }
    Ok(map)
}

} // verus!

verus! {

/// Adds ((s, bf), id) for each stop s of the route to an index.
fn add_route_stop_keys(m: &mut FxHashMap<(i32, i32), FxHashSet<i32>>, j: &Journey, bf: i32, id: i32)
    ensures
        final(m)@.dom() == old(m)@.dom() + Set::new(|k: (i32, i32)| on_route(*j, k.0) && k.1 == bf),
        index_pairs(final(m)@) == index_pairs(old(m)@) + Set::new(
            |p: ((i32, i32), i32)| on_route(*j, p.0.0) && p.0.1 == bf && p.1 == id,
        ),
{
    let ghost old_m = m@;
    let route = j.route();
    let mut n: usize = 0;
    while n < route.len()
        invariant
            0 <= n <= route@.len(),
            route@ == j.route_view(),
            m@.dom() == old_m.dom() + Set::new(
                |k: (i32, i32)|
                    (exists|q: int| 0 <= q < n && #[trigger] route@[q].spec_stop_id() == k.0) && k.1
                        == bf,
            ),
            index_pairs(m@) == index_pairs(old_m) + Set::new(
                |p: ((i32, i32), i32)|
                    (exists|q: int| 0 <= q < n && #[trigger] route@[q].spec_stop_id() == p.0.0) && p.0.1
                        == bf && p.1 == id,
            ),
        decreases route@.len() - n,
    {
        let ghost prev = m@;
        let s = route[n].stop_id();
        index_add(m, (s, bf), id);
        proof {
            let nn = n as int;
            assert(m@.dom() =~= old_m.dom() + Set::new(
                |k: (i32, i32)|
                    (exists|q: int| 0 <= q < nn + 1 && #[trigger] route@[q].spec_stop_id() == k.0) && k.1
                        == bf,
            )) by {
                assert forall|k: (i32, i32)| m@.dom().contains(k) implies (old_m.dom() + Set::new(
                    |k2: (i32, i32)|
                        (exists|q: int| 0 <= q < nn + 1 && #[trigger] route@[q].spec_stop_id() == k2.0)
                            && k2.1 == bf,
                )).contains(k) by {
                    if k == (s, bf) {
                        assert(route@[nn].spec_stop_id() == k.0);
                    } else {
                        assert(prev.dom().contains(k));
                    }
                }
            }
            assert(index_pairs(m@) =~= index_pairs(old_m) + Set::new(
                |p: ((i32, i32), i32)|
                    (exists|q: int| 0 <= q < nn + 1 && #[trigger] route@[q].spec_stop_id() == p.0.0)
                        && p.0.1 == bf && p.1 == id,
            )) by {
                assert forall|p: ((i32, i32), i32)| index_pairs(m@).contains(p) implies (index_pairs(
                    old_m,
                ) + Set::new(
                    |p2: ((i32, i32), i32)|
                        (exists|q: int| 0 <= q < nn + 1 && #[trigger] route@[q].spec_stop_id() == p2.0.0)
                            && p2.0.1 == bf && p2.1 == id,
                )).contains(p) by {
                    if p == ((s, bf), id) {
                        assert(route@[nn].spec_stop_id() == p.0.0);
                    } else {
                        assert(index_pairs(prev).contains(p));
                    }
                }
            }
        }
        n = n + 1;
    }
    assert(m@.dom() =~= old_m.dom() + Set::new(|k: (i32, i32)| on_route(*j, k.0) && k.1 == bf));
    assert(index_pairs(m@) =~= index_pairs(old_m) + Set::new(
        |p: ((i32, i32), i32)| on_route(*j, p.0.0) && p.0.1 == bf && p.1 == id,
    ));
}

/// Indexes the journeys by the stops they pass and their bit field (0 for a
/// journey that operates every day).
pub fn create_journeys_by_stop_id_and_bit_field_id(journeys: &ResourceStorage<Journey>) -> (res:
    HResult<FxHashMap<(i32, i32), FxHashSet<i32>>>)
    ensures
        res is Err <==> !journeys_have_bit_fields(journeys@),
        res matches Err(e) ==> e == HrdfError::Journey(JourneyError::MissingBitFieldMetadata),
        res matches Ok(m) ==> m@.dom() == stop_bit_field_keys(journeys@) && index_pairs(m@)
            == stop_bit_field_journey_pairs(journeys@),
{
    let ghost view = journeys@;
    let keys = journeys.keys();
    let mut map: FxHashMap<(i32, i32), FxHashSet<i32>> = fx_map_new();
    let mut i: usize = 0;
    while i < keys.len()
        invariant
            0 <= i <= keys@.len(),
            view == journeys@,
            keys@.to_set() == view.dom(),
            forall|j: int|
                0 <= j < i && view[keys@[j]].route_view().len() > 0 ==> #[trigger] view[keys@[j]].metadata_of(
                    JourneyMetadataType::BitField,
                ).len() > 0,
            map@.dom() == Set::new(
                |k: (i32, i32)|
                    exists|j: int|
                        0 <= j < i && on_route(#[trigger] view[keys@[j]], k.0)
                            && effective_bit_field(view[keys@[j]]) == k.1,
            ),
            index_pairs(map@) == Set::new(
                |p: ((i32, i32), i32)|
                    exists|j: int|
                        0 <= j < i && on_route(#[trigger] view[keys@[j]], p.0.0)
                            && effective_bit_field(view[keys@[j]]) == p.0.1 && view[keys@[j]].spec_id()
                            == p.1,
            ),
        decreases keys@.len() - i,
    {
        assert(keys@.to_set().contains(keys@[i as int]));
        let journey = match journeys.find(keys[i]) {
            Some(j) => j,
            None => {
                assert(false);
                return Ok(map);
            },
        };
        let ghost prev = map@;
        let ii = i;
        if journey.route().len() > 0 {
            let bf = match journey.bit_field_id() {
                Ok(b) => match b {
                    Some(x) => x,
                    None => 0,
                },
                Err(e) => {
                    assert(!journeys_have_bit_fields(view)) by {
                        assert(view.contains_key(keys@[ii as int]));
                    }
                    return Err(HrdfError::Journey(e));
                },
            };
            add_route_stop_keys(&mut map, journey, bf, journey.id());
        } else {
            assert forall|s: i32| !on_route(*journey, s) by {}
        }
        proof {
            let iz = ii as int;
            assert(map@.dom() =~= Set::new(
                |k: (i32, i32)|
                    exists|j: int|
                        0 <= j < iz + 1 && on_route(#[trigger] view[keys@[j]], k.0)
                            && effective_bit_field(view[keys@[j]]) == k.1,
            )) by {
                assert forall|k: (i32, i32)| map@.dom().contains(k) implies exists|j: int|
                    0 <= j < iz + 1 && on_route(#[trigger] view[keys@[j]], k.0)
                        && effective_bit_field(view[keys@[j]]) == k.1 by {
                    if !prev.dom().contains(k) {
                        assert(on_route(view[keys@[iz]], k.0));
                    }
                }
            }
            assert(index_pairs(map@) =~= Set::new(
                |p: ((i32, i32), i32)|
                    exists|j: int|
                        0 <= j < iz + 1 && on_route(#[trigger] view[keys@[j]], p.0.0)
                            && effective_bit_field(view[keys@[j]]) == p.0.1 && view[keys@[j]].spec_id()
                            == p.1,
            )) by {
                assert forall|p: ((i32, i32), i32)| index_pairs(map@).contains(p) implies exists|j: int|
                    0 <= j < iz + 1 && on_route(#[trigger] view[keys@[j]], p.0.0)
                        && effective_bit_field(view[keys@[j]]) == p.0.1 && view[keys@[j]].spec_id()
                        == p.1 by {
                    if !index_pairs(prev).contains(p) {
                        assert(on_route(view[keys@[iz]], p.0.0));
                    }
                }
            }
        }
        i = i + 1;
    }
    proof {
        assert forall|k: i32| #[trigger] view.contains_key(k) implies exists|j: int|
            0 <= j < keys@.len() && keys@[j] == k by {
            assert(keys@.to_set().contains(k));
        }
        assert(journeys_have_bit_fields(view)) by {
            assert forall|k: i32| #![trigger view[k]] view.contains_key(k) && view[k].route_view().len() > 0
                implies view[k].metadata_of(JourneyMetadataType::BitField).len() > 0 by {
                let j = choose|j: int| 0 <= j < keys@.len() && keys@[j] == k;
                assert(view[keys@[j]].route_view().len() > 0);
            }
        }
        assert(map@.dom() =~= stop_bit_field_keys(view)) by {
            assert forall|k: (i32, i32)| stop_bit_field_keys(view).contains(k) implies map@.dom().contains(k) by {
                let kk = choose|kk: i32| #![trigger view[kk]] view.contains_key(kk) && on_route(view[kk], k.0) && effective_bit_field(view[kk]) == k.1;
                let j = choose|j: int| 0 <= j < keys@.len() && keys@[j] == kk;
                assert(on_route(view[keys@[j]], k.0));
            }
            assert forall|k: (i32, i32)| map@.dom().contains(k) implies stop_bit_field_keys(view).contains(k) by {
                let j = choose|j: int| 0 <= j < keys@.len() && on_route(#[trigger] view[keys@[j]], k.0) && effective_bit_field(view[keys@[j]]) == k.1;
                assert(keys@.to_set().contains(keys@[j]));
            }
        }
        assert(index_pairs(map@) =~= stop_bit_field_journey_pairs(view)) by {
            assert forall|p: ((i32, i32), i32)| stop_bit_field_journey_pairs(view).contains(p) implies index_pairs(map@).contains(p) by {
                let kk = choose|kk: i32| #![trigger view[kk]] view.contains_key(kk) && on_route(view[kk], p.0.0) && effective_bit_field(view[kk]) == p.0.1 && view[kk].spec_id() == p.1;
                let j = choose|j: int| 0 <= j < keys@.len() && keys@[j] == kk;
                assert(on_route(view[keys@[j]], p.0.0));
            }
            assert forall|p: ((i32, i32), i32)| index_pairs(map@).contains(p) implies stop_bit_field_journey_pairs(view).contains(p) by {
                let j = choose|j: int| 0 <= j < keys@.len() && on_route(#[trigger] view[keys@[j]], p.0.0) && effective_bit_field(view[keys@[j]]) == p.0.1 && view[keys@[j]].spec_id() == p.1;
                assert(keys@.to_set().contains(keys@[j]));
            }
        }
    }
    Ok(map)
}

} // verus!

verus! {

/// Whether the metadata has an entry `key` whose value reads as the date `d`.
pub open spec fn has_date_entry(
    metadata: Map<i32, TimetableMetadataEntry>,
    key: Seq<char>,
    d: Date,
) -> bool {
    exists|k: i32|
        #![trigger metadata[k]]
        metadata.contains_key(k) && metadata[k].key_text() == key && parsed_day_number(
            metadata[k].value_text(),
            "%Y-%m-%d"@,
        ) == Some(d.day_number())
}

/// Whether the metadata has an entry `key`.
pub open spec fn has_entry(metadata: Map<i32, TimetableMetadataEntry>, key: Seq<char>) -> bool {
    exists|k: i32| #![trigger metadata[k]] metadata.contains_key(k) && metadata[k].key_text() == key
}

/// The error for a metadata entry `key` that is absent, or present but not a
/// date.
pub open spec fn missing_or_invalid(
    metadata: Map<i32, TimetableMetadataEntry>,
    key: Seq<char>,
    e: HrdfError,
) -> bool {
    ||| e matches HrdfError::MissingTimetableMetadata(s) && s@ == key && !has_entry(metadata, key)
    ||| e matches HrdfError::InvalidTimetableDate(s) && s@ == key && has_entry(metadata, key)
        && !date_entries_valid(metadata, key)
}

/// Whether the metadata has an entry `key` and every entry `key` holds a
/// `%Y-%m-%d` date.
pub open spec fn date_entries_valid(metadata: Map<i32, TimetableMetadataEntry>, key: Seq<char>) -> bool {
    &&& has_entry(metadata, key)
    &&& forall|k: i32|
        #![trigger metadata[k]]
        metadata.contains_key(k) && metadata[k].key_text() == key ==> parsed_day_number(
            metadata[k].value_text(),
            "%Y-%m-%d"@,
        ) is Some
}

/// Whether the timetable's first and last days can be read: both entries
/// hold dates, and no first day comes after a last day.
pub open spec fn timetable_dates_valid(metadata: Map<i32, TimetableMetadataEntry>) -> bool {
    &&& date_entries_valid(metadata, "start_date"@)
    &&& date_entries_valid(metadata, "end_date"@)
    &&& forall|first: Date, last: Date|
        has_date_entry(metadata, "start_date"@, first) && has_date_entry(metadata, "end_date"@, last)
            ==> first.day_number() <= last.day_number()
}

/// The error for a first day that comes after the last day.
pub open spec fn dates_reversed(metadata: Map<i32, TimetableMetadataEntry>, e: HrdfError) -> bool {
    exists|first: Date, last: Date|
        e == HrdfError::OutOfRangeDate(last) && has_date_entry(metadata, "start_date"@, first)
            && has_date_entry(metadata, "end_date"@, last) && first.day_number() > last.day_number()
}

/// Reads the date of the metadata entry `key` (the first found, where there
/// are several).
fn timetable_date(metadata: &ResourceStorage<TimetableMetadataEntry>, key: &str) -> (res: HResult<
    Date,
>)
    ensures
        match res {
            Ok(d) => has_date_entry(metadata@, key@, d) && in_calendar_range(d.day_number()),
            Err(e) => missing_or_invalid(metadata@, key@, e),
        },
        date_entries_valid(metadata@, key@) ==> res is Ok,
{
    let entries = metadata.entries();
    let mut i: usize = 0;
    while i < entries.len()
        invariant
            0 <= i <= entries@.len(),
            forall|j: int|
                0 <= j < i ==> (#[trigger] entries@[j]).key_text() != key@,
            forall|j: int| 0 <= j < entries@.len() ==> metadata@.values().contains(*entries@[j]),
            forall|k: i32|
                metadata@.contains_key(k) ==> exists|j: int|
                    0 <= j < entries@.len() && *entries@[j] == metadata@[k],
        decreases entries@.len() - i,
    {
        let e = entries[i];
        if str_equals(e.key(), key) {
            let ghost k = choose|k: i32| metadata@.contains_key(k) && metadata@[k] == *e;
            assert(metadata@.values().contains(*entries@[i as int]));
            return match e.value_as_naive_date() {
                Some(d) => Ok(d),
                None => {
                    assert(metadata@[k].key_text() == key@);
                    Err(HrdfError::InvalidTimetableDate(key.to_string()))
                },
            };
        }
        i = i + 1;
    }
    assert forall|k: i32| #![trigger metadata@[k]] metadata@.contains_key(k) implies metadata@[k].key_text() != key@ by {
        let j = choose|j: int| 0 <= j < entries@.len() && *entries@[j] == metadata@[k];
        assert(entries@[j].key_text() != key@);
    }
    Err(HrdfError::MissingTimetableMetadata(key.to_string()))
}

/// The first day of the timetable (metadata entry `start_date`).
pub fn timetable_start_date(metadata: &ResourceStorage<TimetableMetadataEntry>) -> (res: HResult<
    Date,
>)
    ensures
        match res {
            Ok(d) => has_date_entry(metadata@, "start_date"@, d) && in_calendar_range(d.day_number()),
            Err(e) => missing_or_invalid(metadata@, "start_date"@, e),
        },
        date_entries_valid(metadata@, "start_date"@) ==> res is Ok,
{
    timetable_date(metadata, "start_date")
}

/// The last day of the timetable (metadata entry `end_date`).
pub fn timetable_end_date(metadata: &ResourceStorage<TimetableMetadataEntry>) -> (res: HResult<
    Date,
>)
    ensures
        match res {
            Ok(d) => has_date_entry(metadata@, "end_date"@, d) && in_calendar_range(d.day_number()),
            Err(e) => missing_or_invalid(metadata@, "end_date"@, e),
        },
        date_entries_valid(metadata@, "end_date"@) ==> res is Ok,
{
    timetable_date(metadata, "end_date")
}

} // verus!

verus! {

/// Whether the bit of day `i` (counted from the timetable's first day) is
/// set; the first two bits of a bit field are not days.
pub open spec fn day_bit_set(bits: Seq<u8>, i: int) -> bool {
    0 <= i && i + 2 < bits.len() && bits[i + 2] == 1
}

/// The days from `first` to `last`.
pub open spec fn day_range(first: Date, last: Date) -> Set<Date> {
    Set::new(|d: Date| first.day_number() <= d.day_number() <= last.day_number())
}

/// The pairs (day, bit field) of the days from `first` to `last`: bit field
/// 0 on every day, and each bit field on the days whose bit is set.
pub open spec fn day_bit_field_pairs(view: Map<i32, BitField>, first: Date, last: Date) -> Set<
    (Date, i32),
> {
    Set::new(
        |p: (Date, i32)|
            first.day_number() <= p.0.day_number() <= last.day_number() && (p.1 == 0 || exists|
                k: i32,
            |
                #![trigger view[k]]
                view.contains_key(k) && view[k].spec_id() == p.1 && day_bit_set(
                    view[k].spec_bits(),
                    p.0.day_number() - first.day_number(),
                )),
    )
}

/// Adds bit field `id` to the days whose bit is set.
fn add_bit_field_days(
    m: &mut FxHashMap<Date, FxHashSet<i32>>,
    dates: &Vec<Date>,
    first: Date,
    bits: &Vec<u8>,
    id: i32,
)
    requires
        forall|j: int| 0 <= j < dates@.len() ==> #[trigger] dates@[j].day_number() == first.day_number() + j,
        forall|j: int| 0 <= j < dates@.len() ==> old(m)@.dom().contains(#[trigger] dates@[j]),
    ensures
        final(m)@.dom() == old(m)@.dom(),
        index_pairs(final(m)@) == index_pairs(old(m)@) + Set::new(
            |p: (Date, i32)|
                first.day_number() <= p.0.day_number() < first.day_number() + dates@.len() && p.1
                    == id && day_bit_set(bits@, p.0.day_number() - first.day_number()),
        ),
{
    let ghost old_m = m@;
    let mut i: usize = 0;
    while i < dates.len()
        invariant
            0 <= i <= dates@.len(),
            forall|j: int| 0 <= j < dates@.len() ==> #[trigger] dates@[j].day_number() == first.day_number() + j,
            forall|j: int| 0 <= j < dates@.len() ==> old_m.dom().contains(#[trigger] dates@[j]),
            m@.dom() == old_m.dom(),
            index_pairs(m@) == index_pairs(old_m) + Set::new(
                |p: (Date, i32)|
                    first.day_number() <= p.0.day_number() < first.day_number() + i && p.1 == id
                        && day_bit_set(bits@, p.0.day_number() - first.day_number()),
            ),
        decreases dates@.len() - i,
    {
        let ghost prev = m@;
        if bits.len() > 2 && i < bits.len() - 2 && bits[i + 2] == 1 {
            index_add(m, dates[i], id);
            assert(m@.dom() =~= old_m.dom());
        }
        proof {
            let ii = i as int;
            assert(index_pairs(m@) =~= index_pairs(old_m) + Set::new(
                |p: (Date, i32)|
                    first.day_number() <= p.0.day_number() < first.day_number() + ii + 1 && p.1 == id
                        && day_bit_set(bits@, p.0.day_number() - first.day_number()),
            )) by {
                assert forall|p: (Date, i32)|
                    first.day_number() <= p.0.day_number() < first.day_number() + ii + 1 && p.1 == id
                        && day_bit_set(bits@, p.0.day_number() - first.day_number())
                        && p.0.day_number() == first.day_number() + ii implies index_pairs(m@).contains(p) by {
                    Date::lemma_day_number_injective(p.0, dates@[ii]);
                }
            }
        }
        i = i + 1;
    }
}

/// For each day from `first` to `last`, the bit fields that operate on it:
/// bit field 0 on every day, and each bit field on the days whose bit is set
/// (the bit of `first` being the third).
pub fn bit_fields_by_day_between(bit_fields: &ResourceStorage<BitField>, first: Date, last: Date) -> (res:
    FxHashMap<Date, FxHashSet<i32>>)
    requires
        in_calendar_range(first.day_number()),
        in_calendar_range(last.day_number()),
        first.day_number() <= last.day_number(),
    ensures
        res@.dom() == day_range(first, last),
        index_pairs(res@) == day_bit_field_pairs(bit_fields@, first, last),
{
    let span: i64 = last.days() as i64 - first.days() as i64;
    assert(span < 0x1_0000_0000 - 1);
    let num_days: usize = span as usize + 1;
    let mut dates: Vec<Date> = Vec::new();
    let mut map: FxHashMap<Date, FxHashSet<i32>> = fx_map_new();
    let mut i: usize = 0;
    assert(num_days <= 0x1_0000_0000);
    while i < num_days
        invariant
            0 <= i <= num_days,
            num_days <= 0x1_0000_0000,
            num_days == last.day_number() - first.day_number() + 1,
            in_calendar_range(first.day_number()),
            in_calendar_range(last.day_number()),
            dates@.len() == i,
            forall|j: int| 0 <= j < i ==> #[trigger] dates@[j].day_number() == first.day_number() + j,
            map@.dom() == Set::new(
                |d: Date| first.day_number() <= d.day_number() < first.day_number() + i,
            ),
            index_pairs(map@) == Set::new(
                |p: (Date, i32)|
                    first.day_number() <= p.0.day_number() < first.day_number() + i && p.1 == 0,
            ),
        decreases num_days - i,
    {
        let d = match first.checked_add_days(i as u32) {
            Some(d) => d,
            None => {
                assert(false);
                first
            },
        };
        let ghost prev = map@;
        let mut set: FxHashSet<i32> = fx_set_new();
        fx_set_insert(&mut set, 0);
        fx_map_insert(&mut map, d, set);
        dates.push(d);
        proof {
            let ii = i as int;
            assert(d.day_number() == first.day_number() + ii);
            assert forall|x: Date| first.day_number() <= x.day_number() < first.day_number() + ii + 1
                && x != d implies x.day_number() < first.day_number() + ii by {
                Date::lemma_day_number_injective(x, d);
            }
            assert(map@.dom() =~= Set::new(
                |x: Date| first.day_number() <= x.day_number() < first.day_number() + ii + 1,
            ));
            assert(index_pairs(map@) =~= Set::new(
                |p: (Date, i32)|
                    first.day_number() <= p.0.day_number() < first.day_number() + ii + 1 && p.1 == 0,
            )) by {
                assert forall|p: (Date, i32)| index_pairs(map@).contains(p) implies first.day_number()
                    <= p.0.day_number() < first.day_number() + ii + 1 && p.1 == 0 by {
                    if p.0 != d {
                        assert(index_pairs(prev).contains(p));
                    }
                }
                assert forall|p: (Date, i32)| first.day_number() <= p.0.day_number() < first.day_number()
                    + ii + 1 && p.1 == 0 implies index_pairs(map@).contains(p) by {
                    if p.0 != d {
                        assert(p.0.day_number() < first.day_number() + ii);
                        assert(index_pairs(prev).contains(p));
                    }
                }
            }
        }
        i = i + 1;
    }
    let ghost view = bit_fields@;
    let ghost base = index_pairs(map@);
    let keys = bit_fields.keys();
    let mut k: usize = 0;
    while k < keys.len()
        invariant
            0 <= k <= keys@.len(),
            view == bit_fields@,
            keys@.to_set() == view.dom(),
            dates@.len() == num_days,
            num_days == last.day_number() - first.day_number() + 1,
            forall|j: int| 0 <= j < num_days ==> #[trigger] dates@[j].day_number() == first.day_number() + j,
            map@.dom() == day_range(first, last),
            index_pairs(map@) == Set::new(
                |p: (Date, i32)|
                    first.day_number() <= p.0.day_number() <= last.day_number() && (p.1 == 0 || exists|
                        j: int,
                    |
                        0 <= j < k && (#[trigger] view[keys@[j]]).spec_id() == p.1 && day_bit_set(
                            view[keys@[j]].spec_bits(),
                            p.0.day_number() - first.day_number(),
                        )),
            ),
        decreases keys@.len() - k,
    {
        assert(keys@.to_set().contains(keys@[k as int]));
        let bf = match bit_fields.find(keys[k]) {
            Some(b) => b,
            None => {
                assert(false);
                return map;
            },
        };
        let ghost prev = index_pairs(map@);
        proof {
            assert forall|j: int| 0 <= j < dates@.len() implies map@.dom().contains(#[trigger] dates@[j]) by {}
        }
        add_bit_field_days(&mut map, &dates, first, bf.bits(), bf.id());
        proof {
            let kk = k as int;
            assert(index_pairs(map@) =~= Set::new(
                |p: (Date, i32)|
                    first.day_number() <= p.0.day_number() <= last.day_number() && (p.1 == 0 || exists|
                        j: int,
                    |
                        0 <= j < kk + 1 && (#[trigger] view[keys@[j]]).spec_id() == p.1 && day_bit_set(
                            view[keys@[j]].spec_bits(),
                            p.0.day_number() - first.day_number(),
                        )),
            )) by {
                assert forall|p: (Date, i32)| index_pairs(map@).contains(p) implies first.day_number()
                    <= p.0.day_number() <= last.day_number() && (p.1 == 0 || exists|j: int|
                        0 <= j < kk + 1 && (#[trigger] view[keys@[j]]).spec_id() == p.1 && day_bit_set(
                            view[keys@[j]].spec_bits(),
                            p.0.day_number() - first.day_number(),
                        )) by {
                    if !prev.contains(p) {
                        assert(view[keys@[kk]].spec_id() == p.1);
                    }
                }
            }
        }
        k = k + 1;
    }
    proof {
        assert(index_pairs(map@) =~= day_bit_field_pairs(view, first, last)) by {
            assert forall|p: (Date, i32)| day_bit_field_pairs(view, first, last).contains(p) implies index_pairs(map@).contains(p) by {
                if p.1 != 0 {
                    let kk = choose|kk: i32| #![trigger view[kk]] view.contains_key(kk) && view[kk].spec_id() == p.1 && day_bit_set(view[kk].spec_bits(), p.0.day_number() - first.day_number());
                    assert(keys@.to_set().contains(kk));
                    let j = choose|j: int| 0 <= j < keys@.len() && keys@[j] == kk;
                    assert(view[keys@[j]].spec_id() == p.1);
                }
            }
            assert forall|p: (Date, i32)| index_pairs(map@).contains(p) implies day_bit_field_pairs(view, first, last).contains(p) by {
                if p.1 != 0 {
                    let j = choose|j: int| 0 <= j < keys@.len() && (#[trigger] view[keys@[j]]).spec_id() == p.1 && day_bit_set(view[keys@[j]].spec_bits(), p.0.day_number() - first.day_number());
                    assert(keys@.to_set().contains(keys@[j]));
                }
            }
        }
    }
    map
}

/// For each day of the timetable, the bit fields that operate on it (bit
/// field 0, every day, included).
pub fn create_bit_fields_by_day(
    bit_fields: &ResourceStorage<BitField>,
    timetable_metadata: &ResourceStorage<TimetableMetadataEntry>,
) -> (res: HResult<FxHashMap<Date, FxHashSet<i32>>>)
    ensures
        match res {
            Ok(m) => exists|first: Date, last: Date|
                has_date_entry(timetable_metadata@, "start_date"@, first) && has_date_entry(
                    timetable_metadata@,
                    "end_date"@,
                    last,
                ) && first.day_number() <= last.day_number() && m@.dom() == day_range(first, last)
                    && index_pairs(m@) == day_bit_field_pairs(bit_fields@, first, last),
            Err(e) => {
                ||| missing_or_invalid(timetable_metadata@, "start_date"@, e)
                ||| missing_or_invalid(timetable_metadata@, "end_date"@, e)
                ||| dates_reversed(timetable_metadata@, e)
            },
        },
        timetable_dates_valid(timetable_metadata@) ==> res is Ok,
{
    let first = timetable_start_date(timetable_metadata)?;
    let last = timetable_end_date(timetable_metadata)?;
    if !first.is_on_or_before(&last) {
        assert(dates_reversed(timetable_metadata@, HrdfError::OutOfRangeDate(last)));
        return Err(HrdfError::OutOfRangeDate(last));
    }
    Ok(bit_fields_by_day_between(bit_fields, first, last))
}

} // verus!

verus! {

/// The key of an administration exchange time: (stop, administration 1,
/// administration 2).
pub open spec fn admin_key(e: ExchangeTimeAdministration) -> (Option<i32>, Seq<char>, Seq<char>) {
    (e.spec_stop_id(), e.administration_1_text(), e.administration_2_text())
}

/// The keys of the administration exchange times.
pub open spec fn admin_keys(view: Map<i32, ExchangeTimeAdministration>) -> Set<
    (Option<i32>, Seq<char>, Seq<char>),
> {
    Set::new(
        |k: (Option<i32>, Seq<char>, Seq<char>)|
            exists|i: i32| #![trigger view[i]] view.contains_key(i) && admin_key(view[i]) == k,
    )
}

/// Indexes the administration exchange times by (stop, administration 1,
/// administration 2). Where two share a key, the index keeps one of them.
pub fn create_exchange_times_administration_map(
    exchange_times_administration: &ResourceStorage<ExchangeTimeAdministration>,
) -> (res: FxHashMap<(Option<i32>, String, String), i32>)
    ensures
        admin_map_contents(res).dom() == admin_keys(exchange_times_administration@),
        forall|k: (Option<i32>, Seq<char>, Seq<char>)|
            #![trigger admin_map_contents(res)[k]]
            admin_map_contents(res).contains_key(k) ==> exists|i: i32|
                #![trigger exchange_times_administration@[i]]
                exchange_times_administration@.contains_key(i) && admin_key(
                    exchange_times_administration@[i],
                ) == k && exchange_times_administration@[i].spec_id() == admin_map_contents(res)[k],
{
    let ghost view = exchange_times_administration@;
    let keys = exchange_times_administration.keys();
    let mut map = admin_map_new();
    let mut j: usize = 0;
    while j < keys.len()
        invariant
            0 <= j <= keys@.len(),
            view == exchange_times_administration@,
            keys@.to_set() == view.dom(),
            admin_map_contents(map).dom() == Set::new(
                |k: (Option<i32>, Seq<char>, Seq<char>)|
                    exists|n: int| #![trigger keys@[n]] 0 <= n < j && admin_key(view[keys@[n]]) == k,
            ),
            forall|k: (Option<i32>, Seq<char>, Seq<char>)|
                #![trigger admin_map_contents(map)[k]]
                admin_map_contents(map).contains_key(k) ==> exists|n: int|
                    #![trigger keys@[n]]
                    0 <= n < j && admin_key(view[keys@[n]]) == k && view[keys@[n]].spec_id()
                        == admin_map_contents(map)[k],
        decreases keys@.len() - j,
    {
        assert(keys@.to_set().contains(keys@[j as int]));
        let e = match exchange_times_administration.find(keys[j]) {
            Some(e) => e,
            None => {
                assert(false);
                return map;
            },
        };
        let ghost old_map = admin_map_contents(map);
        let key = (e.stop_id(), e.administration_1().to_owned(), e.administration_2().to_owned());
        admin_map_insert(&mut map, key, e.id());
        proof {
            let jj = j as int;
            let nk = admin_key(view[keys@[jj]]);
            assert(admin_map_contents(map).dom() =~= Set::new(
                |k: (Option<i32>, Seq<char>, Seq<char>)|
                    exists|n: int| #![trigger keys@[n]] 0 <= n < jj + 1 && admin_key(view[keys@[n]]) == k,
            )) by {
                assert forall|k: (Option<i32>, Seq<char>, Seq<char>)|
                    admin_map_contents(map).dom().contains(k) implies exists|n: int|
                    #![trigger keys@[n]]
                    0 <= n < jj + 1 && admin_key(view[keys@[n]]) == k by {
                    if k != nk {
                        assert(old_map.contains_key(k));
                    } else {
                        assert(admin_key(view[keys@[jj]]) == k);
                    }
                }
            }
            assert forall|k: (Option<i32>, Seq<char>, Seq<char>)|
                #![trigger admin_map_contents(map)[k]]
                admin_map_contents(map).contains_key(k) implies exists|n: int|
                #![trigger keys@[n]]
                0 <= n < jj + 1 && admin_key(view[keys@[n]]) == k && view[keys@[n]].spec_id()
                    == admin_map_contents(map)[k] by {
                if k != nk {
                    assert(old_map.contains_key(k));
                    assert(old_map[k] == admin_map_contents(map)[k]);
                } else {
                    assert(admin_key(view[keys@[jj]]) == k);
                }
            }
        }
        j = j + 1;
    }
    proof {
        assert(admin_map_contents(map).dom() =~= admin_keys(view)) by {
            assert forall|k| admin_keys(view).contains(k) implies admin_map_contents(map).dom().contains(k) by {
                let i = choose|i: i32| #![trigger view[i]] view.contains_key(i) && admin_key(view[i]) == k;
                assert(keys@.to_set().contains(i));
                let n = choose|n: int| 0 <= n < keys@.len() && keys@[n] == i;
                assert(admin_key(view[keys@[n]]) == k);
            }
            assert forall|k| admin_map_contents(map).dom().contains(k) implies admin_keys(view).contains(k) by {
                let n = choose|n: int| #![trigger keys@[n]] 0 <= n < keys@.len() && admin_key(view[keys@[n]]) == k;
                assert(keys@.to_set().contains(keys@[n]));
            }
        }
        assert forall|k: (Option<i32>, Seq<char>, Seq<char>)|
            #![trigger admin_map_contents(map)[k]]
            admin_map_contents(map).contains_key(k) implies exists|i: i32|
            #![trigger view[i]]
            view.contains_key(i) && admin_key(view[i]) == k && view[i].spec_id() == admin_map_contents(map)[k] by {
            let n = choose|n: int| #![trigger keys@[n]] 0 <= n < keys@.len() && admin_key(view[keys@[n]]) == k
                && view[keys@[n]].spec_id() == admin_map_contents(map)[k];
            assert(keys@.to_set().contains(keys@[n]));
        }
    }
    map
}

/// The key of a through service: (journey 1, journey 2, last stop of
/// journey 1).
pub open spec fn through_key(t: ThroughService) -> ((i32, Seq<char>), (i32, Seq<char>), i32) {
    (t.spec_journey_1_id(), t.spec_journey_2_id(), t.spec_journey_1_stop_id())
}

/// The keys of the through services.
pub open spec fn through_keys(view: Map<i32, ThroughService>) -> Set<
    ((i32, Seq<char>), (i32, Seq<char>), i32),
> {
    Set::new(
        |k: ((i32, Seq<char>), (i32, Seq<char>), i32)|
            exists|i: i32| #![trigger view[i]] view.contains_key(i) && through_key(view[i]) == k,
    )
}

/// Given the two journeys and the stop where one continues into the other,
/// the bit field of the through service. Where two through services share a
/// key, the index keeps one of them.
pub fn create_bit_field_id_through_service_by_journey_id_stop_id(
    through_services: &ResourceStorage<ThroughService>,
) -> (res: FxHashMap<(JourneyId, JourneyId, i32), i32>)
    ensures
        through_map_contents(res).dom() == through_keys(through_services@),
        forall|k: ((i32, Seq<char>), (i32, Seq<char>), i32)|
            #![trigger through_map_contents(res)[k]]
            through_map_contents(res).contains_key(k) ==> exists|i: i32|
                #![trigger through_services@[i]]
                through_services@.contains_key(i) && through_key(through_services@[i]) == k
                    && through_services@[i].spec_bit_field_id() == through_map_contents(res)[k],
{
    let ghost view = through_services@;
    let keys = through_services.keys();
    let mut map = through_map_new();
    let mut j: usize = 0;
    while j < keys.len()
        invariant
            0 <= j <= keys@.len(),
            view == through_services@,
            keys@.to_set() == view.dom(),
            through_map_contents(map).dom() == Set::new(
                |k: ((i32, Seq<char>), (i32, Seq<char>), i32)|
                    exists|n: int| #![trigger keys@[n]] 0 <= n < j && through_key(view[keys@[n]]) == k,
            ),
            forall|k: ((i32, Seq<char>), (i32, Seq<char>), i32)|
                #![trigger through_map_contents(map)[k]]
                through_map_contents(map).contains_key(k) ==> exists|n: int|
                    #![trigger keys@[n]]
                    0 <= n < j && through_key(view[keys@[n]]) == k && view[keys@[n]].spec_bit_field_id()
                        == through_map_contents(map)[k],
        decreases keys@.len() - j,
    {
        assert(keys@.to_set().contains(keys@[j as int]));
        let t = match through_services.find(keys[j]) {
            Some(t) => t,
            None => {
                assert(false);
                return map;
            },
        };
        let ghost old_map = through_map_contents(map);
        let j1 = t.journey_1_id();
        let j2 = t.journey_2_id();
        let key = ((j1.0, j1.1.clone()), (j2.0, j2.1.clone()), t.journey_1_stop_id());
        through_map_insert(&mut map, key, t.bit_field_id());
        proof {
            let jj = j as int;
            let nk = through_key(view[keys@[jj]]);
            assert(through_map_contents(map).dom() =~= Set::new(
                |k: ((i32, Seq<char>), (i32, Seq<char>), i32)|
                    exists|n: int| #![trigger keys@[n]] 0 <= n < jj + 1 && through_key(view[keys@[n]]) == k,
            )) by {
                assert forall|k: ((i32, Seq<char>), (i32, Seq<char>), i32)|
                    through_map_contents(map).dom().contains(k) implies exists|n: int|
                    #![trigger keys@[n]]
                    0 <= n < jj + 1 && through_key(view[keys@[n]]) == k by {
                    if k != nk {
                        assert(old_map.contains_key(k));
                    } else {
                        assert(through_key(view[keys@[jj]]) == k);
                    }
                }
            }
            assert forall|k: ((i32, Seq<char>), (i32, Seq<char>), i32)|
                #![trigger through_map_contents(map)[k]]
                through_map_contents(map).contains_key(k) implies exists|n: int|
                #![trigger keys@[n]]
                0 <= n < jj + 1 && through_key(view[keys@[n]]) == k && view[keys@[n]].spec_bit_field_id()
                    == through_map_contents(map)[k] by {
                if k != nk {
                    assert(old_map.contains_key(k));
                    assert(old_map[k] == through_map_contents(map)[k]);
                } else {
                    assert(through_key(view[keys@[jj]]) == k);
                }
            }
        }
        j = j + 1;
    }
    proof {
        assert(through_map_contents(map).dom() =~= through_keys(view)) by {
            assert forall|k| through_keys(view).contains(k) implies through_map_contents(map).dom().contains(k) by {
                let i = choose|i: i32| #![trigger view[i]] view.contains_key(i) && through_key(view[i]) == k;
                assert(keys@.to_set().contains(i));
                let n = choose|n: int| 0 <= n < keys@.len() && keys@[n] == i;
                assert(through_key(view[keys@[n]]) == k);
            }
            assert forall|k| through_map_contents(map).dom().contains(k) implies through_keys(view).contains(k) by {
                let n = choose|n: int| #![trigger keys@[n]] 0 <= n < keys@.len() && through_key(view[keys@[n]]) == k;
                assert(keys@.to_set().contains(keys@[n]));
            }
        }
        assert forall|k: ((i32, Seq<char>), (i32, Seq<char>), i32)|
            #![trigger through_map_contents(map)[k]]
            through_map_contents(map).contains_key(k) implies exists|i: i32|
            #![trigger view[i]]
            view.contains_key(i) && through_key(view[i]) == k && view[i].spec_bit_field_id()
                == through_map_contents(map)[k] by {
            let n = choose|n: int| #![trigger keys@[n]] 0 <= n < keys@.len() && through_key(view[keys@[n]]) == k
                && view[keys@[n]].spec_bit_field_id() == through_map_contents(map)[k];
            assert(keys@.to_set().contains(keys@[n]));
        }
    }
    map
}

/// The key of a journey exchange time: (stop, journey 1, journey 2).
pub open spec fn exchange_journey_key(e: ExchangeTimeJourney) -> (
    i32,
    (i32, Seq<char>),
    (i32, Seq<char>),
) {
    (
        e.spec_stop_id(),
        (e.spec_journey_legacy_id_1(), e.administration_1_text()),
        (e.spec_journey_legacy_id_2(), e.administration_2_text()),
    )
}

/// The (key, element) pairs of a map to sets.
pub open spec fn set_map_pairs<K>(m: Map<K, Set<i32>>) -> Set<(K, i32)> {
    Set::new(|p: (K, i32)| m.contains_key(p.0) && m[p.0].contains(p.1))
}

/// The (key, id) pairs of the journey exchange times.
pub open spec fn exchange_journey_pairs(view: Map<i32, ExchangeTimeJourney>) -> Set<
    ((i32, (i32, Seq<char>), (i32, Seq<char>)), i32),
> {
    Set::new(
        |p: ((i32, (i32, Seq<char>), (i32, Seq<char>)), i32)|
            exists|i: i32|
                #![trigger view[i]]
                view.contains_key(i) && exchange_journey_key(view[i]) == p.0 && view[i].spec_id()
                    == p.1,
    )
}

/// The keys of the journey exchange times.
pub open spec fn exchange_journey_keys(view: Map<i32, ExchangeTimeJourney>) -> Set<
    (i32, (i32, Seq<char>), (i32, Seq<char>)),
> {
    Set::new(
        |k: (i32, (i32, Seq<char>), (i32, Seq<char>))|
            exists|i: i32| #![trigger view[i]] view.contains_key(i) && exchange_journey_key(view[i]) == k,
    )
}

/// Indexes the journey exchange times by (stop, journey 1, journey 2).
pub fn create_exchange_times_journey_map(
    exchange_times_journey: &ResourceStorage<ExchangeTimeJourney>,
) -> (res: FxHashMap<(i32, JourneyId, JourneyId), FxHashSet<i32>>)
    ensures
        journey_pair_map_contents(res).dom() == exchange_journey_keys(exchange_times_journey@),
        set_map_pairs(journey_pair_map_contents(res)) == exchange_journey_pairs(
            exchange_times_journey@,
        ),
{
    let ghost view = exchange_times_journey@;
    let keys = exchange_times_journey.keys();
    let mut map = journey_pair_map_new();
    let mut j: usize = 0;
    while j < keys.len()
        invariant
            0 <= j <= keys@.len(),
            view == exchange_times_journey@,
            keys@.to_set() == view.dom(),
            journey_pair_map_contents(map).dom() == Set::new(
                |k: (i32, (i32, Seq<char>), (i32, Seq<char>))|
                    exists|n: int| #![trigger keys@[n]] 0 <= n < j && exchange_journey_key(view[keys@[n]]) == k,
            ),
            set_map_pairs(journey_pair_map_contents(map)) == Set::new(
                |p: ((i32, (i32, Seq<char>), (i32, Seq<char>)), i32)|
                    exists|n: int|
                        #![trigger keys@[n]]
                        0 <= n < j && exchange_journey_key(view[keys@[n]]) == p.0
                            && view[keys@[n]].spec_id() == p.1,
            ),
        decreases keys@.len() - j,
    {
        assert(keys@.to_set().contains(keys@[j as int]));
        let e = match exchange_times_journey.find(keys[j]) {
            Some(e) => e,
            None => {
                assert(false);
                return map;
            },
        };
        let ghost old_map = journey_pair_map_contents(map);
        let key = (
            e.stop_id(),
            (e.journey_legacy_id_1(), e.administration_1().to_owned()),
            (e.journey_legacy_id_2(), e.administration_2().to_owned()),
        );
        let mut set = match journey_pair_map_remove(&mut map, &key) {
            Some(s) => s,
            None => fx_set_new(),
        };
        fx_set_insert(&mut set, e.id());
        journey_pair_map_insert(&mut map, key, set);
        proof {
            let jj = j as int;
            let nk = exchange_journey_key(view[keys@[jj]]);
            let new_map = journey_pair_map_contents(map);
            assert(new_map =~= old_map.insert(
                nk,
                if old_map.contains_key(nk) {
                    old_map[nk]
                } else {
                    Set::empty()
                }.insert(view[keys@[jj]].spec_id()),
            ));
            assert(new_map.dom() =~= Set::new(
                |k: (i32, (i32, Seq<char>), (i32, Seq<char>))|
                    exists|n: int| #![trigger keys@[n]] 0 <= n < jj + 1 && exchange_journey_key(view[keys@[n]]) == k,
            )) by {
                assert forall|k: (i32, (i32, Seq<char>), (i32, Seq<char>))|
                    new_map.dom().contains(k) implies exists|n: int|
                    #![trigger keys@[n]]
                    0 <= n < jj + 1 && exchange_journey_key(view[keys@[n]]) == k by {
                    if k != nk {
                        assert(old_map.contains_key(k));
                    } else {
                        assert(exchange_journey_key(view[keys@[jj]]) == k);
                    }
                }
            }
            assert(set_map_pairs(new_map) =~= Set::new(
                |p: ((i32, (i32, Seq<char>), (i32, Seq<char>)), i32)|
                    exists|n: int|
                        #![trigger keys@[n]]
                        0 <= n < jj + 1 && exchange_journey_key(view[keys@[n]]) == p.0
                            && view[keys@[n]].spec_id() == p.1,
            )) by {
                assert forall|p: ((i32, (i32, Seq<char>), (i32, Seq<char>)), i32)|
                    set_map_pairs(new_map).contains(p) implies exists|n: int|
                    #![trigger keys@[n]]
                    0 <= n < jj + 1 && exchange_journey_key(view[keys@[n]]) == p.0
                        && view[keys@[n]].spec_id() == p.1 by {
                    if p != (nk, view[keys@[jj]].spec_id()) {
                        assert(set_map_pairs(old_map).contains(p));
                    } else {
                        assert(view[keys@[jj]].spec_id() == p.1);
                    }
                }
                assert forall|p: ((i32, (i32, Seq<char>), (i32, Seq<char>)), i32)|
                    (exists|n: int|
                        #![trigger keys@[n]]
                        0 <= n < jj + 1 && exchange_journey_key(view[keys@[n]]) == p.0
                            && view[keys@[n]].spec_id() == p.1) implies set_map_pairs(new_map).contains(p) by {
                    if p != (nk, view[keys@[jj]].spec_id()) {
                        assert(set_map_pairs(old_map).contains(p));
                    }
                }
            }
        }
        j = j + 1;
    }
    proof {
        assert(journey_pair_map_contents(map).dom() =~= exchange_journey_keys(view)) by {
            assert forall|k| exchange_journey_keys(view).contains(k) implies journey_pair_map_contents(map).dom().contains(k) by {
                let i = choose|i: i32| #![trigger view[i]] view.contains_key(i) && exchange_journey_key(view[i]) == k;
                assert(keys@.to_set().contains(i));
                let n = choose|n: int| 0 <= n < keys@.len() && keys@[n] == i;
                assert(exchange_journey_key(view[keys@[n]]) == k);
            }
            assert forall|k| journey_pair_map_contents(map).dom().contains(k) implies exchange_journey_keys(view).contains(k) by {
                let n = choose|n: int| #![trigger keys@[n]] 0 <= n < keys@.len() && exchange_journey_key(view[keys@[n]]) == k;
                assert(keys@.to_set().contains(keys@[n]));
            }
        }
        assert(set_map_pairs(journey_pair_map_contents(map)) =~= exchange_journey_pairs(view)) by {
            assert forall|p| exchange_journey_pairs(view).contains(p) implies set_map_pairs(journey_pair_map_contents(map)).contains(p) by {
                let i = choose|i: i32| #![trigger view[i]] view.contains_key(i) && exchange_journey_key(view[i]) == p.0 && view[i].spec_id() == p.1;
                assert(keys@.to_set().contains(i));
                let n = choose|n: int| 0 <= n < keys@.len() && keys@[n] == i;
                assert(view[keys@[n]].spec_id() == p.1);
            }
            assert forall|p| set_map_pairs(journey_pair_map_contents(map)).contains(p) implies exchange_journey_pairs(view).contains(p) by {
                let n = choose|n: int| #![trigger keys@[n]] 0 <= n < keys@.len() && exchange_journey_key(view[keys@[n]]) == p.0 && view[keys@[n]].spec_id() == p.1;
                assert(keys@.to_set().contains(keys@[n]));
            }
        }
    }
    map
}

} // verus!

verus! {

/// The kinds of resource that `DataStorage::filter` can remove by name.
#[derive(Clone, Copy, Debug, PartialEq, Eq, Structural, Hash)]
pub enum RemovableTypes {
    Line,
    Stop,
    TransportType,
    TransportCompany,
}

/// What the storage holds, by field.
pub struct DataStorageView {
    pub bit_fields: Map<i32, BitField>,
    pub holidays: Map<i32, Holiday>,
    pub timetable_metadata: Map<i32, TimetableMetadataEntry>,
    pub attributes: Map<i32, Attribute>,
    pub information_texts: Map<i32, InformationText>,
    pub directions: Map<i32, Direction>,
    pub lines: Map<i32, Line>,
    pub transport_companies: Map<i32, TransportCompany>,
    pub transport_types: Map<i32, TransportType>,
    pub stops: Map<i32, Stop>,
    pub stop_connections: Map<i32, StopConnection>,
    pub journeys: Map<i32, Journey>,
    pub journey_platform: Map<(i32, i32), JourneyPlatform>,
    pub platforms: Map<i32, Platform>,
    pub through_service: Map<i32, ThroughService>,
    pub exchange_times_administration: Map<i32, ExchangeTimeAdministration>,
    pub exchange_times_journey: Map<i32, ExchangeTimeJourney>,
    pub exchange_times_line: Map<i32, ExchangeTimeLine>,
    pub bit_fields_by_day: Map<Date, FxHashSet<i32>>,
    pub bit_fields_by_stop_id: Map<i32, FxHashSet<i32>>,
    pub journeys_by_stop_id_and_bit_field_id: Map<(i32, i32), FxHashSet<i32>>,
    pub stop_connections_by_stop_id: Map<i32, FxHashSet<i32>>,
    pub through_service_map: Map<((i32, Seq<char>), (i32, Seq<char>), i32), i32>,
    pub exchange_times_administration_map: Map<(Option<i32>, Seq<char>, Seq<char>), i32>,
    pub exchange_times_journey_map: Map<(i32, (i32, Seq<char>), (i32, Seq<char>)), Set<i32>>,
    pub default_exchange_time: (i16, i16),
}

/// All the data of a timetable, with the indexes built over it.
pub struct DataStorage {
    bit_fields: ResourceStorage<BitField>,
    holidays: ResourceStorage<Holiday>,
    timetable_metadata: ResourceStorage<TimetableMetadataEntry>,
    attributes: ResourceStorage<Attribute>,
    information_texts: ResourceStorage<InformationText>,
    directions: ResourceStorage<Direction>,
    lines: ResourceStorage<Line>,
    transport_companies: ResourceStorage<TransportCompany>,
    transport_types: ResourceStorage<TransportType>,
    stops: ResourceStorage<Stop>,
    stop_connections: ResourceStorage<StopConnection>,
    journeys: ResourceStorage<Journey>,
    journey_platform: ResourceStorage<JourneyPlatform>,
    platforms: ResourceStorage<Platform>,
    through_service: ResourceStorage<ThroughService>,
    exchange_times_administration: ResourceStorage<ExchangeTimeAdministration>,
    exchange_times_journey: ResourceStorage<ExchangeTimeJourney>,
    exchange_times_line: ResourceStorage<ExchangeTimeLine>,
    bit_fields_by_day: FxHashMap<Date, FxHashSet<i32>>,
    bit_fields_by_stop_id: FxHashMap<i32, FxHashSet<i32>>,
    journeys_by_stop_id_and_bit_field_id: FxHashMap<(i32, i32), FxHashSet<i32>>,
    stop_connections_by_stop_id: FxHashMap<i32, FxHashSet<i32>>,
    bit_field_id_for_through_service_by_journey_id_stop_id: FxHashMap<
        (JourneyId, JourneyId, i32),
        i32,
    >,
    exchange_times_administration_map: FxHashMap<(Option<i32>, String, String), i32>,
    exchange_times_journey_map: FxHashMap<(i32, JourneyId, JourneyId), FxHashSet<i32>>,
    /// (InterCity exchange time, exchange time for all other journeys)
    default_exchange_time: (i16, i16),
}

impl View for DataStorage {
    type V = DataStorageView;

    closed spec fn view(&self) -> DataStorageView {
        DataStorageView {
            bit_fields: self.bit_fields@,
            holidays: self.holidays@,
            timetable_metadata: self.timetable_metadata@,
            attributes: self.attributes@,
            information_texts: self.information_texts@,
            directions: self.directions@,
            lines: self.lines@,
            transport_companies: self.transport_companies@,
            transport_types: self.transport_types@,
            stops: self.stops@,
            stop_connections: self.stop_connections@,
            journeys: self.journeys@,
            journey_platform: self.journey_platform@,
            platforms: self.platforms@,
            through_service: self.through_service@,
            exchange_times_administration: self.exchange_times_administration@,
            exchange_times_journey: self.exchange_times_journey@,
            exchange_times_line: self.exchange_times_line@,
            bit_fields_by_day: self.bit_fields_by_day@,
            bit_fields_by_stop_id: self.bit_fields_by_stop_id@,
            journeys_by_stop_id_and_bit_field_id: self.journeys_by_stop_id_and_bit_field_id@,
            stop_connections_by_stop_id: self.stop_connections_by_stop_id@,
            through_service_map: through_map_contents(
                self.bit_field_id_for_through_service_by_journey_id_stop_id,
            ),
            exchange_times_administration_map: admin_map_contents(
                self.exchange_times_administration_map,
            ),
            exchange_times_journey_map: journey_pair_map_contents(self.exchange_times_journey_map),
            default_exchange_time: self.default_exchange_time,
        }
    }
}

/// The day index holds, for each day of the timetable, the bit fields that
/// operate on it.
pub open spec fn day_index(v: DataStorageView) -> bool {
    exists|first: Date, last: Date|
        has_date_entry(v.timetable_metadata, "start_date"@, first) && has_date_entry(
            v.timetable_metadata,
            "end_date"@,
            last,
        ) && first.day_number() <= last.day_number() && v.bit_fields_by_day.dom() == day_range(
            first,
            last,
        ) && index_pairs(v.bit_fields_by_day) == day_bit_field_pairs(v.bit_fields, first, last)
}

/// Every index of the storage is built from its resources.
pub open spec fn indexes_built(v: DataStorageView) -> bool {
    &&& day_index(v)
    &&& v.bit_fields_by_stop_id.dom() == served_stops(v.journeys)
    &&& index_pairs(v.bit_fields_by_stop_id) == stop_bit_field_pairs(v.journeys)
    &&& v.journeys_by_stop_id_and_bit_field_id.dom() == stop_bit_field_keys(v.journeys)
    &&& index_pairs(v.journeys_by_stop_id_and_bit_field_id) == stop_bit_field_journey_pairs(
        v.journeys,
    )
    &&& v.stop_connections_by_stop_id.dom() == connection_starts(v.stop_connections)
    &&& index_pairs(v.stop_connections_by_stop_id) == connection_pairs(v.stop_connections)
    &&& v.through_service_map.dom() == through_keys(v.through_service)
    &&& forall|k: ((i32, Seq<char>), (i32, Seq<char>), i32)|
        #![trigger v.through_service_map[k]]
        v.through_service_map.contains_key(k) ==> exists|i: i32|
            #![trigger v.through_service[i]]
            v.through_service.contains_key(i) && through_key(v.through_service[i]) == k
                && v.through_service[i].spec_bit_field_id() == v.through_service_map[k]
    &&& v.exchange_times_administration_map.dom() == admin_keys(v.exchange_times_administration)
    &&& forall|k: (Option<i32>, Seq<char>, Seq<char>)|
        #![trigger v.exchange_times_administration_map[k]]
        v.exchange_times_administration_map.contains_key(k) ==> exists|i: i32|
            #![trigger v.exchange_times_administration[i]]
            v.exchange_times_administration.contains_key(i) && admin_key(
                v.exchange_times_administration[i],
            ) == k && v.exchange_times_administration[i].spec_id()
                == v.exchange_times_administration_map[k]
    &&& v.exchange_times_journey_map.dom() == exchange_journey_keys(v.exchange_times_journey)
    &&& set_map_pairs(v.exchange_times_journey_map) == exchange_journey_pairs(
        v.exchange_times_journey,
    )
}

impl DataStorage {
    /// The storage of the given resources, with its indexes built. It
    /// succeeds where the timetable's first and last days can be read, the
    /// first not after the last (see `create_bit_fields_by_day`), and every
    /// journey with stops has a bit field entry; each error names one of
    /// these causes.
    pub fn new(
        bit_fields: ResourceStorage<BitField>,
        holidays: ResourceStorage<Holiday>,
        timetable_metadata: ResourceStorage<TimetableMetadataEntry>,
        attributes: ResourceStorage<Attribute>,
        information_texts: ResourceStorage<InformationText>,
        directions: ResourceStorage<Direction>,
        lines: ResourceStorage<Line>,
        transport_companies: ResourceStorage<TransportCompany>,
        transport_types: ResourceStorage<TransportType>,
        stops: ResourceStorage<Stop>,
        stop_connections: ResourceStorage<StopConnection>,
        journeys: ResourceStorage<Journey>,
        journey_platform: ResourceStorage<JourneyPlatform>,
        platforms: ResourceStorage<Platform>,
        through_service: ResourceStorage<ThroughService>,
        exchange_times_administration: ResourceStorage<ExchangeTimeAdministration>,
        exchange_times_journey: ResourceStorage<ExchangeTimeJourney>,
        exchange_times_line: ResourceStorage<ExchangeTimeLine>,
        default_exchange_time: (i16, i16),
    ) -> (res: HResult<DataStorage>)
        ensures
            !journeys_have_bit_fields(journeys@) ==> res is Err,
            match res {
                Ok(s) => {
                    &&& s@.bit_fields == bit_fields@
                    &&& s@.holidays == holidays@
                    &&& s@.timetable_metadata == timetable_metadata@
                    &&& s@.attributes == attributes@
                    &&& s@.information_texts == information_texts@
                    &&& s@.directions == directions@
                    &&& s@.lines == lines@
                    &&& s@.transport_companies == transport_companies@
                    &&& s@.transport_types == transport_types@
                    &&& s@.stops == stops@
                    &&& s@.stop_connections == stop_connections@
                    &&& s@.journeys == journeys@
                    &&& s@.journey_platform == journey_platform@
                    &&& s@.platforms == platforms@
                    &&& s@.through_service == through_service@
                    &&& s@.exchange_times_administration == exchange_times_administration@
                    &&& s@.exchange_times_journey == exchange_times_journey@
                    &&& s@.exchange_times_line == exchange_times_line@
                    &&& s@.default_exchange_time == default_exchange_time
                    &&& indexes_built(s@)
                    &&& keys_are_ids(journeys@) && connection_keys_are_ids(stop_connections@)
                        ==> index_resolves(s@)
                },
                Err(e) => {
                    ||| missing_or_invalid(timetable_metadata@, "start_date"@, e)
                    ||| missing_or_invalid(timetable_metadata@, "end_date"@, e)
                    ||| dates_reversed(timetable_metadata@, e)
                    ||| (e == HrdfError::Journey(JourneyError::MissingBitFieldMetadata)
                        && !journeys_have_bit_fields(journeys@))
                },
            },
            timetable_dates_valid(timetable_metadata@) && journeys_have_bit_fields(journeys@)
                ==> res is Ok,
    {
        let bit_fields_by_day = create_bit_fields_by_day(&bit_fields, &timetable_metadata)?;
        let bit_fields_by_stop_id = create_bit_fields_by_stop_id(&journeys)?;
        let journeys_by_stop_id_and_bit_field_id = create_journeys_by_stop_id_and_bit_field_id(
            &journeys,
        )?;
        let bit_field_id_for_through_service_by_journey_id_stop_id =
            create_bit_field_id_through_service_by_journey_id_stop_id(&through_service);
        let stop_connections_by_stop_id = create_stop_connections_by_stop_id(&stop_connections);
        let exchange_times_administration_map = create_exchange_times_administration_map(
            &exchange_times_administration,
        );
        let exchange_times_journey_map = create_exchange_times_journey_map(&exchange_times_journey);
        let s = DataStorage {
                bit_fields,
                holidays,
                timetable_metadata,
                attributes,
                information_texts,
                directions,
                lines,
                transport_companies,
                transport_types,
                stops,
                stop_connections,
                journeys,
                journey_platform,
                platforms,
                through_service,
                exchange_times_administration,
                exchange_times_journey,
                exchange_times_line,
                bit_fields_by_day,
                bit_fields_by_stop_id,
                journeys_by_stop_id_and_bit_field_id,
                stop_connections_by_stop_id,
                bit_field_id_for_through_service_by_journey_id_stop_id,
                exchange_times_administration_map,
                exchange_times_journey_map,
                default_exchange_time,
            };
        proof {
            if keys_are_ids(s@.journeys) && connection_keys_are_ids(s@.stop_connections) {
                lemma_built_indexes_resolve(s@);
            }
        }
        Ok(s)
    }

    /// The bit fields.
    pub fn bit_fields(&self) -> (res: &ResourceStorage<BitField>)
        ensures
            res@ == self@.bit_fields,
    {
        &self.bit_fields
    }

    /// The journeys.
    pub fn journeys(&self) -> (res: &ResourceStorage<Journey>)
        ensures
            res@ == self@.journeys,
    {
        &self.journeys
    }

    /// The lines.
    pub fn lines(&self) -> (res: &ResourceStorage<Line>)
        ensures
            res@ == self@.lines,
    {
        &self.lines
    }

    /// The platforms.
    pub fn platforms(&self) -> (res: &ResourceStorage<Platform>)
        ensures
            res@ == self@.platforms,
    {
        &self.platforms
    }

    /// The stop connections.
    pub fn stop_connections(&self) -> (res: &ResourceStorage<StopConnection>)
        ensures
            res@ == self@.stop_connections,
    {
        &self.stop_connections
    }

    /// The through services.
    pub fn through_service(&self) -> (res: &ResourceStorage<ThroughService>)
        ensures
            res@ == self@.through_service,
    {
        &self.through_service
    }

    /// The stops.
    pub fn stops(&self) -> (res: &ResourceStorage<Stop>)
        ensures
            res@ == self@.stops,
    {
        &self.stops
    }

    /// The transport types.
    pub fn transport_types(&self) -> (res: &ResourceStorage<TransportType>)
        ensures
            res@ == self@.transport_types,
    {
        &self.transport_types
    }

    /// The timetable metadata.
    pub fn timetable_metadata(&self) -> (res: &ResourceStorage<TimetableMetadataEntry>)
        ensures
            res@ == self@.timetable_metadata,
    {
        &self.timetable_metadata
    }

    /// The exchange times between administrations.
    pub fn exchange_times_administration(&self) -> (res: &ResourceStorage<
        ExchangeTimeAdministration,
    >)
        ensures
            res@ == self@.exchange_times_administration,
    {
        &self.exchange_times_administration
    }

    /// The exchange times between journeys.
    pub fn exchange_times_journey(&self) -> (res: &ResourceStorage<ExchangeTimeJourney>)
        ensures
            res@ == self@.exchange_times_journey,
    {
        &self.exchange_times_journey
    }

    /// The exchange times between lines.
    pub fn exchange_times_line(&self) -> (res: &ResourceStorage<ExchangeTimeLine>)
        ensures
            res@ == self@.exchange_times_line,
    {
        &self.exchange_times_line
    }

    /// For each day, the bit fields that operate on it.
    pub fn bit_fields_by_day(&self) -> (res: &FxHashMap<Date, FxHashSet<i32>>)
        ensures
            res@ == self@.bit_fields_by_day,
    {
        &self.bit_fields_by_day
    }

    /// For each stop, the bit fields of the journeys that pass it.
    pub fn bit_fields_by_stop_id(&self) -> (res: &FxHashMap<i32, FxHashSet<i32>>)
        ensures
            res@ == self@.bit_fields_by_stop_id,
    {
        &self.bit_fields_by_stop_id
    }

    /// For each (stop, bit field), the journeys.
    pub fn journeys_by_stop_id_and_bit_field_id(&self) -> (res: &FxHashMap<
        (i32, i32),
        FxHashSet<i32>,
    >)
        ensures
            res@ == self@.journeys_by_stop_id_and_bit_field_id,
    {
        &self.journeys_by_stop_id_and_bit_field_id
    }

    /// For each stop, the stop connections that start there.
    pub fn stop_connections_by_stop_id(&self) -> (res: &FxHashMap<i32, FxHashSet<i32>>)
        ensures
            res@ == self@.stop_connections_by_stop_id,
    {
        &self.stop_connections_by_stop_id
    }

    /// The bit field of the through service between two journeys at a stop.
    pub fn bit_field_id_for_through_service_by_journey_id_stop_id(&self) -> (res: &FxHashMap<
        (JourneyId, JourneyId, i32),
        i32,
    >)
        ensures
            through_map_contents(*res) == self@.through_service_map,
    {
        &self.bit_field_id_for_through_service_by_journey_id_stop_id
    }

    /// The administration exchange times by (stop, administration,
    /// administration).
    pub fn exchange_times_administration_map(&self) -> (res: &FxHashMap<
        (Option<i32>, String, String),
        i32,
    >)
        ensures
            admin_map_contents(*res) == self@.exchange_times_administration_map,
    {
        &self.exchange_times_administration_map
    }

    /// The journey exchange times by (stop, journey, journey).
    pub fn exchange_times_journey_map(&self) -> (res: &FxHashMap<
        (i32, JourneyId, JourneyId),
        FxHashSet<i32>,
    >)
        ensures
            journey_pair_map_contents(*res) == self@.exchange_times_journey_map,
    {
        &self.exchange_times_journey_map
    }

    /// (InterCity exchange time, exchange time for all other journeys).
    pub fn default_exchange_time(&self) -> (res: (i16, i16))
        ensures
            res == self@.default_exchange_time,
    {
        self.default_exchange_time
    }
}

} // verus!

verus! {

/// Whether `s` is one of the strings `names`.
pub fn contains_text(names: &Vec<String>, s: &str) -> (res: bool)
    ensures
        res == texts(names@).contains(s@),
{
    let mut i: usize = 0;
    while i < names.len()
        invariant
            0 <= i <= names@.len(),
            forall|j: int| 0 <= j < i ==> names@[j]@ != s@,
        decreases names@.len() - i,
    {
        if str_equals(names[i].as_str(), s) {
            assert(texts(names@)[i as int] == s@);
            return true;
        }
        i = i + 1;
    }
    proof {
        if texts(names@).contains(s@) {
            let j = choose|j: int| 0 <= j < texts(names@).len() && texts(names@)[j] == s@;
            assert(names@[j]@ == s@);
        }
    }
    false
}

/// The keys of the lines whose short name is one of `names`.
pub open spec fn removed_line_keys(lines: Map<i32, Line>, names: Seq<Seq<char>>) -> Set<i32> {
    Set::new(|k: i32| lines.contains_key(k) && names.contains(lines[k]@.short_name))
}

/// What a line entry of a journey says when the lines `removed` (or named
/// in `names`) go: `Some(true)` when it names a line that stays, `None` when
/// it names no line at all.
pub open spec fn line_entry_keeps(
    e: JourneyMetadataEntry,
    removed: Set<i32>,
    names: Seq<Seq<char>>,
) -> Option<bool> {
    match e.spec_resource_id() {
        Some(id) => Some(!removed.contains(id)),
        None => match e.extra_field_1_text() {
            Some(s) => Some(!names.contains(s)),
            None => None,
        },
    }
}

/// The first line entry, in order, that keeps the journey or names no line
/// decides; `Some(false)` when none does.
pub open spec fn line_scan(
    l: Seq<JourneyMetadataEntry>,
    removed: Set<i32>,
    names: Seq<Seq<char>>,
) -> Option<bool>
    decreases l.len(),
{
    if l.len() == 0 {
        Some(false)
    } else {
        match line_entry_keeps(l[0], removed, names) {
            Some(false) => line_scan(l.drop_first(), removed, names),
            r => r,
        }
    }
}

/// The keys of the journeys that keep a line when the lines named `names`
/// go.
pub open spec fn kept_journey_keys(
    journeys: Map<i32, Journey>,
    lines: Map<i32, Line>,
    names: Seq<Seq<char>>,
) -> Set<i32> {
    Set::new(
        |k: i32|
            journeys.contains_key(k) && line_scan(
                journeys[k].metadata_of(JourneyMetadataType::Line),
                removed_line_keys(lines, names),
                names,
            ) == Some(true),
    )
}

/// Every journey's line entries decide before one names no line.
pub open spec fn line_filter_defined(
    journeys: Map<i32, Journey>,
    lines: Map<i32, Line>,
    names: Seq<Seq<char>>,
) -> bool {
    forall|k: i32|
        #![trigger journeys[k]]
        journeys.contains_key(k) ==> line_scan(
            journeys[k].metadata_of(JourneyMetadataType::Line),
            removed_line_keys(lines, names),
            names,
        ) is Some
}

/// The ids of the stops named `names`.
pub open spec fn removed_stop_ids(stops: Map<i32, Stop>, names: Seq<Seq<char>>) -> Set<i32> {
    Set::new(
        |id: i32|
            exists|k: i32|
                #![trigger stops[k]]
                stops.contains_key(k) && names.contains(stops[k]@.name) && stops[k]@.id == id,
    )
}

/// `b` is the journey `a` with its route entries at the stops `removed`
/// left out (or `a` itself when no stop is removed).
pub open spec fn journey_after(a: Journey, b: Journey, removed: Option<Set<i32>>) -> bool {
    match removed {
        None => b == a,
        Some(r) => {
            &&& b.route_view() == a.route_view().filter(
                |e: JourneyRouteEntry| !r.contains(e.spec_stop_id()),
            )
            &&& b.metadata_view() == a.metadata_view()
            &&& b.spec_id() == a.spec_id()
            &&& b.spec_legacy_id() == a.spec_legacy_id()
            &&& b.administration_text() == a.administration_text()
        },
    }
}

/// The names listed for `kind`, if it is listed.
pub open spec fn listed_names(list: Seq<(RemovableTypes, Vec<String>)>, kind: RemovableTypes) -> Option<
    Seq<Seq<char>>,
> {
    if exists|i: int| 0 <= i < list.len() && list[i].0 == kind {
        Some(texts(list[choose|i: int| 0 <= i < list.len() && list[i].0 == kind].1@))
    } else {
        None
    }
}

/// Each kind is listed at most once.
pub open spec fn kinds_unique(list: Seq<(RemovableTypes, Vec<String>)>) -> bool {
    forall|i: int, j: int| 0 <= i < j < list.len() ==> list[i].0 != list[j].0
}

/// The names listed for `kind`.
fn find_names(list: &Vec<(RemovableTypes, Vec<String>)>, kind: RemovableTypes) -> (res: Option<
    &Vec<String>,
>)
    requires
        kinds_unique(list@),
    ensures
        match res {
            Some(v) => listed_names(list@, kind) == Some(texts(v@)),
            None => listed_names(list@, kind) is None,
        },
{
    let mut i: usize = 0;
    while i < list.len()
        invariant
            0 <= i <= list@.len(),
            kinds_unique(list@),
            forall|j: int| 0 <= j < i ==> list@[j].0 != kind,
        decreases list@.len() - i,
    {
        if list[i].0 == kind {
            proof {
                assert(list@[i as int].0 == kind);
                let c = choose|c: int| 0 <= c < list@.len() && list@[c].0 == kind;
                assert(c == i);
            }
            return Some(&list[i].1);
        }
        i = i + 1;
    }
    None
}

} // verus!

verus! {

impl<M: Model> ResourceStorage<M> where M::K: Copy {
    /// Removes the resources at the keys `ks`.
    fn remove_keys(&mut self, ks: &Vec<M::K>)
        ensures
            final(self)@ == old(self)@.remove_keys(ks@.to_set()),
    {
        let ghost start = self@;
        let mut i: usize = 0;
        assert(start.remove_keys(ks@.subrange(0, 0).to_set()) =~= start);
        while i < ks.len()
            invariant
                0 <= i <= ks@.len(),
                self@ == start.remove_keys(ks@.subrange(0, i as int).to_set()),
            decreases ks@.len() - i,
        {
            fx_map_remove(&mut self.data, ks[i]);
            proof {
                let ii = i as int;
                assert(ks@.subrange(0, ii + 1).to_set() =~= ks@.subrange(0, ii).to_set().insert(
                    ks@[ii],
                )) by {
                    assert(ks@.subrange(0, ii + 1) =~= ks@.subrange(0, ii).push(ks@[ii]));
                    ks@.subrange(0, ii).lemma_push_to_set_commute(ks@[ii]);
                }
                assert(self@ =~= start.remove_keys(ks@.subrange(0, ii + 1).to_set()));
            }
            i = i + 1;
        }
        assert(ks@.subrange(0, ks@.len() as int) =~= ks@);
    }
}

/// The elements of `s` that are in `keep`.
fn set_filter(s: &FxHashSet<i32>, keep: &FxHashSet<i32>) -> (res: FxHashSet<i32>)
    ensures
        res@ == s@.filter(|x: i32| keep@.contains(x)),
{
    let elems = fx_set_elements(s);
    let mut res: FxHashSet<i32> = fx_set_new();
    let mut i: usize = 0;
    while i < elems.len()
        invariant
            0 <= i <= elems@.len(),
            elems@.to_set() == s@,
            res@ == elems@.subrange(0, i as int).to_set().filter(|x: i32| keep@.contains(x)),
        decreases elems@.len() - i,
    {
        let ghost before = elems@.subrange(0, i as int);
        proof {
            assert(elems@.subrange(0, i + 1) =~= before.push(elems@[i as int]));
            before.lemma_push_to_set_commute(elems@[i as int]);
        }
        if fx_set_contains(keep, elems[i]) {
            fx_set_insert(&mut res, elems[i]);
        }
        proof {
            assert(res@ =~= elems@.subrange(0, i + 1).to_set().filter(|x: i32| keep@.contains(x)));
        }
        i = i + 1;
    }
    assert(elems@.subrange(0, elems@.len() as int) =~= elems@);
    res
}

/// Keeps, in each set of the index, the elements that are in `keep`; the
/// keys stay.
fn filter_index_sets(m: &mut FxHashMap<(i32, i32), FxHashSet<i32>>, keep: &FxHashSet<i32>)
    ensures
        final(m)@.dom() == old(m)@.dom(),
        index_pairs(final(m)@) == index_pairs(old(m)@).filter(|p: ((i32, i32), i32)| keep@.contains(p.1)),
{
    let ghost start = m@;
    let keys = fx_map_keys(m);
    let mut i: usize = 0;
    while i < keys.len()
        invariant
            0 <= i <= keys@.len(),
            keys@.to_set() == start.dom(),
            keys@.no_duplicates(),
            m@.dom() == start.dom(),
            forall|k: (i32, i32)|
                #![trigger m@[k]]
                m@.contains_key(k) ==> m@[k]@ == (if keys@.subrange(0, i as int).contains(k) {
                    start[k]@.filter(|x: i32| keep@.contains(x))
                } else {
                    start[k]@
                }),
        decreases keys@.len() - i,
    {
        let k = keys[i];
        assert(keys@.to_set().contains(k));
        let ghost before = m@;
        let set = match fx_map_remove(m, k) {
            Some(s) => s,
            None => {
                assert(false);
                return;
            },
        };
        let filtered = set_filter(&set, keep);
        fx_map_insert(m, k, filtered);
        proof {
            let ii = i as int;
            assert(keys@.subrange(0, ii + 1) =~= keys@.subrange(0, ii).push(k));
            assert(!keys@.subrange(0, ii).contains(k)) by {
                if keys@.subrange(0, ii).contains(k) {
                    let j = choose|j: int| 0 <= j < ii && keys@.subrange(0, ii)[j] == k;
                    assert(keys@[j] == keys@[ii]);
                }
            }
            assert(m@.dom() =~= start.dom());
            assert forall|k2: (i32, i32)| #![trigger m@[k2]] m@.contains_key(k2) implies m@[k2]@ == (
            if keys@.subrange(0, ii + 1).contains(k2) {
                start[k2]@.filter(|x: i32| keep@.contains(x))
            } else {
                start[k2]@
            }) by {
                if k2 != k {
                    assert(before.contains_key(k2));
                    assert(keys@.subrange(0, ii + 1).contains(k2) == keys@.subrange(0, ii).contains(k2));
                } else {
                    assert(keys@.subrange(0, ii + 1)[ii] == k);
                }
            }
        }
        i = i + 1;
    }
    proof {
        assert(keys@.subrange(0, keys@.len() as int) =~= keys@);
        assert(index_pairs(m@) =~= index_pairs(start).filter(|p: ((i32, i32), i32)| keep@.contains(p.1))) by {
            assert forall|p: ((i32, i32), i32)| index_pairs(m@).contains(p) <==> index_pairs(start).filter(
                |p: ((i32, i32), i32)| keep@.contains(p.1),
            ).contains(p) by {
                if m@.contains_key(p.0) {
                    assert(keys@.to_set().contains(p.0));
                    assert(m@[p.0]@ == start[p.0]@.filter(|x: i32| keep@.contains(x)));
                }
            }
        }
    }
}

} // verus!

verus! {

/// Whether the journey keeps a line when the lines `removed` (or named in
/// `names`) go.
fn journey_keeps_line(j: &Journey, removed: &FxHashSet<i32>, names: &Vec<String>) -> (res: bool)
    requires
        line_scan(j.metadata_of(JourneyMetadataType::Line), removed@, texts(names@)) is Some,
    ensures
        res == (line_scan(j.metadata_of(JourneyMetadataType::Line), removed@, texts(names@))
            == Some(true)),
{
    let entries = j.entries_of(JourneyMetadataType::Line);
    let ghost l = j.metadata_of(JourneyMetadataType::Line);
    let ghost nm = texts(names@);
    let mut i: usize = 0;
    assert(l.skip(0) =~= l);
    while i < entries.len()
        invariant
            0 <= i <= entries@.len(),
            l == j.metadata_of(JourneyMetadataType::Line),
            entries@.len() == l.len(),
            forall|n: int| 0 <= n < entries@.len() ==> *entries@[n] == l[n],
            nm == texts(names@),
            line_scan(l, removed@, nm) == line_scan(l.skip(i as int), removed@, nm),
            line_scan(l, removed@, nm) is Some,
        decreases entries@.len() - i,
    {
        let e = entries[i];
        let ghost rest = l.skip(i as int);
        assert(rest[0] == l[i as int]);
        assert(rest.len() > 0);
        assert(rest.drop_first() =~= l.skip(i + 1));
        assert(*e == rest[0]);
        match e.resource_id() {
            Some(id) => {
                if !fx_set_contains(removed, id) {
                    assert(line_entry_keeps(rest[0], removed@, nm) == Some(true));
                    assert(line_scan(rest, removed@, nm) == Some(true));
                    return true;
                }
            },
            None => match e.extra_field_1() {
                Some(s) => {
                    if !contains_text(names, s.as_str()) {
                        assert(line_entry_keeps(rest[0], removed@, nm) == Some(true));
                        assert(line_scan(rest, removed@, nm) == Some(true));
                        return true;
                    }
                },
                None => {
                    assert(false);
                    return false;
                },
            },
        }
        i = i + 1;
    }
    assert(l.skip(i as int).len() == 0);
    false
}

/// `new` is `old` after the lines named `names` went, with the journeys that
/// kept no line and those journeys' places in the index by (stop, bit
/// field).
pub open spec fn line_step(old: DataStorageView, new: DataStorageView, names: Seq<Seq<char>>) -> bool {
    let kept = kept_journey_keys(old.journeys, old.lines, names);
    &&& new == (DataStorageView {
        lines: new.lines,
        journeys: new.journeys,
        journeys_by_stop_id_and_bit_field_id: new.journeys_by_stop_id_and_bit_field_id,
        ..old
    })
    &&& new.lines == old.lines.restrict(
        Set::new(|k: i32| !names.contains(old.lines[k]@.short_name)),
    )
    &&& new.journeys == old.journeys.restrict(
        Set::new(|k: i32| kept.contains(old.journeys[k].spec_id())),
    )
    &&& new.journeys_by_stop_id_and_bit_field_id.dom()
        == old.journeys_by_stop_id_and_bit_field_id.dom()
    &&& index_pairs(new.journeys_by_stop_id_and_bit_field_id) == index_pairs(
        old.journeys_by_stop_id_and_bit_field_id,
    ).filter(|p: ((i32, i32), i32)| kept.contains(p.1))
}

/// `new` is `old` after the stops named `names` went, and with them the
/// journeys' route entries at those stops.
pub open spec fn stop_step(old: DataStorageView, new: DataStorageView, names: Seq<Seq<char>>) -> bool {
    &&& new == (DataStorageView { stops: new.stops, journeys: new.journeys, ..old })
    &&& new.stops == old.stops.restrict(Set::new(|k: i32| !names.contains(old.stops[k]@.name)))
    &&& new.journeys.dom() == old.journeys.dom()
    &&& forall|k: i32|
        #![trigger new.journeys[k]]
        new.journeys.contains_key(k) ==> journey_after(
            old.journeys[k],
            new.journeys[k],
            Some(removed_stop_ids(old.stops, names)),
        )
}

/// `new` is `old` after the removals listed in `list`: lines first, then
/// stops.
pub open spec fn filtered(old: DataStorageView, new: DataStorageView, list: Seq<(RemovableTypes, Vec<String>)>) -> bool {
    match (listed_names(list, RemovableTypes::Line), listed_names(list, RemovableTypes::Stop)) {
        (None, None) => new == old,
        (Some(n), None) => line_step(old, new, n),
        (None, Some(n)) => stop_step(old, new, n),
        (Some(a), Some(b)) => exists|mid: DataStorageView| line_step(old, mid, a) && stop_step(mid, new, b),
    }
}

/// Each journey is stored under its own id.
pub open spec fn keys_are_ids(journeys: Map<i32, Journey>) -> bool {
    forall|k: i32| #[trigger] journeys.contains_key(k) ==> journeys[k].spec_id() == k
}

/// Every journey id in the index by (stop, bit field) names a journey of
/// the storage.
pub open spec fn index_resolves(v: DataStorageView) -> bool {
    forall|p: ((i32, i32), i32)|
        #[trigger] index_pairs(v.journeys_by_stop_id_and_bit_field_id).contains(p) ==> v.journeys.contains_key(p.1)
}

/// Each stop connection is stored under its own id.
pub open spec fn connection_keys_are_ids(connections: Map<i32, StopConnection>) -> bool {
    forall|k: i32| #[trigger] connections.contains_key(k) ==> connections[k].spec_id() == k
}

/// In a storage whose indexes are built (see `DataStorage::new`) and whose
/// journeys and stop connections are stored under their ids, every id in the
/// index by (stop, bit field) is a journey that passes the stop with that bit
/// field, which the index of bit fields by stop lists at the stop; and every
/// id in the index of stop connections by stop is a connection starting
/// there.
pub proof fn lemma_built_indexes_resolve(v: DataStorageView)
    requires
        indexes_built(v),
        keys_are_ids(v.journeys),
        connection_keys_are_ids(v.stop_connections),
    ensures
        index_resolves(v),
        forall|p: ((i32, i32), i32)|
            #[trigger] index_pairs(v.journeys_by_stop_id_and_bit_field_id).contains(p) ==> {
                &&& v.journeys.contains_key(p.1)
                &&& on_route(v.journeys[p.1], p.0.0)
                &&& effective_bit_field(v.journeys[p.1]) == p.0.1
                &&& v.bit_fields_by_stop_id.contains_key(p.0.0)
                &&& v.bit_fields_by_stop_id[p.0.0]@.contains(p.0.1)
            },
        forall|p: (i32, i32)|
            #[trigger] index_pairs(v.stop_connections_by_stop_id).contains(p) ==> v.stop_connections.contains_key(p.1)
                && v.stop_connections[p.1].spec_stop_id_1() == p.0,
{
    assert forall|p: ((i32, i32), i32)|
        #[trigger] index_pairs(v.journeys_by_stop_id_and_bit_field_id).contains(p) implies {
            &&& v.journeys.contains_key(p.1)
            &&& on_route(v.journeys[p.1], p.0.0)
            &&& effective_bit_field(v.journeys[p.1]) == p.0.1
            &&& v.bit_fields_by_stop_id.contains_key(p.0.0)
            &&& v.bit_fields_by_stop_id[p.0.0]@.contains(p.0.1)
        } by {
        assert(stop_bit_field_journey_pairs(v.journeys).contains(p));
        let k = choose|k: i32|
            #![trigger v.journeys[k]]
            v.journeys.contains_key(k) && on_route(v.journeys[k], p.0.0) && effective_bit_field(v.journeys[k])
                == p.0.1 && v.journeys[k].spec_id() == p.1;
        assert(stop_bit_field_pairs(v.journeys).contains(p.0));
        assert(index_pairs(v.bit_fields_by_stop_id).contains(p.0));
    }
    assert forall|p: (i32, i32)| #[trigger] index_pairs(v.stop_connections_by_stop_id).contains(p) implies v.stop_connections.contains_key(p.1)
        && v.stop_connections[p.1].spec_stop_id_1() == p.0 by {
        assert(connection_pairs(v.stop_connections).contains(p));
        let k = choose|k: i32|
            #![trigger v.stop_connections[k]]
            v.stop_connections.contains_key(k) && v.stop_connections[k].spec_stop_id_1() == p.0
                && v.stop_connections[k].spec_id() == p.1;
    }
}

/// Filtering a storage whose indexes are built and whose journeys are
/// stored under their ids leaves an index by (stop, bit field) that names
/// only journeys of the storage.
pub proof fn lemma_filtered_index_resolves(
    old: DataStorageView,
    new: DataStorageView,
    list: Seq<(RemovableTypes, Vec<String>)>,
)
    requires
        indexes_built(old),
        keys_are_ids(old.journeys),
        connection_keys_are_ids(old.stop_connections),
        filtered(old, new, list),
    ensures
        index_resolves(new),
        keys_are_ids(new.journeys),
{
    lemma_built_indexes_resolve(old);
    lemma_filter_keeps_index_resolvable(old, new, list);
}

/// Filtering only takes away: every line, journey and stop that is left
/// was there before.
pub proof fn lemma_filter_only_removes(old: DataStorageView, new: DataStorageView, list: Seq<(RemovableTypes, Vec<String>)>)
    requires
        filtered(old, new, list),
    ensures
        new.lines.dom().subset_of(old.lines.dom()),
        new.journeys.dom().subset_of(old.journeys.dom()),
        new.stops.dom().subset_of(old.stops.dom()),
{
    match (listed_names(list, RemovableTypes::Line), listed_names(list, RemovableTypes::Stop)) {
        (Some(a), Some(b)) => {
            let mid = choose|mid: DataStorageView| line_step(old, mid, a) && stop_step(mid, new, b);
            assert(mid.stops == old.stops);
        },
        _ => {},
    }
}

/// After filtering, the index by (stop, bit field) still names only
/// journeys of the storage, where it did before and journeys are stored
/// under their ids.
pub proof fn lemma_filter_keeps_index_resolvable(
    old: DataStorageView,
    new: DataStorageView,
    list: Seq<(RemovableTypes, Vec<String>)>,
)
    requires
        filtered(old, new, list),
        keys_are_ids(old.journeys),
        index_resolves(old),
    ensures
        index_resolves(new),
        keys_are_ids(new.journeys),
{
    match (listed_names(list, RemovableTypes::Line), listed_names(list, RemovableTypes::Stop)) {
        (None, None) => {},
        (Some(a), None) => {
            lemma_line_step_resolvable(old, new, a);
        },
        (None, Some(b)) => {
            lemma_stop_step_resolvable(old, new, b);
        },
        (Some(a), Some(b)) => {
            let mid = choose|mid: DataStorageView| line_step(old, mid, a) && stop_step(mid, new, b);
            lemma_line_step_resolvable(old, mid, a);
            lemma_stop_step_resolvable(mid, new, b);
        },
    }
}

proof fn lemma_line_step_resolvable(old: DataStorageView, new: DataStorageView, names: Seq<Seq<char>>)
    requires
        line_step(old, new, names),
        keys_are_ids(old.journeys),
        index_resolves(old),
    ensures
        index_resolves(new),
        keys_are_ids(new.journeys),
{
    let kept = kept_journey_keys(old.journeys, old.lines, names);
    assert forall|p: ((i32, i32), i32)|
        #[trigger] index_pairs(new.journeys_by_stop_id_and_bit_field_id).contains(p) implies new.journeys.contains_key(
        p.1,
    ) by {
        assert(index_pairs(old.journeys_by_stop_id_and_bit_field_id).contains(p));
        assert(kept.contains(p.1));
        assert(old.journeys.contains_key(p.1));
        assert(old.journeys[p.1].spec_id() == p.1);
    }
}

proof fn lemma_stop_step_resolvable(old: DataStorageView, new: DataStorageView, names: Seq<Seq<char>>)
    requires
        stop_step(old, new, names),
        keys_are_ids(old.journeys),
        index_resolves(old),
    ensures
        index_resolves(new),
        keys_are_ids(new.journeys),
{
    assert forall|k: i32| #[trigger] new.journeys.contains_key(k) implies new.journeys[k].spec_id() == k by {
        assert(journey_after(old.journeys[k], new.journeys[k], Some(removed_stop_ids(old.stops, names))));
    }
}

impl DataStorage {
    /// Removes the lines named `names` (by short name), the journeys that keep
    /// no line, and those journeys from the index by (stop, bit field).
    fn filter_lines(self, names: &Vec<String>) -> (res: Self)
        requires
            line_filter_defined(self@.journeys, self@.lines, texts(names@)),
        ensures
            line_step(self@, res@, texts(names@)),
    {
        let ghost old_view = self@;
        let ghost nm = texts(names@);
        let mut s = self;
        let line_keys = s.lines.keys();
        let mut removed: FxHashSet<i32> = fx_set_new();
        let mut to_remove: Vec<i32> = Vec::new();
        let mut i: usize = 0;
        while i < line_keys.len()
            invariant
                0 <= i <= line_keys@.len(),
                line_keys@.to_set() == old_view.lines.dom(),
                s@ == old_view,
                nm == texts(names@),
                removed@ == to_remove@.to_set(),
                removed@ == Set::new(
                    |k: i32|
                        line_keys@.subrange(0, i as int).contains(k) && nm.contains(
                            old_view.lines[k]@.short_name,
                        ),
                ),
            decreases line_keys@.len() - i,
        {
            let k = line_keys[i];
            assert(line_keys@.to_set().contains(k));
            let ghost before = removed@;
            let ghost prefix = line_keys@.subrange(0, i as int);
            let ghost next = line_keys@.subrange(0, i + 1);
            assert(next =~= prefix.push(k));
            let line = match s.lines.find(k) {
                Some(l) => l,
                None => {
                    assert(false);
                    return s;
                },
            };
            if contains_text(names, line.get_name().as_str()) {
                fx_set_insert(&mut removed, k);
                proof {
                    to_remove@.lemma_push_to_set_commute(k);
                }
                to_remove.push(k);
            }
            proof {
                assert(removed@ =~= Set::new(
                    |k2: i32|
                        next.contains(k2) && nm.contains(
                            old_view.lines[k2]@.short_name,
                        ),
                )) by {
                    assert forall|k2: i32|
                        next.contains(k2) implies prefix.contains(k2) || k2
                        == k by {
                        let j = choose|j: int| 0 <= j < i + 1 && next[j] == k2;
                        if j < i {
                            assert(prefix[j] == k2);
                        }
                    }
                    assert(next[i as int] == k);
                }
            }
            i = i + 1;
        }
        proof {
            assert(line_keys@.subrange(0, i as int) =~= line_keys@);
            assert(removed@ =~= removed_line_keys(old_view.lines, nm)) by {
                assert forall|k: i32| removed_line_keys(old_view.lines, nm).contains(k) implies removed@.contains(k) by {
                    assert(line_keys@.to_set().contains(k));
                }
            }
        }
        s.lines.remove_keys(&to_remove);
        assert(s.lines@ =~= old_view.lines.restrict(
            Set::new(|k: i32| !nm.contains(old_view.lines[k]@.short_name)),
        ));
        let journey_keys = s.journeys.keys();
        let mut kept: FxHashSet<i32> = fx_set_new();
        let mut j: usize = 0;
        while j < journey_keys.len()
            invariant
                0 <= j <= journey_keys@.len(),
                journey_keys@.to_set() == old_view.journeys.dom(),
                s.journeys@ == old_view.journeys,
                nm == texts(names@),
                removed@ == removed_line_keys(old_view.lines, nm),
                line_filter_defined(old_view.journeys, old_view.lines, nm),
                kept@ == Set::new(
                    |k: i32|
                        journey_keys@.subrange(0, j as int).contains(k) && line_scan(
                            old_view.journeys[k].metadata_of(JourneyMetadataType::Line),
                            removed_line_keys(old_view.lines, nm),
                            nm,
                        ) == Some(true),
                ),
            decreases journey_keys@.len() - j,
        {
            let k = journey_keys[j];
            assert(journey_keys@.to_set().contains(k));
            let ghost prefix = journey_keys@.subrange(0, j as int);
            let ghost next = journey_keys@.subrange(0, j + 1);
            assert(next =~= prefix.push(k));
            let journey = match s.journeys.find(k) {
                Some(x) => x,
                None => {
                    assert(false);
                    return s;
                },
            };
            assert(old_view.journeys.contains_key(k));
            if journey_keeps_line(journey, &removed, names) {
                fx_set_insert(&mut kept, k);
            }
            proof {
                assert(kept@ =~= Set::new(
                    |k2: i32|
                        next.contains(k2) && line_scan(
                            old_view.journeys[k2].metadata_of(JourneyMetadataType::Line),
                            removed_line_keys(old_view.lines, nm),
                            nm,
                        ) == Some(true),
                )) by {
                    assert forall|k2: i32|
                        next.contains(k2) implies prefix.contains(k2)
                        || k2 == k by {
                        let n = choose|n: int| 0 <= n < j + 1 && next[n] == k2;
                        if n < j {
                            assert(prefix[n] == k2);
                        }
                    }
                    assert(next[j as int] == k);
                }
            }
            j = j + 1;
        }
        proof {
            assert(journey_keys@.subrange(0, j as int) =~= journey_keys@);
            assert(kept@ =~= kept_journey_keys(old_view.journeys, old_view.lines, nm)) by {
                assert forall|k: i32| kept_journey_keys(old_view.journeys, old_view.lines, nm).contains(k) implies kept@.contains(k) by {
                    assert(journey_keys@.to_set().contains(k));
                }
            }
        }
        let mut drop: Vec<i32> = Vec::new();
        let mut n: usize = 0;
        while n < journey_keys.len()
            invariant
                0 <= n <= journey_keys@.len(),
                journey_keys@.to_set() == old_view.journeys.dom(),
                s.journeys@ == old_view.journeys,
                kept@ == kept_journey_keys(old_view.journeys, old_view.lines, nm),
                drop@.to_set() == Set::new(
                    |k: i32|
                        journey_keys@.subrange(0, n as int).contains(k) && !kept@.contains(
                            old_view.journeys[k].spec_id(),
                        ),
                ),
            decreases journey_keys@.len() - n,
        {
            let k = journey_keys[n];
            assert(journey_keys@.to_set().contains(k));
            let ghost prefix = journey_keys@.subrange(0, n as int);
            let ghost next = journey_keys@.subrange(0, n + 1);
            assert(next =~= prefix.push(k));
            let journey = match s.journeys.find(k) {
                Some(x) => x,
                None => {
                    assert(false);
                    return s;
                },
            };
            let ghost before = drop@;
            if !fx_set_contains(&kept, journey.id()) {
                proof {
                    drop@.lemma_push_to_set_commute(k);
                }
                drop.push(k);
            }
            proof {
                assert(drop@.to_set() =~= Set::new(
                    |k2: i32|
                        next.contains(k2) && !kept@.contains(
                            old_view.journeys[k2].spec_id(),
                        ),
                )) by {
                    assert forall|k2: i32|
                        next.contains(k2) implies prefix.contains(k2)
                        || k2 == k by {
                        let q = choose|q: int| 0 <= q < n + 1 && next[q] == k2;
                        if q < n {
                            assert(prefix[q] == k2);
                        }
                    }
                    assert(next[n as int] == k);
                }
            }
            n = n + 1;
        }
        proof {
            assert(journey_keys@.subrange(0, n as int) =~= journey_keys@);
        }
        s.journeys.remove_keys(&drop);
        proof {
            assert(s.journeys@ =~= old_view.journeys.restrict(
                Set::new(|k: i32| kept@.contains(old_view.journeys[k].spec_id())),
            )) by {
                assert forall|k: i32| old_view.journeys.contains_key(k) implies (drop@.to_set().contains(k)
                    <==> !kept@.contains(old_view.journeys[k].spec_id())) by {
                    assert(journey_keys@.to_set().contains(k));
                }
            }
        }
        filter_index_sets(&mut s.journeys_by_stop_id_and_bit_field_id, &kept);
        s
    }

    /// Removes the stops named `names`, and the route entries of the
    /// journeys at those stops.
    fn filter_stops(self, names: &Vec<String>) -> (res: Self)
        ensures
            stop_step(self@, res@, texts(names@)),
    {
        let ghost old_view = self@;
        let ghost nm = texts(names@);
        let mut s = self;
        let stop_keys = s.stops.keys();
        let mut removed: FxHashSet<i32> = fx_set_new();
        let mut to_remove: Vec<i32> = Vec::new();
        let mut i: usize = 0;
        while i < stop_keys.len()
            invariant
                0 <= i <= stop_keys@.len(),
                stop_keys@.to_set() == old_view.stops.dom(),
                s@ == old_view,
                nm == texts(names@),
                to_remove@.to_set() == Set::new(
                    |k: i32|
                        stop_keys@.subrange(0, i as int).contains(k) && nm.contains(
                            old_view.stops[k]@.name,
                        ),
                ),
                removed@ == Set::new(
                    |id: i32|
                        exists|k: i32|
                            #![trigger old_view.stops[k]]
                            stop_keys@.subrange(0, i as int).contains(k) && nm.contains(
                                old_view.stops[k]@.name,
                            ) && old_view.stops[k]@.id == id,
                ),
            decreases stop_keys@.len() - i,
        {
            let k = stop_keys[i];
            assert(stop_keys@.to_set().contains(k));
            let ghost prefix = stop_keys@.subrange(0, i as int);
            let ghost next = stop_keys@.subrange(0, i + 1);
            assert(next =~= prefix.push(k));
            assert(next[i as int] == k);
            assert forall|k2: i32|
                next.contains(k2) implies prefix.contains(k2) || k2 == k by {
                let q = choose|q: int| 0 <= q < i + 1 && next[q] == k2;
                if q < i {
                    assert(prefix[q] == k2);
                }
            }
            let stop = match s.stops.find(k) {
                Some(x) => x,
                None => {
                    assert(false);
                    return s;
                },
            };
            let ghost before = removed@;
            if contains_text(names, stop.name()) {
                fx_set_insert(&mut removed, stop.id());
                proof {
                    to_remove@.lemma_push_to_set_commute(k);
                }
                to_remove.push(k);
            }
            proof {
                assert(to_remove@.to_set() =~= Set::new(
                    |k2: i32|
                        next.contains(k2) && nm.contains(
                            old_view.stops[k2]@.name,
                        ),
                ));
                assert(removed@ =~= Set::new(
                    |id: i32|
                        exists|k2: i32|
                            #![trigger old_view.stops[k2]]
                            next.contains(k2) && nm.contains(
                                old_view.stops[k2]@.name,
                            ) && old_view.stops[k2]@.id == id,
                )) by {
                    assert forall|id: i32| removed@.contains(id) implies exists|k2: i32|
                        #![trigger old_view.stops[k2]]
                        next.contains(k2) && nm.contains(
                            old_view.stops[k2]@.name,
                        ) && old_view.stops[k2]@.id == id by {
                        if !before.contains(id) {
                            assert(old_view.stops[k]@.id == id);
                        } else {
                            let k2 = choose|k2: i32|
                                #![trigger old_view.stops[k2]]
                                prefix.contains(k2) && nm.contains(old_view.stops[k2]@.name)
                                    && old_view.stops[k2]@.id == id;
                            assert(next.contains(k2)) by {
                                let q = choose|q: int| 0 <= q < i && prefix[q] == k2;
                                assert(next[q] == k2);
                            }
                        }
                    }
                    assert forall|id: i32| (exists|k2: i32|
                        #![trigger old_view.stops[k2]]
                        next.contains(k2) && nm.contains(
                            old_view.stops[k2]@.name,
                        ) && old_view.stops[k2]@.id == id) implies removed@.contains(id) by {
                        let k2 = choose|k2: i32|
                            #![trigger old_view.stops[k2]]
                            next.contains(k2) && nm.contains(
                                old_view.stops[k2]@.name,
                            ) && old_view.stops[k2]@.id == id;
                        if k2 != k {
                            assert(prefix.contains(k2));
                        }
                    }
                }
            }
            i = i + 1;
        }
        proof {
            assert(stop_keys@.subrange(0, i as int) =~= stop_keys@);
            assert(removed@ =~= removed_stop_ids(old_view.stops, nm)) by {
                assert forall|id: i32| removed_stop_ids(old_view.stops, nm).contains(id) implies removed@.contains(id) by {
                    let k = choose|k: i32|
                        #![trigger old_view.stops[k]]
                        old_view.stops.contains_key(k) && nm.contains(old_view.stops[k]@.name)
                            && old_view.stops[k]@.id == id;
                    assert(stop_keys@.to_set().contains(k));
                }
            }
        }
        s.stops.remove_keys(&to_remove);
        proof {
            assert(s.stops@ =~= old_view.stops.restrict(
                Set::new(|k: i32| !nm.contains(old_view.stops[k]@.name)),
            )) by {
                assert forall|k: i32| old_view.stops.contains_key(k) implies (to_remove@.to_set().contains(k)
                    <==> nm.contains(old_view.stops[k]@.name)) by {
                    assert(stop_keys@.to_set().contains(k));
                }
            }
        }
        let journey_keys = s.journeys.keys();
        let mut j: usize = 0;
        while j < journey_keys.len()
            invariant
                0 <= j <= journey_keys@.len(),
                journey_keys@.to_set() == old_view.journeys.dom(),
                journey_keys@.no_duplicates(),
                s.journeys@.dom() == old_view.journeys.dom(),
                removed@ == removed_stop_ids(old_view.stops, nm),
                s@ == (DataStorageView { stops: s@.stops, journeys: s@.journeys, ..old_view }),
                s@.stops == old_view.stops.restrict(
                    Set::new(|k: i32| !nm.contains(old_view.stops[k]@.name)),
                ),
                forall|k: i32|
                    #![trigger s.journeys@[k]]
                    s.journeys@.contains_key(k) ==> if journey_keys@.subrange(0, j as int).contains(k) {
                        journey_after(old_view.journeys[k], s.journeys@[k], Some(removed@))
                    } else {
                        s.journeys@[k] == old_view.journeys[k]
                    },
            decreases journey_keys@.len() - j,
        {
            let k = journey_keys[j];
            assert(journey_keys@.to_set().contains(k));
            let ghost prefix = journey_keys@.subrange(0, j as int);
            let ghost next = journey_keys@.subrange(0, j + 1);
            let ghost before = s.journeys@;
            assert(next =~= prefix.push(k));
            assert(!prefix.contains(k)) by {
                if prefix.contains(k) {
                    let q = choose|q: int| 0 <= q < j && prefix[q] == k;
                    assert(journey_keys@[q] == journey_keys@[j as int]);
                }
            }
            let journey = match fx_map_remove(&mut s.journeys.data, k) {
                Some(x) => x,
                None => {
                    assert(false);
                    return s;
                },
            };
            let filtered = journey.filter_route(&removed);
            fx_map_insert(&mut s.journeys.data, k, filtered);
            proof {
                assert(s.journeys@.dom() =~= old_view.journeys.dom());
                assert forall|k2: i32|
                    #![trigger s.journeys@[k2]]
                    s.journeys@.contains_key(k2) implies if next.contains(k2) {
                        journey_after(old_view.journeys[k2], s.journeys@[k2], Some(removed@))
                    } else {
                        s.journeys@[k2] == old_view.journeys[k2]
                    } by {
                    if k2 != k {
                        assert(before.contains_key(k2));
                        assert(next.contains(k2) == prefix.contains(k2)) by {
                            if next.contains(k2) {
                                let q = choose|q: int| 0 <= q < j + 1 && next[q] == k2;
                                assert(q < j);
                                assert(prefix[q] == k2);
                            }
                            if prefix.contains(k2) {
                                let q = choose|q: int| 0 <= q < j && prefix[q] == k2;
                                assert(next[q] == k2);
                            }
                        }
                    } else {
                        assert(next[j as int] == k);
                    }
                }
            }
            j = j + 1;
        }
        proof {
            assert(journey_keys@.subrange(0, j as int) =~= journey_keys@);
            assert forall|k: i32|
                #![trigger s@.journeys[k]]
                s@.journeys.contains_key(k) implies journey_after(
                old_view.journeys[k],
                s@.journeys[k],
                Some(removed_stop_ids(old_view.stops, nm)),
            ) by {
                assert(journey_keys@.to_set().contains(k));
                assert(s.journeys@[k] == s@.journeys[k]);
            }
        }
        s
    }

    /// Removes the resources named in `elements_to_remove`: for `Line`, the
    /// lines with those short names, the journeys that keep no line, and
    /// those journeys from the index by (stop, bit field); for `Stop`, the
    /// stops with those names and the journeys' route entries at them. The
    /// two kinds can be listed in either order: the outcome is the same.
    pub fn filter(self, elements_to_remove: &Vec<(RemovableTypes, Vec<String>)>) -> (res: Self)
        requires
            kinds_unique(elements_to_remove@),
            listed_names(elements_to_remove@, RemovableTypes::TransportType) is None,
            listed_names(elements_to_remove@, RemovableTypes::TransportCompany) is None,
            listed_names(elements_to_remove@, RemovableTypes::Line) matches Some(n)
                ==> line_filter_defined(self@.journeys, self@.lines, n),
        ensures
            filtered(self@, res@, elements_to_remove@),
            keys_are_ids(self@.journeys) && index_resolves(self@) ==> index_resolves(res@)
                && keys_are_ids(res@.journeys),
    {
        let line_names = find_names(elements_to_remove, RemovableTypes::Line);
        let stop_names = find_names(elements_to_remove, RemovableTypes::Stop);
        let mut s = self;
        let ghost start = s@;
        match line_names {
            Some(n) => {
                s = s.filter_lines(n);
            },
            None => {},
        }
        let ghost mid = s@;
        match stop_names {
            Some(n) => {
                s = s.filter_stops(n);
            },
            None => {},
        }
        proof {
            if keys_are_ids(start.journeys) && index_resolves(start) {
                lemma_filter_keeps_index_resolvable(start, s@, elements_to_remove@);
            }
        }
        s
    }
}

} // verus!

verus! {

impl JourneyRouteEntry {
    /// The stop of the entry, from the storage.
    pub fn stop<'a>(&self, data_storage: &'a DataStorage) -> (res: HResult<&'a Stop>)
        ensures
            match res {
                Ok(s) => data_storage@.stops.contains_key(self.spec_stop_id()) && *s
                    == data_storage@.stops[self.spec_stop_id()],
                Err(e) => !data_storage@.stops.contains_key(self.spec_stop_id()) && e
                    == HrdfError::Journey(JourneyError::StopIdNotFound(self.spec_stop_id())),
            },
    {
        let stop_id = self.stop_id();
        match data_storage.stops().find(stop_id) {
            Some(s) => Ok(s),
            None => Err(HrdfError::Journey(JourneyError::StopIdNotFound(stop_id))),
        }
    }
}

impl Journey {
    /// The transport type of the journey, from the storage.
    pub fn transport_type<'a>(&self, data_storage: &'a DataStorage) -> (res: HResult<
        &'a TransportType,
    >)
        ensures
            match res {
                Ok(t) => self.transport_type_of() matches Ok(id) && data_storage@.transport_types.contains_key(
                    id,
                ) && *t == data_storage@.transport_types[id],
                Err(e) => match self.transport_type_of() {
                    Err(e2) => e == e2,
                    Ok(id) => !data_storage@.transport_types.contains_key(id) && e
                        == HrdfError::Journey(JourneyError::TransportIdNotFound(id)),
                },
            },
    {
        let id = self.transport_type_id()?;
        match data_storage.transport_types().find(id) {
            Some(t) => Ok(t),
            None => Err(HrdfError::Journey(JourneyError::TransportIdNotFound(id))),
        }
    }
}

} // verus!

verus! {

/// Replacements of resources, by key.
pub enum ModifiableTypes {
    Line { modifications: FxHashMap<i32, Line> },
    Stop { modifications: FxHashMap<i32, Stop> },
    TransportType,
    TransportCompany,
}

/// Resources to add.
pub enum AddableTypes {
    Line { add_list: Vec<Line> },
    Stop { add_list: Vec<Stop> },
    TransportType,
    TransportCompany,
}

/// The views of the stops of a map.
pub open spec fn stops_view(m: Map<i32, Stop>) -> Map<i32, StopView> {
    m.map_values(|s: Stop| s@)
}

/// `old` where each key that `mods` holds takes the value of `mods`; keys
/// that only `mods` holds are not added.
pub open spec fn replaced<V>(old: Map<i32, V>, mods: Map<i32, V>) -> Map<i32, V> {
    Map::new(
        |k: i32| old.contains_key(k),
        |k: i32|
            if mods.contains_key(k) {
                mods[k]
            } else {
                old[k]
            },
    )
}

/// `m` with the values of `list` added under the keys `base`, `base + 1`,
/// ... (as `i32`), in order.
pub open spec fn added<V>(m: Map<i32, V>, list: Seq<V>, base: int) -> Map<i32, V>
    decreases list.len(),
{
    if list.len() == 0 {
        m
    } else {
        added(m, list.drop_last(), base).insert((base + list.len() - 1) as i32, list.last())
    }
}

/// The key at which `DataStorage::add` puts the first added line.
pub const FIRST_ADDED_LINE_ID: usize = 1000000;

/// The key at which `DataStorage::add` puts the first added stop.
pub const FIRST_ADDED_STOP_ID: usize = 1001000;

impl DataStorage {
    /// Replaces the lines or stops that `elements_to_modify` holds under keys
    /// of the storage (a copy of each replacement is kept).
    pub fn modify(self, elements_to_modify: &ModifiableTypes) -> (res: Self)
        requires
            !(elements_to_modify is TransportType),
            !(elements_to_modify is TransportCompany),
        ensures
            match elements_to_modify {
                ModifiableTypes::Line { modifications } => {
                    &&& res@ == (DataStorageView { lines: res@.lines, ..self@ })
                    &&& lines_view(res@.lines) == replaced(
                        lines_view(self@.lines),
                        lines_view(modifications@),
                    )
                },
                ModifiableTypes::Stop { modifications } => {
                    &&& res@ == (DataStorageView { stops: res@.stops, ..self@ })
                    &&& stops_view(res@.stops) == replaced(
                        stops_view(self@.stops),
                        stops_view(modifications@),
                    )
                },
                _ => true,
            },
    {
        let ghost start = self@;
        let mut s = self;
        match elements_to_modify {
            ModifiableTypes::Line { modifications } => {
                let keys = s.lines.keys();
                let mut i: usize = 0;
                while i < keys.len()
                    invariant
                        0 <= i <= keys@.len(),
                        keys@.to_set() == start.lines.dom(),
                        keys@.no_duplicates(),
                        s@ == (DataStorageView { lines: s@.lines, ..start }),
                        lines_view(s@.lines) == Map::new(
                            |k: i32| start.lines.contains_key(k),
                            |k: i32|
                                if modifications@.contains_key(k) && keys@.subrange(0, i as int).contains(k) {
                                    modifications@[k]@
                                } else {
                                    start.lines[k]@
                                },
                        ),
                    decreases keys@.len() - i,
                {
                    let k = keys[i];
                    let ghost before = lines_view(s@.lines);
                    proof {
                        assert(keys@.to_set().contains(k));
                        assert(keys@.subrange(0, i + 1) =~= keys@.subrange(0, i as int).push(k));
                        assert(!keys@.subrange(0, i as int).contains(k)) by {
                            if keys@.subrange(0, i as int).contains(k) {
                                let q = choose|q: int| 0 <= q < i && keys@.subrange(0, i as int)[q] == k;
                                assert(keys@[q] == keys@[i as int]);
                            }
                        }
                    }
                    match fx_map_get(modifications, k) {
                        Some(l) => {
                            let d = l.duplicate();
                            fx_map_insert(&mut s.lines.data, k, d);
                            assert(lines_view(s@.lines) =~= before.insert(k, modifications@[k]@));
                        },
                        None => {
                            assert(!modifications@.contains_key(k));
                        },
                    }
                    proof {
                        let nx = keys@.subrange(0, i + 1);
                        let pr = keys@.subrange(0, i as int);
                        assert(nx[i as int] == k);
                        assert forall|k2: i32| k2 != k implies nx.contains(k2) == pr.contains(k2) by {
                            if nx.contains(k2) {
                                let q = choose|q: int| 0 <= q < i + 1 && nx[q] == k2;
                                assert(pr[q] == k2);
                            }
                            if pr.contains(k2) {
                                let q = choose|q: int| 0 <= q < i && pr[q] == k2;
                                assert(nx[q] == k2);
                            }
                        }
                        assert(lines_view(s@.lines) =~= Map::new(
                            |k2: i32| start.lines.contains_key(k2),
                            |k2: i32|
                                if modifications@.contains_key(k2) && keys@.subrange(0, i + 1).contains(k2) {
                                    modifications@[k2]@
                                } else {
                                    start.lines[k2]@
                                },
                        ));
                    }
                    i = i + 1;
                }
                proof {
                    assert(keys@.subrange(0, keys@.len() as int) =~= keys@);
                    assert(lines_view(s@.lines) =~= replaced(
                        lines_view(start.lines),
                        lines_view(modifications@),
                    )) by {
                        assert forall|k: i32| start.lines.contains_key(k) implies keys@.contains(k) by {
                            assert(keys@.to_set().contains(k));
                        }
                    }
                }
            },
            ModifiableTypes::Stop { modifications } => {
                let keys = s.stops.keys();
                let mut i: usize = 0;
                while i < keys.len()
                    invariant
                        0 <= i <= keys@.len(),
                        keys@.to_set() == start.stops.dom(),
                        keys@.no_duplicates(),
                        s@ == (DataStorageView { stops: s@.stops, ..start }),
                        stops_view(s@.stops) == Map::new(
                            |k: i32| start.stops.contains_key(k),
                            |k: i32|
                                if modifications@.contains_key(k) && keys@.subrange(0, i as int).contains(k) {
                                    modifications@[k]@
                                } else {
                                    start.stops[k]@
                                },
                        ),
                    decreases keys@.len() - i,
                {
                    let k = keys[i];
                    let ghost before = stops_view(s@.stops);
                    proof {
                        assert(keys@.to_set().contains(k));
                        assert(keys@.subrange(0, i + 1) =~= keys@.subrange(0, i as int).push(k));
                        assert(!keys@.subrange(0, i as int).contains(k)) by {
                            if keys@.subrange(0, i as int).contains(k) {
                                let q = choose|q: int| 0 <= q < i && keys@.subrange(0, i as int)[q] == k;
                                assert(keys@[q] == keys@[i as int]);
                            }
                        }
                    }
                    match fx_map_get(modifications, k) {
                        Some(st) => {
                            let d = st.duplicate();
                            fx_map_insert(&mut s.stops.data, k, d);
                            assert(stops_view(s@.stops) =~= before.insert(k, modifications@[k]@));
                        },
                        None => {
                            assert(!modifications@.contains_key(k));
                        },
                    }
                    proof {
                        let nx = keys@.subrange(0, i + 1);
                        let pr = keys@.subrange(0, i as int);
                        assert(nx[i as int] == k);
                        assert forall|k2: i32| k2 != k implies nx.contains(k2) == pr.contains(k2) by {
                            if nx.contains(k2) {
                                let q = choose|q: int| 0 <= q < i + 1 && nx[q] == k2;
                                assert(pr[q] == k2);
                            }
                            if pr.contains(k2) {
                                let q = choose|q: int| 0 <= q < i && pr[q] == k2;
                                assert(nx[q] == k2);
                            }
                        }
                        assert(stops_view(s@.stops) =~= Map::new(
                            |k2: i32| start.stops.contains_key(k2),
                            |k2: i32|
                                if modifications@.contains_key(k2) && keys@.subrange(0, i + 1).contains(k2) {
                                    modifications@[k2]@
                                } else {
                                    start.stops[k2]@
                                },
                        ));
                    }
                    i = i + 1;
                }
                proof {
                    assert(keys@.subrange(0, keys@.len() as int) =~= keys@);
                    assert(stops_view(s@.stops) =~= replaced(
                        stops_view(start.stops),
                        stops_view(modifications@),
                    )) by {
                        assert forall|k: i32| start.stops.contains_key(k) implies keys@.contains(k) by {
                            assert(keys@.to_set().contains(k));
                        }
                    }
                }
            },
            _ => {},
        }
        s
    }

    /// Adds the lines (under the keys 1000000, 1000001, ...) or the stops
    /// (under 1001000, 1001001, ...) that `elements_to_add` holds, each
    /// replacing what the storage held under its key; transport types and
    /// companies are not added.
    pub fn add(self, elements_to_add: &AddableTypes) -> (res: Self)
        requires
            elements_to_add matches AddableTypes::Line { add_list } ==> add_list@.len()
                <= usize::MAX - FIRST_ADDED_LINE_ID,
            elements_to_add matches AddableTypes::Stop { add_list } ==> add_list@.len()
                <= usize::MAX - FIRST_ADDED_STOP_ID,
        ensures
            match elements_to_add {
                AddableTypes::Line { add_list } => {
                    &&& res@ == (DataStorageView { lines: res@.lines, ..self@ })
                    &&& lines_view(res@.lines) == added(
                        lines_view(self@.lines),
                        add_list@.map_values(|l: Line| l@),
                        FIRST_ADDED_LINE_ID as int,
                    )
                },
                AddableTypes::Stop { add_list } => {
                    &&& res@ == (DataStorageView { stops: res@.stops, ..self@ })
                    &&& stops_view(res@.stops) == added(
                        stops_view(self@.stops),
                        add_list@.map_values(|s: Stop| s@),
                        FIRST_ADDED_STOP_ID as int,
                    )
                },
                _ => res@ == self@,
            },
    {
        let ghost start = self@;
        let mut s = self;
        match elements_to_add {
            AddableTypes::Line { add_list } => {
                let ghost views = add_list@.map_values(|l: Line| l@);
                let mut i: usize = 0;
                while i < add_list.len()
                    invariant
                        0 <= i <= add_list@.len(),
                        add_list@.len() <= usize::MAX - FIRST_ADDED_LINE_ID,
                        views == add_list@.map_values(|l: Line| l@),
                        s@ == (DataStorageView { lines: s@.lines, ..start }),
                        lines_view(s@.lines) == added(
                            lines_view(start.lines),
                            views.subrange(0, i as int),
                            FIRST_ADDED_LINE_ID as int,
                        ),
                    decreases add_list@.len() - i,
                {
                    let key = (FIRST_ADDED_LINE_ID + i) as i32;
                    let d = add_list[i].duplicate();
                    fx_map_insert(&mut s.lines.data, key, d);
                    proof {
                        let next = views.subrange(0, i + 1);
                        assert(next.drop_last() =~= views.subrange(0, i as int));
                        assert(lines_view(s@.lines) =~= added(
                            lines_view(start.lines),
                            next,
                            FIRST_ADDED_LINE_ID as int,
                        ));
                    }
                    i = i + 1;
                }
                assert(views.subrange(0, views.len() as int) =~= views);
            },
            AddableTypes::Stop { add_list } => {
                let ghost views = add_list@.map_values(|st: Stop| st@);
                let mut i: usize = 0;
                while i < add_list.len()
                    invariant
                        0 <= i <= add_list@.len(),
                        add_list@.len() <= usize::MAX - FIRST_ADDED_STOP_ID,
                        views == add_list@.map_values(|st: Stop| st@),
                        s@ == (DataStorageView { stops: s@.stops, ..start }),
                        stops_view(s@.stops) == added(
                            stops_view(start.stops),
                            views.subrange(0, i as int),
                            FIRST_ADDED_STOP_ID as int,
                        ),
                    decreases add_list@.len() - i,
                {
                    let key = (FIRST_ADDED_STOP_ID + i) as i32;
                    let d = add_list[i].duplicate();
                    fx_map_insert(&mut s.stops.data, key, d);
                    proof {
                        let next = views.subrange(0, i + 1);
                        assert(next.drop_last() =~= views.subrange(0, i as int));
                        assert(stops_view(s@.stops) =~= added(
                            stops_view(start.stops),
                            next,
                            FIRST_ADDED_STOP_ID as int,
                        ));
                    }
                    i = i + 1;
                }
                assert(views.subrange(0, views.len() as int) =~= views);
            },
            _ => {},
        }
        s
    }
}

} // verus!

verus! {

/// `m` with the pairs of `list` inserted in order (a later pair replaces an
/// earlier one with the same key).
pub open spec fn inserted_all<K, V>(m: Map<K, V>, list: Seq<(K, V)>) -> Map<K, V>
    decreases list.len(),
{
    if list.len() == 0 {
        m
    } else {
        inserted_all(m, list.drop_last()).insert(list.last().0, list.last().1)
    }
}

/// Extending leaves alone the keys that the list does not give: they are
/// held exactly when they were, with the same resources.
pub proof fn lemma_inserted_all_frame<K, V>(m: Map<K, V>, list: Seq<(K, V)>, k: K)
    requires
        forall|i: int| 0 <= i < list.len() ==> (#[trigger] list[i]).0 != k,
    ensures
        inserted_all(m, list).contains_key(k) == m.contains_key(k),
        m.contains_key(k) ==> inserted_all(m, list)[k] == m[k],
    decreases list.len(),
{
    if list.len() > 0 {
        assert forall|i: int| 0 <= i < list.drop_last().len() implies (#[trigger] list.drop_last()[i]).0 != k by {
            assert(list.drop_last()[i] == list[i]);
        }
        assert(list[list.len() - 1].0 != k);
        lemma_inserted_all_frame(m, list.drop_last(), k);
    }
}

/// `x` is the resource of `m` with one of the keys in `ids`.
pub open spec fn resource_of<K, M>(m: Map<K, M>, ids: Set<K>, x: M) -> bool {
    exists|k: K| #![trigger m[k]] ids.contains(k) && x == m[k]
}

/// `v` holds, in some order, the resources of `m` with the keys in `ids`,
/// one for each key.
pub open spec fn resolved<K, M>(m: Map<K, M>, ids: Set<K>, v: Seq<&M>) -> bool {
    &&& v.len() == ids.len()
    &&& forall|i: int| 0 <= i < v.len() ==> resource_of(m, ids, *(#[trigger] v[i]))
    &&& forall|k: K| ids.contains(k) ==> exists|i: int| 0 <= i < v.len() && *v[i] == m[k]
}

/// The pairs (id, resource) of the resources, in order.
pub open spec fn keyed<M: Model>(items: Seq<M>) -> Seq<(M::K, M)> {
    items.map_values(|m: M| (m.model_id(), m))
}

/// The resources by id (a later resource replaces an earlier one with the
/// same id).
pub fn vec_to_map<M: Model>(items: Vec<M>) -> (res: FxHashMap<M::K, M>)
    where
        M::K: Copy,
    ensures
        res@ == inserted_all(Map::empty(), keyed(items@)),
{
    let ghost all = keyed(items@);
    let mut data: FxHashMap<M::K, M> = fx_map_new();
    let mut rest = items;
    let ghost orig = rest@;
    let mut i: usize = 0;
    let n = rest.len();
    assert(all.subrange(0, 0) =~= Seq::<(M::K, M)>::empty());
    while rest.len() > 0
        invariant
            n == orig.len(),
            all == keyed(orig),
            i + rest@.len() == n,
            rest@ == orig.subrange(i as int, n as int),
            data@ == inserted_all(Map::empty(), all.subrange(0, i as int)),
        decreases rest@.len(),
    {
        let m = rest.remove(0);
        assert(orig[i as int] == m);
        let k = m.id();
        fx_map_insert(&mut data, k, m);
        proof {
            let next = all.subrange(0, i + 1);
            assert(next.drop_last() =~= all.subrange(0, i as int));
            assert(next.last() == (k, m));
            assert(rest@ =~= orig.subrange(i + 1, n as int));
        }
        i = i + 1;
    }
    assert(all.subrange(0, n as int) =~= all);
    data
}

/// Some key of `m` maps, through `f`, to the pair (`k2`, `v2`).
pub open spec fn mapped_from<K, M, F: Fn(&K, &M) -> (K, M)>(m: Map<K, M>, f: F, k2: K, v2: M) -> bool {
    exists|k: K| #![trigger m[k]] m.contains_key(k) && f.ensures((&k, &m[k]), (k2, v2))
}

/// What `f` made of the entry of `k` in `m` has its key in `res`.
pub open spec fn image_kept<K, M, F: Fn(&K, &M) -> (K, M)>(m: Map<K, M>, f: F, res: Map<K, M>, k: K) -> bool {
    exists|r: (K, M)| #![trigger f.ensures((&k, &m[k]), r)] f.ensures((&k, &m[k]), r) && res.contains_key(r.0)
}

impl<M: Model> ResourceStorage<M> where M::K: Copy {
    /// Keeps the resources for which `predicate` holds.
    pub fn filter<F: Fn(&M::K, &M) -> bool>(self, predicate: F) -> (res: Self)
        requires
            forall|k: M::K, m: M| predicate.requires((&k, &m)),
        ensures
            forall|k: M::K|
                #[trigger] res@.contains_key(k) ==> self@.contains_key(k) && res@[k] == self@[k]
                    && predicate.ensures((&k, &self@[k]), true),
            forall|k: M::K|
                self@.contains_key(k) && !res@.contains_key(k) ==> predicate.ensures(
                    (&k, &self@[k]),
                    false,
                ),
    {
        let ghost start = self@;
        let keys = self.keys();
        let mut drop: Vec<M::K> = Vec::new();
        let mut i: usize = 0;
        while i < keys.len()
            invariant
                0 <= i <= keys@.len(),
                keys@.to_set() == start.dom(),
                self@ == start,
                forall|k: M::K, m: M| predicate.requires((&k, &m)),
                forall|k: M::K|
                    #[trigger] drop@.contains(k) ==> start.contains_key(k) && predicate.ensures(
                        (&k, &start[k]),
                        false,
                    ),
                forall|n: int|
                    0 <= n < i ==> drop@.contains(#[trigger] keys@[n]) || predicate.ensures(
                        (&keys@[n], &start[keys@[n]]),
                        true,
                    ),
            decreases keys@.len() - i,
        {
            let k = keys[i];
            assert(keys@.to_set().contains(k));
            let m = match self.find(k) {
                Some(m) => m,
                None => {
                    assert(false);
                    return self;
                },
            };
            let keep = predicate(&k, m);
            let ghost prev = drop@;
            if !keep {
                drop.push(k);
                proof {
                    assert(drop@[drop@.len() - 1] == k);
                    assert forall|k2: M::K| #[trigger] drop@.contains(k2) implies start.contains_key(k2)
                        && predicate.ensures((&k2, &start[k2]), false) by {
                        if k2 != k {
                            let q = choose|q: int| 0 <= q < drop@.len() && drop@[q] == k2;
                            assert(prev[q] == k2);
                            assert(prev.contains(k2));
                        } else {
                            assert(*m == start[k]);
                        }
                    }
                    assert forall|n: int| 0 <= n < i + 1 implies drop@.contains(#[trigger] keys@[n])
                        || predicate.ensures((&keys@[n], &start[keys@[n]]), true) by {
                        if n < i && prev.contains(keys@[n]) {
                            let q = choose|q: int| 0 <= q < prev.len() && prev[q] == keys@[n];
                            assert(drop@[q] == keys@[n]);
                        }
                    }
                }
            }
            i = i + 1;
        }
        let mut res = self;
        res.remove_keys(&drop);
        proof {
            assert forall|k: M::K| #[trigger] res@.contains_key(k) implies start.contains_key(k)
                && res@[k] == start[k] && predicate.ensures((&k, &start[k]), true) by {
                assert(keys@.to_set().contains(k));
                let n = choose|n: int| 0 <= n < keys@.len() && keys@[n] == k;
                assert(!drop@.to_set().contains(k));
            }
            assert forall|k: M::K| start.contains_key(k) && !res@.contains_key(k) implies predicate.ensures(
                (&k, &start[k]),
                false,
            ) by {
                assert(drop@.to_set().contains(k));
            }
        }
        res
    }

    /// The resources mapped by `f` to new (key, resource) pairs; where two
    /// pairs share a key, the storage keeps one of them.
    pub fn map<F: Fn(&M::K, &M) -> (M::K, M)>(self, f: F) -> (res: Self)
        requires
            forall|k: M::K, m: M| f.requires((&k, &m)),
        ensures
            forall|k2: M::K| #[trigger] res@.contains_key(k2) ==> mapped_from(self@, f, k2, res@[k2]),
            forall|k: M::K| #[trigger] self@.contains_key(k) ==> image_kept(self@, f, res@, k),
    {
        let ghost start = self@;
        let keys = self.keys();
        let mut data: FxHashMap<M::K, M> = fx_map_new();
        let mut i: usize = 0;
        while i < keys.len()
            invariant
                0 <= i <= keys@.len(),
                keys@.to_set() == start.dom(),
                self@ == start,
                forall|k: M::K, m: M| f.requires((&k, &m)),
                forall|k2: M::K| #[trigger] data@.contains_key(k2) ==> mapped_from(start, f, k2, data@[k2]),
                forall|n: int| 0 <= n < i ==> image_kept(start, f, data@, #[trigger] keys@[n]),
            decreases keys@.len() - i,
        {
            let k = keys[i];
            assert(keys@.to_set().contains(k));
            let m = match self.find(k) {
                Some(m) => m,
                None => {
                    assert(false);
                    return self;
                },
            };
            let (k2, v2) = f(&k, m);
            let ghost prev = data@;
            fx_map_insert(&mut data, k2, v2);
            proof {
                assert forall|k4: M::K| #[trigger] data@.contains_key(k4) implies mapped_from(start, f, k4, data@[k4]) by {
                    if k4 != k2 {
                        assert(prev.contains_key(k4));
                    } else {
                        assert(start[k] == *m);
                    }
                }
                assert forall|n: int| 0 <= n < i + 1 implies image_kept(start, f, data@, #[trigger] keys@[n]) by {
                    if n < i {
                        let r = choose|r: (M::K, M)| #![trigger f.ensures((&keys@[n], &start[keys@[n]]), r)]
                            f.ensures((&keys@[n], &start[keys@[n]]), r) && prev.contains_key(r.0);
                        assert(data@.contains_key(r.0));
                    } else {
                        assert(start[k] == *m);
                        assert(f.ensures((&k, &start[k]), (k2, v2)));
                        assert(data@.contains_key(k2));
                    }
                }
            }
            i = i + 1;
        }
        proof {
            assert forall|k: M::K| #[trigger] start.contains_key(k) implies image_kept(start, f, data@, k) by {
                assert(keys@.to_set().contains(k));
                let n = choose|n: int| 0 <= n < keys@.len() && keys@[n] == k;
                assert(image_kept(start, f, data@, keys@[n]));
            }
        }
        ResourceStorage { data }
    }

    /// The storage with the pairs of `add_list` inserted in order.
    pub fn extend(self, add_list: Vec<(M::K, M)>) -> (res: Self)
        ensures
            res@ == inserted_all(self@, add_list@),
    {
        let ghost start = self@;
        let ghost list = add_list@;
        let mut res = self;
        let mut rest = add_list;
        let mut i: usize = 0;
        let n = rest.len();
        assert(list.subrange(0, 0) =~= Seq::<(M::K, M)>::empty());
        while rest.len() > 0
            invariant
                i + rest@.len() == list.len(),
                n == list.len(),
                rest@ == list.subrange(i as int, list.len() as int),
                res@ == inserted_all(start, list.subrange(0, i as int)),
            decreases rest@.len(),
        {
            let (k, v) = rest.remove(0);
            assert(list[i as int] == (k, v));
            fx_map_insert(&mut res.data, k, v);
            proof {
                let next = list.subrange(0, i + 1);
                assert(next.drop_last() =~= list.subrange(0, i as int));
                assert(rest@ =~= list.subrange(i + 1, list.len() as int));
            }
            i = i + 1;
        }
        assert(list.subrange(0, list.len() as int) =~= list);
        res
    }

    /// The resources with the given keys, in the set's own order; `None`
    /// where the storage lacks one of them.
    pub fn resolve_ids(&self, ids: &FxHashSet<M::K>) -> (res: Option<Vec<&M>>)
        ensures
            res is Some <==> ids@.subset_of(self@.dom()),
            res matches Some(v) ==> resolved(self@, ids@, v@),
    {
        let elems = fx_set_elements(ids);
        let mut res: Vec<&M> = Vec::new();
        let mut i: usize = 0;
        while i < elems.len()
            invariant
                0 <= i <= elems@.len(),
                elems@.to_set() == ids@,
                elems@.no_duplicates(),
                res@.len() == i,
                forall|j: int| 0 <= j < i ==> self@.contains_key(#[trigger] elems@[j]) && *res@[j]
                    == self@[elems@[j]],
            decreases elems@.len() - i,
        {
            match self.find(elems[i]) {
                Some(m) => {
                    let ghost prev = res@;
                    res.push(m);
                    proof {
                        assert forall|j: int| 0 <= j < i + 1 implies self@.contains_key(#[trigger] elems@[j])
                            && *res@[j] == self@[elems@[j]] by {
                            if j < i {
                                assert(res@[j] == prev[j]);
                            }
                        }
                    }
                },
                None => {
                    assert(elems@.to_set().contains(elems@[i as int]));
                    return None;
                },
            }
            i = i + 1;
        }
        proof {
            elems@.unique_seq_to_set();
            assert forall|k: M::K| ids@.contains(k) implies self@.contains_key(k) by {
                assert(elems@.to_set().contains(k));
                let j = choose|j: int| 0 <= j < elems@.len() && elems@[j] == k;
                assert(self@.contains_key(elems@[j]));
            }
            assert forall|j: int| 0 <= j < res@.len() implies resource_of(self@, ids@, *(#[trigger] res@[j])) by {
                assert(self@.contains_key(elems@[j]));
                assert(elems@.to_set().contains(elems@[j]));
                assert(self@[elems@[j]] == *res@[j]);
            }
            assert forall|k: M::K| ids@.contains(k) implies exists|j: int| 0 <= j < res@.len() && *res@[j]
                == self@[k] by {
                assert(elems@.to_set().contains(k));
                let j = choose|j: int| 0 <= j < elems@.len() && elems@[j] == k;
                assert(*res@[j] == self@[k]);
            }
            assert(res@.len() == ids@.len());
        }
        Some(res)
    }
}

} // verus!
