//! Journeys: a route through stops with times, and metadata.
use crate::calendar::{in_calendar_range, Date, DateTime, Time};
use crate::error::{HResult, HrdfError, JourneyError};
use crate::models::Model;
use crate::utils::{add_1_day, sub_1_day};
use crate::text::opt_text;
use crate::fxmap::fx_set_contains;
use rustc_hash::FxHashSet;
use std::collections::BTreeSet;
use std::collections::hash_map::DefaultHasher;
use std::hash::{Hash, Hasher};
use vstd::prelude::*;

verus! {

/// The hash that std's `DefaultHasher` gives to the set of stop ids (as a
/// `BTreeSet<i32>`).
pub uninterp spec fn stops_hash(stops: Set<i32>) -> u64;

/// Hashes the set of the given stop ids with std's `DefaultHasher::new()`
/// (documented to give the same result for the same input). The ids are
/// collected into a `BTreeSet` first, so the result depends on the set alone;
/// the contract names it.
#[verifier::external_body]
fn hash_stop_ids(ids: &Vec<i32>) -> (res: u64)
    ensures
        res == stops_hash(ids@.to_set()),
{
    let set: BTreeSet<i32> = ids.iter().copied().collect();
    let mut hasher = DefaultHasher::new();
    set.hash(&mut hasher);
    hasher.finish()
}

/// The kinds of metadata of a journey.
#[derive(Clone, Copy, Debug, PartialEq, Eq, Structural, Hash)]
pub enum JourneyMetadataType {
    Attribute,
    BitField,
    Direction,
    InformationText,
    Line,
    ExchangeTimeBoarding,
    ExchangeTimeDisembarking,
    TransportType,
}

/// One metadata entry of a journey; which fields are used depends on its kind.
#[derive(Clone, Debug)]
pub struct JourneyMetadataEntry {
    from_stop_id: Option<i32>,
    until_stop_id: Option<i32>,
    resource_id: Option<i32>,
    bit_field_id: Option<i32>,
    departure_time: Option<Time>,
    arrival_time: Option<Time>,
    extra_field_1: Option<String>,
    extra_field_2: Option<i32>,
}

impl JourneyMetadataEntry {
    pub closed spec fn spec_from_stop_id(self) -> Option<i32> {
        self.from_stop_id
    }

    pub closed spec fn spec_until_stop_id(self) -> Option<i32> {
        self.until_stop_id
    }

    pub closed spec fn spec_resource_id(self) -> Option<i32> {
        self.resource_id
    }

    pub closed spec fn spec_bit_field_id(self) -> Option<i32> {
        self.bit_field_id
    }

    pub closed spec fn spec_departure_time(self) -> Option<Time> {
        self.departure_time
    }

    pub closed spec fn spec_arrival_time(self) -> Option<Time> {
        self.arrival_time
    }

    pub closed spec fn extra_field_1_text(self) -> Option<Seq<char>> {
        opt_text(self.extra_field_1)
    }

    pub closed spec fn spec_extra_field_2(self) -> Option<i32> {
        self.extra_field_2
    }

    /// A metadata entry.
    pub fn new(
        from_stop_id: Option<i32>,
        until_stop_id: Option<i32>,
        resource_id: Option<i32>,
        bit_field_id: Option<i32>,
        departure_time: Option<Time>,
        arrival_time: Option<Time>,
        extra_field_1: Option<String>,
        extra_field_2: Option<i32>,
    ) -> (res: JourneyMetadataEntry)
        ensures
            res.spec_from_stop_id() == from_stop_id,
            res.spec_until_stop_id() == until_stop_id,
            res.spec_resource_id() == resource_id,
            res.spec_bit_field_id() == bit_field_id,
            res.spec_departure_time() == departure_time,
            res.spec_arrival_time() == arrival_time,
            res.extra_field_1_text() == opt_text(extra_field_1),
            res.spec_extra_field_2() == extra_field_2,
    {
        JourneyMetadataEntry {
            from_stop_id,
            until_stop_id,
            resource_id,
            bit_field_id,
            departure_time,
            arrival_time,
            extra_field_1,
            extra_field_2,
        }
    }

    /// The referenced resource (transport type, attribute, line, ...).
    pub fn resource_id(&self) -> (res: Option<i32>)
        ensures
            res == self.spec_resource_id(),
    {
        self.resource_id
    }

    /// The bit field.
    pub fn bit_field_id(&self) -> (res: Option<i32>)
        ensures
            res == self.spec_bit_field_id(),
    {
        self.bit_field_id
    }

    /// The first free text field.
    pub fn extra_field_1(&self) -> (res: Option<&String>)
        ensures
            opt_text(
                match res {
                    Some(s) => Some(*s),
                    None => None,
                },
            ) == self.extra_field_1_text(),
    {
        self.extra_field_1.as_ref()
    }
}

/// A stop of a journey's route, with its arrival and departure times.
#[derive(Clone, Copy, Debug, PartialEq, Eq, Structural)]
pub struct JourneyRouteEntry {
    stop_id: i32,
    arrival_time: Option<Time>,
    departure_time: Option<Time>,
}

impl JourneyRouteEntry {
    pub closed spec fn spec_stop_id(self) -> i32 {
        self.stop_id
    }

    pub closed spec fn spec_arrival_time(self) -> Option<Time> {
        self.arrival_time
    }

    pub closed spec fn spec_departure_time(self) -> Option<Time> {
        self.departure_time
    }

    /// A route entry.
    pub fn new(stop_id: i32, arrival_time: Option<Time>, departure_time: Option<Time>) -> (res:
        JourneyRouteEntry)
        ensures
            res.spec_stop_id() == stop_id,
            res.spec_arrival_time() == arrival_time,
            res.spec_departure_time() == departure_time,
    {
        JourneyRouteEntry { stop_id, arrival_time, departure_time }
    }

    /// The stop.
    pub fn stop_id(&self) -> (res: i32)
        ensures
            res == self.spec_stop_id(),
    {
        self.stop_id
    }

    /// The arrival time (the first stop has none).
    pub fn arrival_time(&self) -> (res: Option<Time>)
        ensures
            res == self.spec_arrival_time(),
    {
        self.arrival_time
    }

    /// The departure time (the last stop has none).
    pub fn departure_time(&self) -> (res: Option<Time>)
        ensures
            res == self.spec_departure_time(),
    {
        self.departure_time
    }
}

/// The index of the first entry at or after `from` whose stop is `stop_id`,
/// or the length of the route where there is none.
pub open spec fn find_stop(route: Seq<JourneyRouteEntry>, stop_id: i32, from: int) -> int
    decreases route.len() - from,
{
    if from >= route.len() || from < 0 {
        route.len() as int
    } else if route[from].spec_stop_id() == stop_id {
        from
    } else {
        find_stop(route, stop_id, from + 1)
    }
}

proof fn lemma_find_stop_bounds(route: Seq<JourneyRouteEntry>, stop_id: i32, from: int)
    requires
        0 <= from,
    ensures
        from <= find_stop(route, stop_id, from) <= route.len() || (from > route.len()
            && find_stop(route, stop_id, from) == route.len()),
        find_stop(route, stop_id, from) < route.len() ==> route[find_stop(
            route,
            stop_id,
            from,
        )].spec_stop_id() == stop_id,
        forall|k: int|
            from <= k < find_stop(route, stop_id, from) ==> route[k].spec_stop_id() != stop_id,
    decreases route.len() - from,
{
    if from < route.len() && route[from].spec_stop_id() != stop_id {
        lemma_find_stop_bounds(route, stop_id, from + 1);
    }
}

/// Finds `find_stop(route, stop_id, from)`.
fn find_stop_index(route: &Vec<JourneyRouteEntry>, stop_id: i32, from: usize) -> (res: usize)
    requires
        from <= route@.len(),
    ensures
        res == find_stop(route@, stop_id, from as int),
        from <= res <= route@.len(),
{
    let mut i: usize = from;
    while i < route.len()
        invariant
            from <= i <= route@.len(),
            find_stop(route@, stop_id, from as int) == find_stop(route@, stop_id, i as int),
        decreases route@.len() - i,
    {
        if route[i].stop_id == stop_id {
            return i;
        }
        i = i + 1;
    }
    i
}

/// The metadata entries of one kind, in the order they were added.
pub open spec fn entries_of_type(
    entries: Seq<(JourneyMetadataType, JourneyMetadataEntry)>,
    kind: JourneyMetadataType,
) -> Seq<JourneyMetadataEntry>
    decreases entries.len(),
{
    if entries.len() == 0 {
        Seq::empty()
    } else {
        let rest = entries_of_type(entries.drop_last(), kind);
        if entries.last().0 == kind {
            rest.push(entries.last().1)
        } else {
            rest
        }
    }
}

/// A journey of a vehicle through a sequence of stops.
#[derive(Clone, Debug)]
pub struct Journey {
    id: i32,
    legacy_id: i32,
    administration: String,
    metadata: Vec<(JourneyMetadataType, JourneyMetadataEntry)>,
    route: Vec<JourneyRouteEntry>,
}

/// What `departure_time_of` gives for a route.
pub open spec fn departure_time_spec(route: Seq<JourneyRouteEntry>, stop_id: i32) -> Result<
    (Time, bool),
    HrdfError,
> {
    let i = find_stop(route, stop_id, 0);
    if i >= route.len() {
        Err(HrdfError::MissingStopId(stop_id))
    } else if route[i].spec_departure_time() is None {
        Err(HrdfError::MissingDepartureTime(i as usize))
    } else if route[0].spec_departure_time() is None {
        Err(HrdfError::MissingDepartureTime(0))
    } else {
        let t = route[i].spec_departure_time().unwrap();
        Ok((t, t.minute_of_day() < route[0].spec_departure_time().unwrap().minute_of_day()))
    }
}

/// What `arrival_time_of` gives for a route: the first entry has no arrival
/// and is skipped.
pub open spec fn arrival_time_spec(route: Seq<JourneyRouteEntry>, stop_id: i32) -> Result<
    (Time, bool),
    HrdfError,
> {
    let i = find_stop(route, stop_id, 1);
    if i >= route.len() {
        Err(HrdfError::MissingStopId(stop_id))
    } else if route[i].spec_arrival_time() is None {
        Err(HrdfError::MissingArrivalTime(i as usize))
    } else if route[0].spec_departure_time() is None {
        Err(HrdfError::MissingDepartureTime(0))
    } else {
        let t = route[i].spec_arrival_time().unwrap();
        Ok((t, t.minute_of_day() < route[0].spec_departure_time().unwrap().minute_of_day()))
    }
}

/// The stop ids of a part of a route.
pub open spec fn stop_ids(route: Seq<JourneyRouteEntry>) -> Seq<i32> {
    route.map_values(|e: JourneyRouteEntry| e.spec_stop_id())
}

/// The entries of route `r` after the first visit of `departure_stop_id`
/// up to the next visit of `arrival_stop_id` (to the end where it does not
/// come again; none where the departure stop is not on the route).
pub open spec fn section_entries(r: Seq<JourneyRouteEntry>, departure_stop_id: i32, arrival_stop_id: i32) -> Seq<
    JourneyRouteEntry,
> {
    let i = find_stop(r, departure_stop_id, 0);
    let j = find_stop(r, arrival_stop_id, i + 1);
    if i >= r.len() {
        Seq::<JourneyRouteEntry>::empty()
    } else if j >= r.len() {
        r.subrange(i + 1, r.len() as int)
    } else {
        r.subrange(i + 1, j + 1)
    }
}

impl Journey {
    pub closed spec fn spec_id(self) -> i32 {
        self.id
    }

    pub closed spec fn spec_legacy_id(self) -> i32 {
        self.legacy_id
    }

    pub closed spec fn administration_text(self) -> Seq<char> {
        self.administration@
    }

    pub closed spec fn route_view(self) -> Seq<JourneyRouteEntry> {
        self.route@
    }

    pub closed spec fn metadata_view(self) -> Seq<(JourneyMetadataType, JourneyMetadataEntry)> {
        self.metadata@
    }

    /// The metadata entries of one kind, oldest first.
    pub open spec fn metadata_of(self, kind: JourneyMetadataType) -> Seq<JourneyMetadataEntry> {
        entries_of_type(self.metadata_view(), kind)
    }

    /// The hash of the set of stops from the first `departure_stop_id` to the
    /// end of the route; `None` where the stop is not on the route.
    pub open spec fn route_hash_of(self, departure_stop_id: i32) -> Option<u64> {
        let i = find_stop(self.route_view(), departure_stop_id, 0);
        if i >= self.route_view().len() {
            None
        } else {
            Some(stops_hash(stop_ids(self.route_view().subrange(i, self.route_view().len() as int)).to_set()))
        }
    }

    /// A journey without metadata and without route.
    pub fn new(id: i32, legacy_id: i32, administration: String) -> (res: Journey)
        ensures
            res.spec_id() == id,
            res.spec_legacy_id() == legacy_id,
            res.administration_text() == administration@,
            res.route_view() == Seq::<JourneyRouteEntry>::empty(),
            res.metadata_view().len() == 0,
    {
        Journey { id, legacy_id, administration, metadata: Vec::new(), route: Vec::new() }
    }

    /// The id.
    pub fn id(&self) -> (res: i32)
        ensures
            res == self.spec_id(),
    {
        self.id
    }

    /// The administration.
    pub fn administration(&self) -> (res: &str)
        ensures
            res@ == self.administration_text(),
    {
        self.administration.as_str()
    }

    /// The legacy number.
    pub fn legacy_id(&self) -> (res: i32)
        ensures
            res == self.spec_legacy_id(),
    {
        self.legacy_id
    }

    /// The route.
    pub fn route(&self) -> (res: &Vec<JourneyRouteEntry>)
        ensures
            res@ == self.route_view(),
    {
        &self.route
    }

    /// All metadata entries with their kinds, oldest first.
    pub fn metadata(&self) -> (res: &Vec<(JourneyMetadataType, JourneyMetadataEntry)>)
        ensures
            res@ == self.metadata_view(),
    {
        &self.metadata
    }

    /// Adds a metadata entry of kind `kind`.
    pub fn add_metadata_entry(&mut self, kind: JourneyMetadataType, entry: JourneyMetadataEntry)
        ensures
            final(self).metadata_view() == old(self).metadata_view().push((kind, entry)),
            final(self).route_view() == old(self).route_view(),
            final(self).spec_id() == old(self).spec_id(),
            final(self).spec_legacy_id() == old(self).spec_legacy_id(),
            final(self).administration_text() == old(self).administration_text(),
    {
        self.metadata.push((kind, entry));
    }

    /// Appends a stop to the route.
    pub fn add_route_entry(&mut self, entry: JourneyRouteEntry)
        ensures
            final(self).route_view() == old(self).route_view().push(entry),
            final(self).metadata_view() == old(self).metadata_view(),
            final(self).spec_id() == old(self).spec_id(),
            final(self).spec_legacy_id() == old(self).spec_legacy_id(),
            final(self).administration_text() == old(self).administration_text(),
    {
        self.route.push(entry);
    }

    /// Replaces the route.
    pub fn set_route(&mut self, route: Vec<JourneyRouteEntry>)
        ensures
            final(self).route_view() == route@,
            final(self).metadata_view() == old(self).metadata_view(),
            final(self).spec_id() == old(self).spec_id(),
            final(self).spec_legacy_id() == old(self).spec_legacy_id(),
            final(self).administration_text() == old(self).administration_text(),
    {
        self.route = route;
    }

    /// The journey without the stops of its route that are in `removed`;
    /// everything else is kept.
    pub fn filter_route(self, removed: &FxHashSet<i32>) -> (res: Journey)
        ensures
            res.route_view() == self.route_view().filter(
                |e: JourneyRouteEntry| !removed@.contains(e.spec_stop_id()),
            ),
            res.metadata_view() == self.metadata_view(),
            res.spec_id() == self.spec_id(),
            res.spec_legacy_id() == self.spec_legacy_id(),
            res.administration_text() == self.administration_text(),
    {
        let ghost keep = |e: JourneyRouteEntry| !removed@.contains(e.spec_stop_id());
        let mut route: Vec<JourneyRouteEntry> = Vec::new();
        let mut i: usize = 0;
        while i < self.route.len()
            invariant
                0 <= i <= self.route@.len(),
                keep == (|e: JourneyRouteEntry| !removed@.contains(e.spec_stop_id())),
                route@ == self.route@.subrange(0, i as int).filter(keep),
            decreases self.route@.len() - i,
        {
            let e = self.route[i];
            proof {
                let ii = i as int;
                assert(self.route@.subrange(0, ii + 1).drop_last() =~= self.route@.subrange(0, ii));
                self.route@.subrange(0, ii).lemma_filter_push(e, keep);
                assert(self.route@.subrange(0, ii).push(e) =~= self.route@.subrange(0, ii + 1));
            }
            if !fx_set_contains(removed, e.stop_id()) {
                route.push(e);
            }
            i = i + 1;
        }
        assert(self.route@.subrange(0, self.route@.len() as int) =~= self.route@);
        let mut res = self;
        res.route = route;
        res
    }

    /// The metadata entries of one kind, oldest first.
    pub fn entries_of(&self, kind: JourneyMetadataType) -> (res: Vec<&JourneyMetadataEntry>)
        ensures
            res@.len() == self.metadata_of(kind).len(),
            forall|i: int| 0 <= i < res@.len() ==> *res@[i] == self.metadata_of(kind)[i],
    {
        let ghost md = self.metadata@;
        let mut res: Vec<&JourneyMetadataEntry> = Vec::new();
        let mut i: usize = 0;
        while i < self.metadata.len()
            invariant
                0 <= i <= md.len(),
                md == self.metadata@,
                res@.len() == entries_of_type(md.subrange(0, i as int), kind).len(),
                forall|j: int|
                    0 <= j < res@.len() ==> *res@[j] == entries_of_type(md.subrange(0, i as int), kind)[j],
            decreases md.len() - i,
        {
            proof {
                assert(md.subrange(0, i + 1).drop_last() =~= md.subrange(0, i as int));
            }
            if self.metadata[i].0 == kind {
                res.push(&self.metadata[i].1);
            }
            i = i + 1;
        }
        proof {
            assert(md.subrange(0, i as int) =~= md);
        }
        res
    }

    /// The first metadata entry of a kind.
    fn first_metadata_entry(&self, kind: JourneyMetadataType) -> (res: Option<
        &JourneyMetadataEntry,
    >)
        ensures
            match res {
                Some(e) => self.metadata_of(kind).len() > 0 && *e == self.metadata_of(kind)[0],
                None => self.metadata_of(kind).len() == 0,
            },
    {
        let ghost md = self.metadata@;
        let mut i: usize = 0;
        while i < self.metadata.len()
            invariant
                0 <= i <= md.len(),
                md == self.metadata@,
                entries_of_type(md.subrange(0, i as int), kind).len() == 0,
            decreases md.len() - i,
        {
            proof {
                assert(md.subrange(0, i + 1).drop_last() =~= md.subrange(0, i as int));
            }
            if self.metadata[i].0 == kind {
                proof {
                    lemma_entries_of_type_prefix(md, kind, i + 1);
                }
                return Some(&self.metadata[i].1);
            }
            i = i + 1;
        }
        proof {
            assert(md.subrange(0, i as int) =~= md);
        }
        None
    }

    /// The bit field of the journey (`Ok(None)`: it operates every day).
    pub fn bit_field_id(&self) -> (res: Result<Option<i32>, JourneyError>)
        ensures
            res == (if self.metadata_of(JourneyMetadataType::BitField).len() == 0 {
                Err(JourneyError::MissingBitFieldMetadata)
            } else {
                Ok(self.metadata_of(JourneyMetadataType::BitField)[0].spec_bit_field_id())
            }),
    {
        match self.first_metadata_entry(JourneyMetadataType::BitField) {
            Some(e) => Ok(e.bit_field_id),
            None => Err(JourneyError::MissingBitFieldMetadata),
        }
    }

    /// The transport type named by the first transport type entry.
    pub open spec fn transport_type_of(self) -> HResult<i32> {
        if self.metadata_of(JourneyMetadataType::TransportType).len() == 0 {
            Err(HrdfError::Journey(JourneyError::MissingTransportType))
        } else {
            match self.metadata_of(JourneyMetadataType::TransportType)[0].spec_resource_id() {
                Some(id) => Ok(id),
                None => Err(HrdfError::Journey(JourneyError::MissingRessourceId)),
            }
        }
    }

    /// The transport type of the journey.
    pub fn transport_type_id(&self) -> (res: HResult<i32>)
        ensures
            res == self.transport_type_of(),
    {
        match self.first_metadata_entry(JourneyMetadataType::TransportType) {
            Some(e) => match e.resource_id {
                Some(id) => Ok(id),
                None => Err(HrdfError::Journey(JourneyError::MissingRessourceId)),
            },
            None => Err(HrdfError::Journey(JourneyError::MissingTransportType)),
        }
    }

    /// The first stop of the route.
    pub fn first_stop_id(&self) -> (res: HResult<i32>)
        ensures
            res == (if self.route_view().len() == 0 {
                Err(HrdfError::Journey(JourneyError::EmptyRoute))
            } else {
                Ok(self.route_view()[0].spec_stop_id())
            }),
    {
        if self.route.len() == 0 {
            Err(HrdfError::Journey(JourneyError::EmptyRoute))
        } else {
            Ok(self.route[0].stop_id)
        }
    }

    /// The last stop of the route.
    pub fn last_stop_id(&self) -> (res: HResult<i32>)
        ensures
            res == (if self.route_view().len() == 0 {
                Err(HrdfError::Journey(JourneyError::EmptyRoute))
            } else {
                Ok(self.route_view().last().spec_stop_id())
            }),
    {
        if self.route.len() == 0 {
            Err(HrdfError::Journey(JourneyError::EmptyRoute))
        } else {
            Ok(self.route[self.route.len() - 1].stop_id)
        }
    }

    /// Whether the route starts and ends at the same stop.
    pub open spec fn is_loop(self) -> bool {
        self.route_view().len() > 0 && self.route_view()[0].spec_stop_id()
            == self.route_view().last().spec_stop_id()
    }

    /// Whether `stop_id` is the first stop; with `ignore_loop`, a route that
    /// ends where it starts has no first stop.
    pub fn is_first_stop(&self, stop_id: i32, ignore_loop: bool) -> (res: HResult<bool>)
        ensures
            res == (if self.route_view().len() == 0 {
                Err(HrdfError::Journey(JourneyError::EmptyRoute))
            } else if ignore_loop && self.is_loop() {
                Ok(false)
            } else {
                Ok(stop_id == self.route_view()[0].spec_stop_id())
            }),
    {
        let first = self.first_stop_id()?;
        if ignore_loop && first == self.last_stop_id()? {
            Ok(false)
        } else {
            Ok(stop_id == first)
        }
    }

    /// Whether `stop_id` is the last stop; with `ignore_loop`, a route that
    /// ends where it starts has no last stop.
    pub fn is_last_stop(&self, stop_id: i32, ignore_loop: bool) -> (res: HResult<bool>)
        ensures
            res == (if self.route_view().len() == 0 {
                Err(HrdfError::Journey(JourneyError::EmptyRoute))
            } else if ignore_loop && self.is_loop() {
                Ok(false)
            } else {
                Ok(stop_id == self.route_view().last().spec_stop_id())
            }),
    {
        let first = self.first_stop_id()?;
        let last = self.last_stop_id()?;
        if ignore_loop && first == last {
            Ok(false)
        } else {
            Ok(stop_id == last)
        }
    }

    /// The number of stops from the first `departure_stop_id` up to the next
    /// `arrival_stop_id`, counting one of the two ends.
    pub fn count_stops(&self, departure_stop_id: i32, arrival_stop_id: i32) -> (res: usize)
        requires
            self.route_view().len() < usize::MAX,
        ensures
            res == find_stop(
                self.route_view(),
                arrival_stop_id,
                find_stop(self.route_view(), departure_stop_id, 0),
            ) - find_stop(self.route_view(), departure_stop_id, 0) + 1,
    {
        let i: usize = find_stop_index(&self.route, departure_stop_id, 0);
        let j: usize = find_stop_index(&self.route, arrival_stop_id, i);
        j - i + 1
    }

    /// Hash of the set of stops from the first `departure_stop_id` to the end
    /// of the route; `None` where the stop is not on the route.
    pub fn hash_route(&self, departure_stop_id: i32) -> (res: Option<u64>)
        ensures
            res == self.route_hash_of(departure_stop_id),
    {
        let i: usize = find_stop_index(&self.route, departure_stop_id, 0);
        if i >= self.route.len() {
            return None;
        }
        let mut ids: Vec<i32> = Vec::new();
        let mut k: usize = i;
        while k < self.route.len()
            invariant
                i <= k <= self.route@.len(),
                ids@ == stop_ids(self.route@.subrange(i as int, k as int)),
            decreases self.route@.len() - k,
        {
            ids.push(self.route[k].stop_id);
            proof {
                assert(stop_ids(self.route@.subrange(i as int, k + 1)) =~= stop_ids(
                    self.route@.subrange(i as int, k as int),
                ).push(self.route@[k as int].spec_stop_id()));
            }
            k = k + 1;
        }
        Some(hash_stop_ids(&ids))
    }

    /// The route entries after the first `departure_stop_id`, up to and
    /// including the next `arrival_stop_id` (or to the end).
    pub fn route_section(&self, departure_stop_id: i32, arrival_stop_id: i32) -> (res: Vec<
        JourneyRouteEntry,
    >)
        ensures
            res@ == section_entries(self.route_view(), departure_stop_id, arrival_stop_id),
    {
        let mut result: Vec<JourneyRouteEntry> = Vec::new();
        let i: usize = find_stop_index(&self.route, departure_stop_id, 0);
        if i >= self.route.len() {
            return result;
        }
        let j: usize = find_stop_index(&self.route, arrival_stop_id, i + 1);
        let end: usize = if j >= self.route.len() {
            self.route.len()
        } else {
            j + 1
        };
        let mut k: usize = i + 1;
        while k < end
            invariant
                i + 1 <= k <= end <= self.route@.len(),
                result@ == self.route@.subrange(i + 1, k as int),
            decreases end - k,
        {
            result.push(self.route[k]);
            proof {
                assert(self.route@.subrange(i + 1, k + 1) =~= self.route@.subrange(
                    i + 1,
                    k as int,
                ).push(self.route@[k as int]));
            }
            k = k + 1;
        }
        result
    }

    /// The departure time at `stop_id` (its first occurrence), and whether it
    /// falls on the day after the journey's first departure.
    pub fn departure_time_of(&self, stop_id: i32) -> (res: HResult<(Time, bool)>)
        ensures
            res == departure_time_spec(self.route_view(), stop_id),
    {
        let i: usize = find_stop_index(&self.route, stop_id, 0);
        if i >= self.route.len() {
            return Err(HrdfError::MissingStopId(stop_id));
        }
        let t = match self.route[i].departure_time {
            Some(t) => t,
            None => {
                return Err(HrdfError::MissingDepartureTime(i));
            },
        };
        let first = match self.route[0].departure_time {
            Some(t) => t,
            None => {
                return Err(HrdfError::MissingDepartureTime(0));
            },
        };
        Ok((t, t.is_before(&first)))
    }

    /// The arrival time at `stop_id` (its first occurrence after the first
    /// entry), and whether it falls on the day after the first departure.
    pub fn arrival_time_of(&self, stop_id: i32) -> (res: HResult<(Time, bool)>)
        ensures
            res == arrival_time_spec(self.route_view(), stop_id),
    {
        if self.route.len() == 0 {
            return Err(HrdfError::MissingStopId(stop_id));
        }
        let i: usize = find_stop_index(&self.route, stop_id, 1);
        if i >= self.route.len() {
            return Err(HrdfError::MissingStopId(stop_id));
        }
        let t = match self.route[i].arrival_time {
            Some(t) => t,
            None => {
                return Err(HrdfError::MissingArrivalTime(i));
            },
        };
        let first = match self.route[0].departure_time {
            Some(t) => t,
            None => {
                return Err(HrdfError::MissingDepartureTime(0));
            },
        };
        Ok((t, t.is_before(&first)))
    }
}

impl Model for Journey {
    type K = i32;

    open spec fn model_id(&self) -> i32 {
        self.spec_id()
    }

    fn id(&self) -> (res: i32) {
        self.id
    }
}

/// The day offset of an instant relative to the date of an origin: one day
/// later where only the instant is past midnight, one day earlier where only
/// the origin is.
pub open spec fn day_shift(is_next_day: bool, origin_is_next_day: bool) -> int {
    if is_next_day && !origin_is_next_day {
        1
    } else if !is_next_day && origin_is_next_day {
        -1
    } else {
        0
    }
}

/// What `departure_time_of` or `arrival_time_of` gives for the origin stop.
pub open spec fn origin_time_spec(
    route: Seq<JourneyRouteEntry>,
    is_departure_date: bool,
    origin_stop_id: i32,
) -> Result<(Time, bool), HrdfError> {
    if is_departure_date {
        departure_time_spec(route, origin_stop_id)
    } else {
        arrival_time_spec(route, origin_stop_id)
    }
}

/// What `arrival_at_of_with_origin` may give for a route: the arrival time
/// at `stop_id`, on `date` shifted by the days between the arrival and the
/// origin's time (both counted from the journey's first departure).
pub open spec fn arrival_with_origin(
    route: Seq<JourneyRouteEntry>,
    stop_id: i32,
    date: Date,
    is_departure_date: bool,
    origin_stop_id: i32,
    res: HResult<DateTime>,
) -> bool {
    match arrival_time_spec(route, stop_id) {
        Err(e) => res == Err::<DateTime, HrdfError>(e),
        Ok((t, next)) => match origin_time_spec(route, is_departure_date, origin_stop_id) {
            Err(e) => res == Err::<DateTime, HrdfError>(e),
            Ok((_, origin_next)) => shifted_result(res, date, t, day_shift(next, origin_next)),
        },
    }
}

/// Whether the day `shift` days from `date` can be reached: no shift, or
/// both days lie in the calendar's range.
pub open spec fn shift_reachable(date: Date, shift: int) -> bool {
    shift == 0 || (in_calendar_range(date.day_number()) && in_calendar_range(
        date.day_number() + shift,
    ))
}

/// `res` is the time `t` on the day `shift` days from `date`, or, exactly
/// when that day leaves the calendar, the error of the shift.
pub open spec fn shifted_result(res: HResult<DateTime>, date: Date, t: Time, shift: int) -> bool {
    &&& (res is Ok <==> shift_reachable(date, shift))
    &&& match res {
        Ok(dt) => dt.time_part() == t && dt.date_part().day_number() == date.day_number() + shift,
        Err(e) => (shift == 1 && e == HrdfError::FailedToAddDays(date, 1)) || (shift == -1 && e
            == HrdfError::FailedToSubDays(date, 1)),
    }
}

/// The date and time `t` on the day `shift` days from `date`.
fn shifted(date: Date, t: Time, shift: i32) -> (res: HResult<DateTime>)
    requires
        -1 <= shift <= 1,
    ensures
        shifted_result(res, date, t, shift as int),
{
    if shift == 1 {
        let d = add_1_day(date)?;
        Ok(DateTime::new(d, t))
    } else if shift == -1 {
        let d = sub_1_day(date)?;
        Ok(DateTime::new(d, t))
    } else {
        Ok(DateTime::new(date, t))
    }
}

fn day_shift_exec(is_next_day: bool, origin_is_next_day: bool) -> (res: i32)
    ensures
        res == day_shift(is_next_day, origin_is_next_day),
{
    if is_next_day && !origin_is_next_day {
        1
    } else if !is_next_day && origin_is_next_day {
        -1
    } else {
        0
    }
}

impl Journey {
    /// The departure at `stop_id` when the journey's first departure is on
    /// `date`.
    pub fn departure_at_of(&self, stop_id: i32, date: Date) -> (res: HResult<DateTime>)
        ensures
            match departure_time_spec(self.route_view(), stop_id) {
                Err(e) => res == Err::<DateTime, HrdfError>(e),
                Ok((t, next)) => shifted_result(res, date, t, if next { 1 } else { 0 }),
            },
    {
        let (t, next) = self.departure_time_of(stop_id)?;
        shifted(date, t, if next { 1 } else { 0 })
    }

    /// The arrival at `stop_id` when the journey's first departure is on
    /// `date`.
    pub fn arrival_at_of(&self, stop_id: i32, date: Date) -> (res: HResult<DateTime>)
        ensures
            match arrival_time_spec(self.route_view(), stop_id) {
                Err(e) => res == Err::<DateTime, HrdfError>(e),
                Ok((t, next)) => shifted_result(res, date, t, if next { 1 } else { 0 }),
            },
    {
        let (t, next) = self.arrival_time_of(stop_id)?;
        shifted(date, t, if next { 1 } else { 0 })
    }

    /// The departure at `stop_id` when `date` is the date of the departure
    /// (`is_departure_date`) or of the arrival at `origin_stop_id`.
    pub fn departure_at_of_with_origin(
        &self,
        stop_id: i32,
        date: Date,
        is_departure_date: bool,
        origin_stop_id: i32,
    ) -> (res: HResult<DateTime>)
        ensures
            match departure_time_spec(self.route_view(), stop_id) {
                Err(e) => res == Err::<DateTime, HrdfError>(e),
                Ok((t, next)) => match origin_time_spec(
                    self.route_view(),
                    is_departure_date,
                    origin_stop_id,
                ) {
                    Err(e) => res == Err::<DateTime, HrdfError>(e),
                    Ok((_, origin_next)) => shifted_result(
                        res,
                        date,
                        t,
                        day_shift(next, origin_next),
                    ),
                },
            },
    {
        let (t, next) = self.departure_time_of(stop_id)?;
        let (_, origin_next) = if is_departure_date {
            self.departure_time_of(origin_stop_id)?
        } else {
            self.arrival_time_of(origin_stop_id)?
        };
        shifted(date, t, day_shift_exec(next, origin_next))
    }

    /// The arrival at `stop_id` when `date` is the date of the departure
    /// (`is_departure_date`) or of the arrival at `origin_stop_id`.
    pub fn arrival_at_of_with_origin(
        &self,
        stop_id: i32,
        date: Date,
        is_departure_date: bool,
        origin_stop_id: i32,
    ) -> (res: HResult<DateTime>)
        ensures
            arrival_with_origin(self.route_view(), stop_id, date, is_departure_date, origin_stop_id, res),
    {
        let (t, next) = self.arrival_time_of(stop_id)?;
        let (_, origin_next) = if is_departure_date {
            self.departure_time_of(origin_stop_id)?
        } else {
            self.arrival_time_of(origin_stop_id)?
        };
        shifted(date, t, day_shift_exec(next, origin_next))
    }
}

proof fn lemma_entries_of_type_prefix(
    md: Seq<(JourneyMetadataType, JourneyMetadataEntry)>,
    kind: JourneyMetadataType,
    n: int,
)
    requires
        0 < n <= md.len(),
        md[n - 1].0 == kind,
        entries_of_type(md.subrange(0, n - 1), kind).len() == 0,
    ensures
        entries_of_type(md, kind).len() > 0,
        entries_of_type(md, kind)[0] == md[n - 1].1,
    decreases md.len() - n,
{
    if n < md.len() {
        assert(md.drop_last().subrange(0, n - 1) =~= md.subrange(0, n - 1));
        lemma_entries_of_type_prefix(md.drop_last(), kind, n);
    } else {
        assert(md.drop_last() =~= md.subrange(0, n - 1));
    }
}

} // verus!
