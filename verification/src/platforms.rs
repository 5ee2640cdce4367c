//! The stops of journeys at platforms (the rows of the GLEIS file that tie
//! a stop of a journey to a platform), and their index by journey and stop.
use crate::fxmap::{fx_map_insert, fx_map_new, fx_map_remove};
use rustc_hash::FxHashMap;
use std::rc::Rc;
use vstd::prelude::*;

verus! {

/// A stop of a journey at a platform.
pub struct JourneyStop {
    pub stop_id: i32,
    pub journey_id: i32,
    pub administration: String,
    pub platform_index: i32,
}

impl JourneyStop {
    /// The stop `stop_id` of journey `journey_id` (of the administration) at
    /// the platform with index `platform_index`.
    pub fn new(stop_id: i32, journey_id: i32, administration: String, platform_index: i32) -> (res: JourneyStop)
        ensures
            res.stop_id == stop_id,
            res.journey_id == journey_id,
            res.administration@ == administration@,
            res.platform_index == platform_index,
    {
        JourneyStop { stop_id, journey_id, administration, platform_index }
    }
}

/// Calls `Rc::clone`, which gives another pointer to the same value.
#[verifier::external_body]
fn rc_clone<T>(r: &Rc<T>) -> (res: Rc<T>)
    ensures
        res == *r,
{
    Rc::clone(r)
}

/// The key of a stop of a journey: (journey, stop).
pub open spec fn journey_stop_key(s: Rc<JourneyStop>) -> (i32, i32) {
    ((*s).journey_id, (*s).stop_id)
}

/// The stops of journeys in `items` with the key `k`, in their order.
pub open spec fn with_key(items: Seq<Rc<JourneyStop>>, k: (i32, i32)) -> Seq<Rc<JourneyStop>> {
    items.filter(|s: Rc<JourneyStop>| journey_stop_key(s) == k)
}

/// The stops of journeys at platforms by (journey, stop): each key of some
/// item, with the items of that key in their order.
pub fn create_journey_stop_platforms_index_1(journey_stop_platforms: &Vec<Rc<JourneyStop>>) -> (res:
    FxHashMap<(i32, i32), Vec<Rc<JourneyStop>>>)
    ensures
        forall|k: (i32, i32)|
            #[trigger] res@.contains_key(k) <==> exists|i: int|
                0 <= i < journey_stop_platforms@.len() && journey_stop_key(journey_stop_platforms@[i]) == k,
        forall|k: (i32, i32)|
            #[trigger] res@.contains_key(k) ==> res@[k]@ == with_key(journey_stop_platforms@, k),
{
    let ghost items = journey_stop_platforms@;
    let mut map: FxHashMap<(i32, i32), Vec<Rc<JourneyStop>>> = fx_map_new();
    let mut i: usize = 0;
    assert(items.take(0) =~= Seq::<Rc<JourneyStop>>::empty());
    while i < journey_stop_platforms.len()
        invariant
            0 <= i <= items.len(),
            items == journey_stop_platforms@,
            forall|k: (i32, i32)|
                #[trigger] map@.contains_key(k) <==> exists|j: int| 0 <= j < i && journey_stop_key(items[j]) == k,
            forall|k: (i32, i32)| #[trigger] map@.contains_key(k) ==> map@[k]@ == with_key(items.take(i as int), k),
            forall|k: (i32, i32)|
                !map@.contains_key(k) ==> #[trigger] with_key(items.take(i as int), k) == Seq::<Rc<JourneyStop>>::empty(),
        decreases items.len() - i,
    {
        let item = &journey_stop_platforms[i];
        let key = (item.journey_id, item.stop_id);
        assert(key == journey_stop_key(items[i as int]));
        let ghost before = map@;
        let mut list = match fx_map_remove(&mut map, key) {
            Some(v) => v,
            None => Vec::new(),
        };
        list.push(rc_clone(item));
        fx_map_insert(&mut map, key, list);
        proof {
            let ii = i as int;
            let t1 = items.take(ii + 1);
            assert(t1.drop_last() =~= items.take(ii));
            assert(t1.last() == items[ii]);
            assert forall|k: (i32, i32)| #[trigger] with_key(t1, k) == if journey_stop_key(items[ii]) == k {
                with_key(items.take(ii), k).push(items[ii])
            } else {
                with_key(items.take(ii), k)
            } by {
                reveal(Seq::filter);
                assert(with_key(t1, k) == t1.filter(|s: Rc<JourneyStop>| journey_stop_key(s) == k));
            }
            assert forall|k: (i32, i32)| #[trigger] map@.contains_key(k) implies map@[k]@ == with_key(t1, k) by {
                if k == key {
                    if before.contains_key(k) {
                        assert(before[k]@ == with_key(items.take(ii), k));
                    } else {
                        assert(with_key(items.take(ii), k) == Seq::<Rc<JourneyStop>>::empty());
                    }
                    assert(map@[k]@ =~= with_key(items.take(ii), k).push(items[ii]));
                } else {
                    assert(before.contains_key(k));
                }
            }
            assert forall|k: (i32, i32)| !map@.contains_key(k) implies #[trigger] with_key(t1, k)
                == Seq::<Rc<JourneyStop>>::empty() by {
                assert(!before.contains_key(k));
                assert(k != key);
            }
            assert forall|k: (i32, i32)| #[trigger] map@.contains_key(k) <==> exists|j: int|
                0 <= j < ii + 1 && journey_stop_key(items[j]) == k by {
                if map@.contains_key(k) && k != key {
                    assert(before.contains_key(k));
                }
                if exists|j: int| 0 <= j < ii + 1 && journey_stop_key(items[j]) == k {
                    if k != key {
                        let j = choose|j: int| 0 <= j < ii + 1 && journey_stop_key(items[j]) == k;
                        assert(j < ii);
                        assert(before.contains_key(k));
                    }
                }
            }
        }
        i = i + 1;
    }
    assert(items.take(items.len() as int) =~= items);
    map
}

} // verus!
