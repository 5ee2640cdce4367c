//! The hash maps and sets of `rustc_hash` that the storage keeps its data in.
//!
//! Each function here makes one call into `rustc_hash`'s `FxHashMap` /
//! `FxHashSet` (which are std's `HashMap` / `HashSet` with the Fx hash
//! builder) and states what std documents for that operation, over the map's
//! view. The keys are integers or pairs of integers, whose `Eq` and `Hash`
//! std implements structurally.
use rustc_hash::{FxBuildHasher, FxHashMap, FxHashSet};
use std::hash::Hash;
use vstd::prelude::*;

verus! {

#[verifier::external_type_specification]
#[verifier::external_body]
pub struct ExFxBuildHasher(FxBuildHasher);

/// Key types whose equality is the equality of their values: integers, pairs
/// of integers, and dates (a struct of one integer, whose `Eq` and `Hash` are
/// derived field by field).
pub trait PlainKey: Eq + Hash {

}

impl PlainKey for i32 {

}

impl PlainKey for u64 {

}

impl PlainKey for (i32, i32) {

}

impl PlainKey for crate::calendar::Date {

}

/// `FxHashMap::default()`: an empty map.
#[verifier::external_body]
pub(crate) fn fx_map_new<K: PlainKey + Copy, V>() -> (res: FxHashMap<K, V>)
    ensures
        res@ =~= Map::empty(),
{
    FxHashMap::default()
}

/// `HashMap::insert`: afterwards `k` maps to `v`, the other keys are kept.
#[verifier::external_body]
pub(crate) fn fx_map_insert<K: PlainKey + Copy, V>(m: &mut FxHashMap<K, V>, k: K, v: V)
    ensures
        final(m)@ == old(m)@.insert(k, v),
{
    m.insert(k, v);
}

/// `HashMap::get`: the value that `k` maps to, if any.
#[verifier::external_body]
pub(crate) fn fx_map_get<'a, K: PlainKey + Copy, V>(m: &'a FxHashMap<K, V>, k: K) -> (res: Option<&'a V>)
    ensures
        match res {
            Some(v) => m@.contains_key(k) && *v == m@[k],
            None => !m@.contains_key(k),
        },
{
    m.get(&k)
}

/// `HashMap::remove`: takes the value of `k` out of the map.
#[verifier::external_body]
pub(crate) fn fx_map_remove<K: PlainKey + Copy, V>(m: &mut FxHashMap<K, V>, k: K) -> (res: Option<V>)
    ensures
        final(m)@ == old(m)@.remove(k),
        match res {
            Some(v) => old(m)@.contains_key(k) && v == old(m)@[k],
            None => !old(m)@.contains_key(k),
        },
{
    m.remove(&k)
}

/// `HashMap::keys`, collected: every key once, in the map's own order.
#[verifier::external_body]
pub(crate) fn fx_map_keys<K: PlainKey + Copy, V>(m: &FxHashMap<K, V>) -> (res: Vec<K>)
    ensures
        res@.to_set() == m@.dom(),
        res@.no_duplicates(),
{
    m.keys().copied().collect()
}

/// `HashMap::len`: the number of keys.
#[verifier::external_body]
pub(crate) fn fx_map_len<K: PlainKey + Copy, V>(m: &FxHashMap<K, V>) -> (res: usize)
    ensures
        res == m@.dom().len(),
{
    m.len()
}

/// `FxHashSet::default()`: an empty set.
#[verifier::external_body]
pub(crate) fn fx_set_new<K: PlainKey + Copy>() -> (res: FxHashSet<K>)
    ensures
        res@ =~= Set::empty(),
{
    FxHashSet::default()
}

/// `HashSet::insert`: adds `k`.
#[verifier::external_body]
pub(crate) fn fx_set_insert<K: PlainKey + Copy>(s: &mut FxHashSet<K>, k: K)
    ensures
        final(s)@ == old(s)@.insert(k),
{
    s.insert(k);
}

/// `HashSet::contains`.
#[verifier::external_body]
pub(crate) fn fx_set_contains<K: PlainKey + Copy>(s: &FxHashSet<K>, k: K) -> (res: bool)
    ensures
        res == s@.contains(k),
{
    s.contains(&k)
}

/// `HashSet::iter`, collected: every element once, in the set's own order.
#[verifier::external_body]
pub(crate) fn fx_set_elements<K: PlainKey + Copy>(s: &FxHashSet<K>) -> (res: Vec<K>)
    ensures
        res@.to_set() == s@,
        res@.no_duplicates(),
{
    s.iter().copied().collect()
}

} // verus!

verus! {

// Maps whose keys hold strings. `String`'s `Eq` and `Hash` go by the
// characters, so such a map is described by what it holds with each string
// taken by its characters.

/// What a map keyed by (stop, administration 1, administration 2) holds.
pub uninterp spec fn admin_map_contents(m: FxHashMap<(Option<i32>, String, String), i32>) -> Map<
    (Option<i32>, Seq<char>, Seq<char>),
    i32,
>;

/// `FxHashMap::default()` for keys (stop, administration, administration):
/// an empty map.
#[verifier::external_body]
pub(crate) fn admin_map_new() -> (res: FxHashMap<(Option<i32>, String, String), i32>)
    ensures
        admin_map_contents(res) =~= Map::empty(),
{
    FxHashMap::default()
}

/// `HashMap::insert` for keys (stop, administration, administration):
/// afterwards the key maps to `v`, the other keys are kept.
#[verifier::external_body]
pub(crate) fn admin_map_insert(
    m: &mut FxHashMap<(Option<i32>, String, String), i32>,
    k: (Option<i32>, String, String),
    v: i32,
)
    ensures
        admin_map_contents(*final(m)) == admin_map_contents(*old(m)).insert((k.0, k.1@, k.2@), v),
{
    m.insert(k, v);
}

/// What a map keyed by (journey 1, journey 2, stop) holds.
pub uninterp spec fn through_map_contents(
    m: FxHashMap<((i32, String), (i32, String), i32), i32>,
) -> Map<((i32, Seq<char>), (i32, Seq<char>), i32), i32>;

/// `FxHashMap::default()` for keys (journey, journey, stop): an empty map.
#[verifier::external_body]
pub(crate) fn through_map_new() -> (res: FxHashMap<((i32, String), (i32, String), i32), i32>)
    ensures
        through_map_contents(res) =~= Map::empty(),
{
    FxHashMap::default()
}

/// `HashMap::insert` for keys (journey, journey, stop): afterwards the key
/// maps to `v`, the other keys are kept.
#[verifier::external_body]
pub(crate) fn through_map_insert(
    m: &mut FxHashMap<((i32, String), (i32, String), i32), i32>,
    k: ((i32, String), (i32, String), i32),
    v: i32,
)
    ensures
        through_map_contents(*final(m)) == through_map_contents(*old(m)).insert(
            ((k.0.0, k.0.1@), (k.1.0, k.1.1@), k.2),
            v,
        ),
{
    m.insert(k, v);
}

/// What a map keyed by (stop, journey 1, journey 2) holds, each set by its
/// elements.
pub uninterp spec fn journey_pair_map_contents(
    m: FxHashMap<(i32, (i32, String), (i32, String)), FxHashSet<i32>>,
) -> Map<(i32, (i32, Seq<char>), (i32, Seq<char>)), Set<i32>>;

/// `FxHashMap::default()` for keys (stop, journey, journey): an empty map.
#[verifier::external_body]
pub(crate) fn journey_pair_map_new() -> (res: FxHashMap<(i32, (i32, String), (i32, String)), FxHashSet<i32>>)
    ensures
        journey_pair_map_contents(res) =~= Map::empty(),
{
    FxHashMap::default()
}

/// `HashMap::insert` for keys (stop, journey, journey): afterwards the key
/// maps to the elements of `v`, the other keys are kept.
#[verifier::external_body]
pub(crate) fn journey_pair_map_insert(
    m: &mut FxHashMap<(i32, (i32, String), (i32, String)), FxHashSet<i32>>,
    k: (i32, (i32, String), (i32, String)),
    v: FxHashSet<i32>,
)
    ensures
        journey_pair_map_contents(*final(m)) == journey_pair_map_contents(*old(m)).insert(
            (k.0, (k.1.0, k.1.1@), (k.2.0, k.2.1@)),
            v@,
        ),
{
    m.insert(k, v);
}

/// `HashMap::remove` for keys (stop, journey, journey): takes the set of the
/// key out of the map.
#[verifier::external_body]
pub(crate) fn journey_pair_map_remove(
    m: &mut FxHashMap<(i32, (i32, String), (i32, String)), FxHashSet<i32>>,
    k: &(i32, (i32, String), (i32, String)),
) -> (res: Option<FxHashSet<i32>>)
    ensures
        journey_pair_map_contents(*final(m)) == journey_pair_map_contents(*old(m)).remove(
            (k.0, (k.1.0, k.1.1@), (k.2.0, k.2.1@)),
        ),
        match res {
            Some(s) => journey_pair_map_contents(*old(m)).contains_key(
                (k.0, (k.1.0, k.1.1@), (k.2.0, k.2.1@)),
            ) && s@ == journey_pair_map_contents(*old(m))[(k.0, (k.1.0, k.1.1@), (k.2.0, k.2.1@))],
            None => !journey_pair_map_contents(*old(m)).contains_key(
                (k.0, (k.1.0, k.1.1@), (k.2.0, k.2.1@)),
            ),
        },
{
    m.remove(k)
}

} // verus!

verus! {

/// What a map from designations (texts) to ids holds.
pub uninterp spec fn designation_map_contents(m: FxHashMap<String, i32>) -> Map<Seq<char>, i32>;

/// `HashMap::get` for a map keyed by designations: the id of `k`, if any.
#[verifier::external_body]
pub(crate) fn designation_map_get(m: &FxHashMap<String, i32>, k: &String) -> (res: Option<i32>)
    ensures
        match res {
            Some(v) => designation_map_contents(*m).contains_key(k@) && designation_map_contents(*m)[k@]
                == v,
            None => !designation_map_contents(*m).contains_key(k@),
        },
{
    m.get(k).copied()
}

/// `FxHashMap::default()` for a map keyed by designations: an empty map.
#[verifier::external_body]
pub(crate) fn designation_map_new() -> (res: FxHashMap<String, i32>)
    ensures
        designation_map_contents(res) =~= Map::empty(),
{
    FxHashMap::default()
}

/// `HashMap::insert` for a map keyed by designations: afterwards `k` maps to
/// `v`, the other keys are kept.
#[verifier::external_body]
pub(crate) fn designation_map_insert(m: &mut FxHashMap<String, i32>, k: String, v: i32)
    ensures
        designation_map_contents(*final(m)) == designation_map_contents(*old(m)).insert(k@, v),
{
    m.insert(k, v);
}

/// What a map keyed by (legacy id, administration) holds.
pub uninterp spec fn legacy_map_contents(m: FxHashMap<(i32, String), i32>) -> Map<(i32, Seq<char>), i32>;

/// `FxHashMap::default()` for keys (legacy id, administration): an empty
/// map.
#[verifier::external_body]
pub(crate) fn legacy_map_new() -> (res: FxHashMap<(i32, String), i32>)
    ensures
        legacy_map_contents(res) =~= Map::empty(),
{
    FxHashMap::default()
}

/// `HashMap::insert` for keys (legacy id, administration): afterwards the
/// key maps to `v`, the other keys are kept.
#[verifier::external_body]
pub(crate) fn legacy_map_insert(m: &mut FxHashMap<(i32, String), i32>, k: (i32, String), v: i32)
    ensures
        legacy_map_contents(*final(m)) == legacy_map_contents(*old(m)).insert((k.0, k.1@), v),
{
    m.insert(k, v);
}

/// `HashMap::get` for keys (legacy id, administration): the value of `k`,
/// if any.
#[verifier::external_body]
pub(crate) fn legacy_map_get(m: &FxHashMap<(i32, String), i32>, k: &(i32, String)) -> (res: Option<i32>)
    ensures
        match res {
            Some(v) => legacy_map_contents(*m).contains_key((k.0, k.1@)) && legacy_map_contents(*m)[(
                k.0,
                k.1@,
            )] == v,
            None => !legacy_map_contents(*m).contains_key((k.0, k.1@)),
        },
{
    m.get(k).copied()
}

} // verus!
