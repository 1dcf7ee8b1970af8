//! The hash maps of the engine.
//!
//! Entities, cards and triggers are found by their raw identifier, state
//! values by their name. Both kinds of map are `rustc_hash` maps; this file
//! states what the engine relies on when it reads and writes them.

use rustc_hash::FxHashMap;
use vstd::prelude::*;

verus! {

/// `rustc_hash::FxBuildHasher`, the hasher of the engine's maps. Nothing
/// is said of what is inside.
#[verifier::external_type_specification]
#[verifier::external_body]
pub struct ExFxBuildHasher(rustc_hash::FxBuildHasher);

/// A map from raw identifiers.
pub type IdMap<V> = FxHashMap<u32, V>;

/// Named integer values: counters, flags (0 or 1), references to entities.
pub type StateMap = FxHashMap<String, i64>;

/// What a state map holds, by the characters of each name.
pub uninterp spec fn state_entries(map: FxHashMap<String, i64>) -> Map<Seq<char>, i64>;

/// The value stored under `key`; `default` where there is none.
pub open spec fn state_value(entries: Map<Seq<char>, i64>, key: Seq<char>, default: i64) -> i64 {
    if entries.contains_key(key) {
        entries[key]
    } else {
        default
    }
}

/// `FxHashMap::default` with identifier keys: a map that holds nothing.
#[verifier::external_body]
pub(crate) fn id_map_new<V>() -> (map: FxHashMap<u32, V>)
    ensures
        map@ == (Map::<u32, V>::empty()),
{
    FxHashMap::default()
}

/// `HashMap::get` with an identifier key: the value stored under the key.
#[verifier::external_body]
pub(crate) fn id_map_get<'a, V>(map: &'a FxHashMap<u32, V>, key: u32) -> (value: Option<&'a V>)
    ensures
        value == (if map@.contains_key(key) {
            Some(&map@[key])
        } else {
            None
        }),
{
    map.get(&key)
}

/// `HashMap::get_mut` with an identifier key: the value stored under the
/// key, to change in place. Nothing else in the map changes.
#[verifier::external_body]
pub(crate) fn id_map_get_mut<'a, V>(map: &'a mut FxHashMap<u32, V>, key: u32) -> (value: Option<
    &'a mut V,
>)
    ensures
        value is Some == old(map)@.contains_key(key),
        value matches Some(slot) ==> *slot == old(map)@[key] && final(map)@ == old(map)@.insert(
            key,
            *final(slot),
        ),
        value is None ==> final(map)@ == old(map)@,
{
    map.get_mut(&key)
}

/// `HashMap::insert` with an identifier key: the key now maps to the value,
/// and what it mapped to before comes back.
#[verifier::external_body]
pub(crate) fn id_map_insert<V>(map: &mut FxHashMap<u32, V>, key: u32, value: V) -> (previous:
    Option<V>)
    ensures
        final(map)@ == old(map)@.insert(key, value),
        previous == (if old(map)@.contains_key(key) {
            Some(old(map)@[key])
        } else {
            None
        }),
{
    map.insert(key, value)
}

/// `HashMap::remove` with an identifier key: the key maps to nothing, and
/// what it mapped to comes back.
#[verifier::external_body]
pub(crate) fn id_map_remove<V>(map: &mut FxHashMap<u32, V>, key: u32) -> (removed: Option<V>)
    ensures
        final(map)@ == old(map)@.remove(key),
        removed == (if old(map)@.contains_key(key) {
            Some(old(map)@[key])
        } else {
            None
        }),
{
    map.remove(&key)
}

/// `HashMap::len` with identifier keys: the number of keys.
#[verifier::external_body]
pub(crate) fn id_map_len<V>(map: &FxHashMap<u32, V>) -> (count: usize)
    ensures
        count == map@.len(),
{
    map.len()
}

/// `HashMap::keys` with identifier keys, collected: every key once, in an
/// order that nothing is said about.
#[verifier::external_body]
pub(crate) fn id_map_keys<V>(map: &FxHashMap<u32, V>) -> (keys: Vec<u32>)
    ensures
        keys@.no_duplicates(),
        forall|key: u32| #[trigger] keys@.contains(key) <==> map@.contains_key(key),
{
    map.keys().copied().collect()
}

/// `HashMap::clone` with identifier keys: the same keys, each with a clone
/// of its value.
#[verifier::external_body]
pub(crate) fn id_map_clone<V: Clone>(map: &FxHashMap<u32, V>) -> (copy: FxHashMap<u32, V>)
    ensures
        copy@.dom() == map@.dom(),
        forall|key: u32| map@.contains_key(key) ==> cloned(map@[key], #[trigger] copy@[key]),
{
    map.clone()
}

/// `FxHashMap::default` with name keys: a map that holds nothing.
#[verifier::external_body]
pub(crate) fn state_map_new() -> (map: FxHashMap<String, i64>)
    ensures
        state_entries(map) == (Map::<Seq<char>, i64>::empty()),
{
    FxHashMap::default()
}

/// `HashMap::get` with a name: the value stored under the name.
#[verifier::external_body]
pub(crate) fn state_map_get(map: &FxHashMap<String, i64>, key: &str) -> (value: Option<i64>)
    ensures
        value == (if state_entries(*map).contains_key(key@) {
            Some(state_entries(*map)[key@])
        } else {
            None
        }),
{
    map.get(key).copied()
}

/// `HashMap::insert` with a name: the name now maps to the value.
#[verifier::external_body]
pub(crate) fn state_map_insert(map: &mut FxHashMap<String, i64>, key: String, value: i64)
    ensures
        state_entries(*final(map)) == state_entries(*old(map)).insert(key@, value),
{
    map.insert(key, value);
}

/// `HashMap::remove` with a name: the name maps to nothing.
#[verifier::external_body]
pub(crate) fn state_map_remove(map: &mut FxHashMap<String, i64>, key: &str)
    ensures
        state_entries(*final(map)) == state_entries(*old(map)).remove(key@),
{
    map.remove(key);
}

/// `HashMap::clear` with name keys: the map holds nothing.
#[verifier::external_body]
pub(crate) fn state_map_clear(map: &mut FxHashMap<String, i64>)
    ensures
        state_entries(*final(map)) == (Map::<Seq<char>, i64>::empty()),
{
    map.clear();
}

/// `HashMap::clone` with name keys: a map that holds the same.
#[verifier::external_body]
pub(crate) fn state_map_clone(map: &FxHashMap<String, i64>) -> (copy: FxHashMap<String, i64>)
    ensures
        state_entries(copy) == state_entries(*map),
{
    map.clone()
}

} // verus!
