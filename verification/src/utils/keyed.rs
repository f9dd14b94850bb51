//! Sets and maps of hexes, kept in the hash tables of `hashbrown` under the
//! number that the mesh gives each hex.

use vstd::prelude::*;

verus! {

/// A set of keys, kept in a `hashbrown::HashSet`.
#[verifier::external_body]
pub struct KeySet {
    keys: hashbrown::HashSet<u64>,
}

/// A map from keys to numbers, kept in a `hashbrown::HashMap`.
#[verifier::external_body]
pub struct KeyMap {
    entries: hashbrown::HashMap<u64, u64>,
}

/// The keys that a set holds.
pub uninterp spec fn key_set_view(s: KeySet) -> Set<u64>;

/// The entries that a map holds.
pub uninterp spec fn key_map_view(m: KeyMap) -> Map<u64, u64>;

/// Calls `hashbrown::HashSet::new`, which makes an empty set.
#[verifier::external_body]
pub(crate) fn key_set_new() -> (s: KeySet)
    ensures
        key_set_view(s) == Set::<u64>::empty(),
{
    KeySet { keys: hashbrown::HashSet::new() }
}

/// Calls `hashbrown::HashSet::insert`, which adds the key and says whether
/// it was new.
#[verifier::external_body]
pub(crate) fn key_set_insert(s: &mut KeySet, key: u64) -> (fresh: bool)
    ensures
        key_set_view(*final(s)) == key_set_view(*old(s)).insert(key),
        fresh == !key_set_view(*old(s)).contains(key),
{
    s.keys.insert(key)
}

/// Calls `hashbrown::HashSet::contains`, which says whether the set holds
/// the key.
#[verifier::external_body]
pub(crate) fn key_set_contains(s: &KeySet, key: u64) -> (found: bool)
    ensures
        found == key_set_view(*s).contains(key),
{
    s.keys.contains(&key)
}

/// Calls `hashbrown::HashMap::new`, which makes an empty map.
#[verifier::external_body]
pub(crate) fn key_map_new() -> (m: KeyMap)
    ensures
        key_map_view(m) == (Map::<u64, u64>::empty()),
{
    KeyMap { entries: hashbrown::HashMap::new() }
}

/// Calls `hashbrown::HashMap::insert`, which binds the key to the value and
/// returns the value that the key was bound to before, if any.
#[verifier::external_body]
pub(crate) fn key_map_insert(m: &mut KeyMap, key: u64, value: u64) -> (before: Option<u64>)
    ensures
        key_map_view(*final(m)) == key_map_view(*old(m)).insert(key, value),
        before == (if key_map_view(*old(m)).dom().contains(key) {
            Some(key_map_view(*old(m))[key])
        } else {
            None
        }),
{
    m.entries.insert(key, value)
}

/// Calls `hashbrown::HashMap::get`, which returns the value that the key is
/// bound to, if any.
#[verifier::external_body]
pub(crate) fn key_map_get(m: &KeyMap, key: u64) -> (value: Option<u64>)
    ensures
        value == (if key_map_view(*m).dom().contains(key) {
            Some(key_map_view(*m)[key])
        } else {
            None
        }),
{
    m.entries.get(&key).copied()
}

} // verus!
