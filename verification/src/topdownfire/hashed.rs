//! Bevy's hash map and hash set, the collections the texture index is kept
//! in. They are std's `HashMap` and `HashSet` with ahash's `RandomState` as
//! hasher builder. vstd specifies std's methods only for hasher builders it
//! knows to be consistent, which ahash's is not among; the wrappers below
//! state, for these collections, what std's documentation promises of each
//! method, given keys whose hashing agrees with their equality.
use vstd::prelude::*;
use vstd::std_specs::hash::obeys_key_model;
use bevy_utils::{HashMap, HashSet};
use std::hash::Hash;

verus! {

/// ahash's hasher builder. Its documentation promises that hashers built by
/// one builder hash equal input to equal hashes.
#[verifier::external_type_specification]
#[verifier::external_body]
pub struct ExAhashRandomState(ahash::RandomState);

/// `HashMap::insert`: maps `k` to `v` and returns the value `k` had before.
#[verifier::external_body]
pub(crate) fn map_insert<K: Eq + Hash, V>(m: &mut HashMap<K, V>, k: K, v: V) -> (previous: Option<V>)
    requires
        obeys_key_model::<K>(),
    ensures
        final(m)@ == old(m)@.insert(k, v),
        match previous {
            Some(p) => old(m)@.contains_key(k) && p == old(m)@[k],
            None => !old(m)@.contains_key(k),
        },
{
    m.insert(k, v)
}

/// `HashMap::get`: the value of `k`, if it has one.
#[verifier::external_body]
pub(crate) fn map_get<'a, K: Eq + Hash, V>(m: &'a HashMap<K, V>, k: &K) -> (value: Option<&'a V>)
    requires
        obeys_key_model::<K>(),
    ensures
        match value {
            Some(v) => m@.contains_key(*k) && *v == m@[*k],
            None => !m@.contains_key(*k),
        },
{
    m.get(k)
}

/// `HashMap::remove`: drops `k` from the map and returns the value it had.
#[verifier::external_body]
pub(crate) fn map_remove<K: Eq + Hash, V>(m: &mut HashMap<K, V>, k: &K) -> (removed: Option<V>)
    requires
        obeys_key_model::<K>(),
    ensures
        final(m)@ == old(m)@.remove(*k),
        match removed {
            Some(v) => old(m)@.contains_key(*k) && v == old(m)@[*k],
            None => !old(m)@.contains_key(*k),
        },
{
    m.remove(k)
}

/// `HashSet::insert`: adds `k`; true where it was not there yet.
#[verifier::external_body]
pub(crate) fn set_insert<K: Eq + Hash>(s: &mut HashSet<K>, k: K) -> (added: bool)
    requires
        obeys_key_model::<K>(),
    ensures
        final(s)@ == old(s)@.insert(k),
        added == !old(s)@.contains(k),
{
    s.insert(k)
}

/// `HashSet::remove`: takes `k` out; true where it was there.
#[verifier::external_body]
pub(crate) fn set_remove<K: Eq + Hash>(s: &mut HashSet<K>, k: &K) -> (removed: bool)
    requires
        obeys_key_model::<K>(),
    ensures
        final(s)@ == old(s)@.remove(*k),
        removed == old(s)@.contains(*k),
{
    s.remove(k)
}

/// `HashSet::iter`, copied out: every member once, in the set's own order,
/// which nothing here states.
#[verifier::external_body]
pub(crate) fn set_members<K: Eq + Hash + Copy>(s: &HashSet<K>) -> (members: Vec<K>)
    requires
        obeys_key_model::<K>(),
    ensures
        members@.to_set() == s@,
        members@.no_duplicates(),
{
    s.iter().copied().collect()
}

} // verus!
