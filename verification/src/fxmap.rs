//! Hash maps with the hasher of `rustc_hash`, keyed by process identifiers and
//! event numbers.

use rustc_hash::FxBuildHasher;
use std::collections::HashMap;
use std::hash::Hash;
use vstd::prelude::*;

verus! {

/// The hasher of `rustc_hash`; nothing is said of what it computes.
#[verifier::external_type_specification]
#[verifier::external_body]
pub struct ExFxBuildHasher(FxBuildHasher);

/// A hash map that uses `FxBuildHasher`, as `rustc_hash::FxHashMap` does.
pub type FxHashMap<K, V> = HashMap<K, V, FxBuildHasher>;

/// The key types in use: integers and byte arrays, on which `==` compares the
/// values and which hash by their bytes.
pub trait FxKey: Eq + Hash + Copy {

}

impl FxKey for [u8; 16] {

}

impl FxKey for u16 {

}

/// `FxHashMap::default` makes a map without entries.
#[verifier::external_body]
pub(crate) fn fx_new<K: FxKey, V>() -> (m: FxHashMap<K, V>)
    ensures
        m@.dom() == Set::<K>::empty(),
{
    FxHashMap::default()
}

/// `HashMap::get` returns the value under a key, where there is one.
#[verifier::external_body]
pub(crate) fn fx_get<'a, K: FxKey, V>(m: &'a FxHashMap<K, V>, key: &K) -> (found: Option<&'a V>)
    ensures
        match found {
            Some(v) => m@.contains_key(*key) && *v == m@[*key],
            None => !m@.contains_key(*key),
        },
{
    m.get(key)
}

/// `HashMap::insert` puts a value under a key, in place of any other.
#[verifier::external_body]
pub(crate) fn fx_insert<K: FxKey, V>(m: &mut FxHashMap<K, V>, key: K, value: V)
    ensures
        final(m)@ == old(m)@.insert(key, value),
{
    m.insert(key, value);
}

/// `HashMap::remove` takes the entry of a key out and hands its value back.
#[verifier::external_body]
pub(crate) fn fx_remove<K: FxKey, V>(m: &mut FxHashMap<K, V>, key: &K) -> (taken: Option<V>)
    ensures
        final(m)@ == old(m)@.remove(*key),
        match taken {
            Some(v) => old(m)@.contains_key(*key) && v == old(m)@[*key],
            None => !old(m)@.contains_key(*key),
        },
{
    m.remove(key)
}

/// Whether a set has a number of elements.
pub open spec fn has_size<K>(s: Set<K>, n: nat) -> bool {
    s.finite() && s.len() == n
}

/// `HashMap::len` is the number of keys.
#[verifier::external_body]
pub(crate) fn fx_len<K: FxKey, V>(m: &FxHashMap<K, V>) -> (n: usize)
    ensures
        has_size(m@.dom(), n as nat),
{
    m.len()
}

/// `HashMap::keys` yields every key once, in no particular order.
#[verifier::external_body]
pub(crate) fn fx_keys<K: FxKey, V>(m: &FxHashMap<K, V>) -> (keys: Vec<K>)
    ensures
        keys@.no_duplicates(),
        keys@.to_set() == m@.dom(),
{
    m.keys().copied().collect()
}

} // verus!
