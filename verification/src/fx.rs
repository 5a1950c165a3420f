//! The hash maps of `rustc_hash`, keyed by integers, each call behind a
//! contract that is taken on trust.
//!
//! `FxHashMap<K, V>` is the standard `HashMap` with `FxBuildHasher` as its
//! hasher. That hasher is a fixed function of the key, and a `u64` is equal
//! to itself alone, so the map behaves as the mathematical map that is its
//! view.

use rustc_hash::{FxBuildHasher, FxHashMap};
use vstd::prelude::*;

verus! {

/// `rustc_hash::FxBuildHasher`, the maker of the hashers of an `FxHashMap`.
#[verifier::external_type_specification]
#[verifier::external_body]
pub struct ExFxBuildHasher(FxBuildHasher);

/// `FxHashMap::default()`: a map without entries.
#[verifier::external_body]
pub(crate) fn fx_new<V>() -> (m: FxHashMap<u64, V>)
    ensures
        forall|k: u64| !m@.contains_key(k),
{
    FxHashMap::default()
}

/// `HashMap::insert` on an `FxHashMap`: afterwards `k` maps to `v`, and
/// every other key to what it mapped to before.
#[verifier::external_body]
pub(crate) fn fx_insert<V>(m: &mut FxHashMap<u64, V>, k: u64, v: V)
    ensures
        final(m)@ == old(m)@.insert(k, v),
{
    m.insert(k, v);
}

/// `HashMap::get` on an `FxHashMap`: the value that `k` maps to, if any.
#[verifier::external_body]
pub(crate) fn fx_get<V: Copy>(m: &FxHashMap<u64, V>, k: u64) -> (found: Option<V>)
    ensures
        found == (if m@.contains_key(k) {
            Some(m@[k])
        } else {
            None
        }),
{
    m.get(&k).copied()
}

} // verus!
