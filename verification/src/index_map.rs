//! The map from a cell's flattened grid position to the index of the vertex
//! that the cell emitted.
//!
//! The map is `nohash_hasher::IntMap<u32, u16>`: a
//! `std::collections::HashMap` whose hasher, `NoHashHasher<u32>`, hands the
//! key back as its own hash (`write_u32` stores the key, `finish` returns
//! it). Equal keys therefore hash alike, and the map behaves as `HashMap` is
//! documented to.
//!
//! An empty map comes from `IntMap::default()`. The two functions below are
//! the only other places where the library touches the map. Their contracts
//! are believed, not proved; they speak of the map through its view `m@`,
//! the mathematical map from the keys it holds to their values.

use nohash_hasher::IntMap;
use vstd::prelude::*;

verus! {

/// `nohash_hasher::NoHashHasher`, the hasher of an `IntMap`. Nothing is said
/// of what it holds.
#[verifier::external_type_specification]
#[verifier::external_body]
#[verifier::reject_recursive_types(T)]
pub struct ExNoHashHasher<T>(nohash_hasher::NoHashHasher<T>);

/// `std::hash::BuildHasherDefault`, which makes the hasher of an `IntMap` by
/// `Default`. Nothing is said of what it holds.
#[verifier::external_type_specification]
#[verifier::external_body]
#[verifier::reject_recursive_types(H)]
pub struct ExBuildHasherDefault<H>(core::hash::BuildHasherDefault<H>);

/// `insert` of `IntMap`, which is `HashMap::insert`: afterwards `key` is
/// bound to `value`, whether or not it was bound before, and every other key
/// is bound as it was. The value that `insert` hands back is dropped.
#[verifier::external_body]
pub(crate) fn record(map: &mut IntMap<u32, u16>, key: u32, value: u16)
    ensures
        final(map)@ == old(map)@.insert(key, value),
{
    map.insert(key, value);
}

/// `get` of `IntMap`, which is `HashMap::get`, with the value copied out of
/// the reference: `Some` of the value bound to `key` where the map holds the
/// key, and `None` where it does not.
#[verifier::external_body]
pub(crate) fn lookup(map: &IntMap<u32, u16>, key: u32) -> (found: Option<u16>)
    ensures
        found == if map@.contains_key(key) {
            Some(map@[key])
        } else {
            None::<u16>
        },
{
    map.get(&key).cloned()
}

} // verus!
