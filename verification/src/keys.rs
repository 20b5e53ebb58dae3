use crate::position_wrapper::Key;
use std::collections::BTreeSet;
use vstd::prelude::*;

verus! {

/// Whether a set of hashes holds `key`.
pub fn holds(keys: &BTreeSet<Key>, key: Key) -> (found: bool)
    ensures
        found == keys@.contains(key),
{
    broadcast use vstd::laws_cmp::group_laws_cmp, vstd::std_specs::btree::group_btree_axioms;

    keys.contains(&key)
}

/// Puts `key` into a set of hashes.
pub fn put(keys: &mut BTreeSet<Key>, key: Key)
    ensures
        final(keys)@ == old(keys)@.insert(key),
{
    broadcast use vstd::laws_cmp::group_laws_cmp, vstd::std_specs::btree::group_btree_axioms;

    let _ = keys.insert(key);
}

/// Takes `key` out of a set of hashes.
pub fn take(keys: &mut BTreeSet<Key>, key: Key)
    ensures
        final(keys)@ == old(keys)@.remove(key),
{
    broadcast use vstd::laws_cmp::group_laws_cmp, vstd::std_specs::btree::group_btree_axioms;

    let _ = keys.remove(&key);
}

} // verus!
