//! The keys of a map, as a vector.

use std::collections::HashMap;
use vstd::prelude::*;

verus! {

broadcast use vstd::std_specs::hash::group_hash_axioms;

/// The keys of `map`, each once, in no particular order.
pub fn keys_of<V>(map: &HashMap<u64, V>) -> (keys: Vec<u64>)
    ensures
        keys@.no_duplicates(),
        keys@.to_set() == map@.dom(),
{
    let mut keys: Vec<u64> = Vec::new();
    for id in it: map.keys()
        invariant
            it.seq().no_duplicates(),
            it.seq().unref().to_set() == map@.dom(),
            keys@ == it.seq().unref().take(it.index()),
            it.index() == it.seq().len() ==> keys@ == it.seq().unref(),
    {
        let ghost n = it.index();
        keys.push(*id);
        assert(keys@ =~= it.seq().unref().take(n + 1));
    }
    keys
}

} // verus!
