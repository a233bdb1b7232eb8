//! The keys of a map: as a list, and cut down to those that are wanted.

use std::collections::{HashMap, HashSet};
use vstd::prelude::*;

verus! {

broadcast use vstd::std_specs::hash::group_hash_axioms;

/// The keys of `map`, each of them once, in no particular order.
pub fn keys_of<V>(map: &HashMap<u64, V>) -> (keys: Vec<u64>)
    ensures
        keys@.no_duplicates(),
        keys@.to_set() == map@.dom(),
{
    let mut keys: Vec<u64> = Vec::new();
    for key in it: map.keys()
        invariant
            keys@ == it.seq().unref().take(it.index() as int),
            it.seq().no_duplicates(),
            it.seq().unref().to_set() == map@.dom(),
            it.index() == it.seq().len() ==> keys@ =~= it.seq().unref(),
    {
        keys.push(*key);
        assert(keys@ =~= it.seq().unref().take(it.index() as int + 1));
    }
    keys
}

/// Drops every entry of `map` whose key is not in `live`.
pub fn keep_only<V>(map: &mut HashMap<u64, V>, live: &HashSet<u64>)
    ensures
        final(map)@ == old(map)@.restrict(live@),
{
    let ghost start = map@;
    let keys = keys_of(map);
    let mut i: usize = 0;
    while i < keys.len()
        invariant
            i <= keys.len(),
            keys@.to_set() == start.dom(),
            forall|k: u64| #[trigger]
                map@.contains_key(k) <==> start.contains_key(k) && (live@.contains(k)
                    || !keys@.take(i as int).contains(k)),
            forall|k: u64| #[trigger] map@.contains_key(k) ==> map@[k] == start[k],
        decreases keys.len() - i,
    {
        let ghost before = map@;
        if !live.contains(&keys[i]) {
            map.remove(&keys[i]);
        }
        proof {
            let next = keys@.take(i as int + 1);
            assert(next =~= keys@.take(i as int).push(keys@[i as int]));
            assert forall|k: u64| #[trigger]
                map@.contains_key(k) <==> start.contains_key(k) && (live@.contains(k)
                    || !next.contains(k)) by {
                assert(next.contains(k) <==> keys@.take(i as int).contains(k) || k
                    == keys@[i as int]) by {
                    if keys@.take(i as int).contains(k) {
                        let j = keys@.take(i as int).index_of(k);
                        assert(next[j] == k);
                    }
                    assert(next[i as int] == keys@[i as int]);
                }
                assert(before.contains_key(k) || !before.contains_key(k));
            }
        }
        i += 1;
    }
    proof {
        assert(keys@.take(i as int) =~= keys@);
        assert forall|k: u64| start.contains_key(k) implies keys@.contains(k) by {
            assert(keys@.to_set().contains(k));
        }
        assert(map@ =~= start.restrict(live@));
    }
}

} // verus!
