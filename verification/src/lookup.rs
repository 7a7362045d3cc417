//! Keyed tables held as vectors of `(key, value)` pairs, where a later
//! entry for a key overrides an earlier one (the behaviour of a map filled
//! by successive inserts).

use vstd::prelude::*;
use crate::text::str_eq;

verus! {

/// The keys of a table, in order.
pub open spec fn keys_of<V>(entries: Seq<(String, V)>) -> Seq<Seq<char>> {
    entries.map_values(|e: (String, V)| e.0@)
}

/// The position of the last entry with key `key`.
pub open spec fn last_index_of(keys: Seq<Seq<char>>, key: Seq<char>) -> Option<int>
    decreases keys.len(),
{
    if keys.len() == 0 {
        None
    } else if keys.last() == key {
        Some(keys.len() - 1)
    } else {
        last_index_of(keys.drop_last(), key)
    }
}

/// A found position is a valid position holding the key.
pub proof fn lemma_last_index_of(keys: Seq<Seq<char>>, key: Seq<char>)
    ensures
        match last_index_of(keys, key) {
            Some(i) => 0 <= i < keys.len() && keys[i] == key,
            None => !keys.contains(key),
        },
    decreases keys.len(),
{
    if keys.len() > 0 && keys.last() != key {
        lemma_last_index_of(keys.drop_last(), key);
        if keys.contains(key) {
            let j = choose|j: int| 0 <= j < keys.len() && keys[j] == key;
            assert(keys.drop_last()[j] == key);
        }
    }
}

/// The position of the last entry whose key is `key`.
pub fn find_key<V>(entries: &Vec<(String, V)>, key: &str) -> (r: Option<usize>)
    ensures
        match r {
            Some(i) => last_index_of(keys_of(entries@), key@) == Some(i as int),
            None => last_index_of(keys_of(entries@), key@) is None,
        },
{
    let ghost ks = keys_of(entries@);
    let mut j: usize = entries.len();
    assert(ks.take(j as int) =~= ks);
    while j > 0
        invariant
            ks == keys_of(entries@),
            j <= entries.len(),
            last_index_of(ks, key@) == last_index_of(ks.take(j as int), key@),
        decreases j,
    {
        assert(ks[j - 1] == entries@[j - 1].0@);
        if str_eq(entries[j - 1].0.as_str(), key) {
            assert(ks.take(j as int).last() == key@);
            return Some(j - 1);
        }
        assert(ks.take(j as int).drop_last() =~= ks.take(j - 1));
        j = j - 1;
    }
    None
}

} // verus!
