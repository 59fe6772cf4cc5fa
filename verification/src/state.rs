//! What a whole map holds at one moment, shard by shard, and what its operations do to it.
use crate::key::{hash_of, IKey};
use crate::records::{inserted, lists, lookup, removed, well_kept, Record};
use crate::shard::Shard;
use crate::rights::Cloneable;
use vstd::prelude::*;

verus! {

/// The shard, of `count`, that takes the keys with the given hash.
pub open spec fn bin_of(hash: u64, count: nat) -> int {
    hash as int % count as int
}

/// What the shards hold.
pub open spec fn contents<K, V>(shards: Seq<Shard<K, V>>) -> Seq<Map<usize, Record<K, V>>> {
    Seq::new(shards.len(), |i: int| shards[i]@)
}

/// How many records the shards hold together.
pub open spec fn total_len<K, V>(state: Seq<Map<usize, Record<K, V>>>) -> nat
    decreases state.len(),
{
    if state.len() == 0 {
        0
    } else {
        total_len(state.drop_last()) + state.last().dom().len()
    }
}

/// Whether `pairs` lists what the shards hold, shard after shard.
pub open spec fn all_listed<K: Cloneable, V: Clone>(
    state: Seq<Map<usize, Record<K, V>>>,
    pairs: Seq<(K, V)>,
) -> bool {
    exists|parts: Seq<Seq<(K, V)>>| #[trigger] listed_in_parts(state, parts) && pairs
        == parts.flatten()
}

/// Whether each of the parts lists what the shard in its place holds.
pub open spec fn listed_in_parts<K: Cloneable, V: Clone>(
    state: Seq<Map<usize, Record<K, V>>>,
    parts: Seq<Seq<(K, V)>>,
) -> bool {
    &&& parts.len() == state.len()
    &&& forall|i: int| 0 <= i < parts.len() ==> lists(state[i], #[trigger] parts[i])
}

/// Whether `keys` holds a clone of the key of each of the pairs, in order.
pub open spec fn keys_of<K: Cloneable, V>(pairs: Seq<(K, V)>, keys: Seq<K>) -> bool {
    &&& keys.len() == pairs.len()
    &&& forall|i: int| 0 <= i < pairs.len() ==> pairs[i].0.cloned_as(&#[trigger] keys[i])
}

/// Whether `owned` is a clone of what `answer` holds, and nothing where it holds nothing.
pub open spec fn clone_of<V: Clone>(answer: Option<V>, owned: Option<V>) -> bool {
    match answer {
        Some(value) => owned is Some && cloned(value, owned->0),
        None => owned is None,
    }
}

/// What the shard that takes `key` holds.
pub open spec fn shard_for<K: IKey<K>, V>(
    state: Seq<Map<usize, Record<K, V>>>,
    key: K,
) -> Map<usize, Record<K, V>> {
    state[bin_of(hash_of(key), state.len())]
}

/// The value that the map gives to `key`.
pub open spec fn map_lookup<K: IKey<K>, V>(
    state: Seq<Map<usize, Record<K, V>>>,
    key: K,
) -> Option<V> {
    lookup(shard_for(state, key), key)
}

/// Each shard is well kept and holds no key but those that it takes.
pub open spec fn well_sharded<K: IKey<K>, V>(state: Seq<Map<usize, Record<K, V>>>) -> bool {
    &&& state.len() >= 1
    &&& forall|bin: int| 0 <= bin < state.len() ==> well_kept(#[trigger] state[bin])
    &&& forall|bin: int, slot: usize|
        0 <= bin < state.len() && #[trigger] state[bin].contains_key(slot) ==> bin_of(
            state[bin][slot].hash,
            state.len(),
        ) == bin
}

/// Whether `after` may come of inserting the pair of `key` and `value` into the map: it is
/// inserted into the shard that takes the key, and the other shards stay as they were.
pub open spec fn map_inserted<K: IKey<K> + Eq + Cloneable, V>(
    before: Seq<Map<usize, Record<K, V>>>,
    after: Seq<Map<usize, Record<K, V>>>,
    key: K,
    value: V,
) -> bool {
    let bin = bin_of(hash_of(key), before.len());
    &&& after == before.update(bin, after[bin])
    &&& inserted(before[bin], after[bin], key, hash_of(key), value)
}

/// Whether `after` may come of removing `key` from the map, and `gone` be handed back: it is
/// removed from the shard that takes it, and the other shards stay as they were.
pub open spec fn map_removed<K: IKey<K> + Eq, V>(
    before: Seq<Map<usize, Record<K, V>>>,
    after: Seq<Map<usize, Record<K, V>>>,
    key: K,
    gone: Option<V>,
) -> bool {
    let bin = bin_of(hash_of(key), before.len());
    &&& after == before.update(bin, after[bin])
    &&& removed(before[bin], after[bin], key, hash_of(key), gone)
}

} // verus!
