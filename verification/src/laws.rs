//! What holds of a map as a whole, whatever its operations come by in the shards.
use crate::key::{hash_of, lawful_keys, IKey};
use crate::records::{
    answered, cloned_twice, has_key_at, inserted, law_answer_is_lookup, law_inserted, law_removed,
    lemma_lookup_at, lists, lists_in_order, lookup, well_kept, Record,
};
use crate::state::{
    all_listed, bin_of, clone_of, keys_of, listed_in_parts, map_inserted, map_lookup, map_removed, shard_for,
    total_len, well_sharded,
};
use crate::rights::Cloneable;
use vstd::prelude::*;

verus! {

/// The same key is hashed alike and goes to the same shard, however many there are.
pub proof fn law_same_key_same_shard<K: IKey<K> + Eq + Cloneable>(key: K, other: K, count: nat)
    requires
        lawful_keys::<K>(),
        key.same_key(&other),
    ensures
        hash_of(key) == hash_of(other),
        bin_of(hash_of(key), count) == bin_of(hash_of(other), count),
{
}

/// Every key goes to one of the shards.
pub proof fn law_key_has_shard<K: IKey<K>>(key: K, count: nat)
    requires
        count >= 1,
    ensures
        0 <= bin_of(hash_of(key), count) < count,
{
}

/// A map whose shards hold nothing is well kept, has no key and no length.
pub proof fn law_empty<K: IKey<K> + Eq + Cloneable, V>(state: Seq<Map<usize, Record<K, V>>>)
    requires
        state.len() >= 1,
        forall|bin: int|
            0 <= bin < state.len() ==> (#[trigger] state[bin]) == Map::<
                usize,
                Record<K, V>,
            >::empty(),
    ensures
        well_sharded(state),
        total_len(state) == 0,
        forall|key: K| #[trigger] map_lookup(state, key) is None,
    decreases state.len(),
{
    if state.len() > 1 {
        law_empty(state.drop_last());
    } else {
        assert(total_len(state.drop_last()) == 0);
    }
    assert forall|key: K| #[trigger] map_lookup(state, key) is None by {
        law_key_has_shard(key, state.len());
    }
}

/// A search for a key in the shard that takes it comes back with the value that the map
/// gives to the key.
pub proof fn law_get<K: IKey<K> + Eq + Cloneable, V>(
    state: Seq<Map<usize, Record<K, V>>>,
    key: K,
    answer: Option<V>,
)
    requires
        lawful_keys::<K>(),
        well_sharded(state),
        answered(shard_for(state, key), key, hash_of(key), answer),
    ensures
        answer == map_lookup(state, key),
{
    law_key_has_shard(key, state.len());
    law_answer_is_lookup(shard_for(state, key), key, answer);
}

/// Exchanging the records of one shard changes the length by as much as its own changes.
proof fn lemma_total_len_update<K, V>(
    state: Seq<Map<usize, Record<K, V>>>,
    bin: int,
    records: Map<usize, Record<K, V>>,
)
    requires
        0 <= bin < state.len(),
    ensures
        total_len(state.update(bin, records)) == total_len(state) - state[bin].dom().len()
            + records.dom().len(),
    decreases state.len(),
{
    let after = state.update(bin, records);
    if bin == state.len() - 1 {
        assert(after.drop_last() =~= state.drop_last());
    } else {
        assert(after.drop_last() =~= state.drop_last().update(bin, records));
        lemma_total_len_update(state.drop_last(), bin, records);
    }
}

/// Where the shard that takes `key` gets no key but that one, every shard still holds no key
/// but those that it takes.
proof fn lemma_stays_sharded<K: IKey<K> + Eq + Cloneable, V>(
    before: Seq<Map<usize, Record<K, V>>>,
    records: Map<usize, Record<K, V>>,
    key: K,
)
    requires
        lawful_keys::<K>(),
        well_sharded(before),
        well_kept(records),
        forall|other: K| #[trigger]
            lookup(records, other) is Some ==> other.same_key(&key) || lookup(
                shard_for(before, key),
                other,
            ) is Some,
    ensures
        well_sharded(before.update(bin_of(hash_of(key), before.len()), records)),
{
    let bin = bin_of(hash_of(key), before.len());
    let after = before.update(bin, records);
    law_key_has_shard(key, before.len());
    assert forall|one: int, slot: usize|
        0 <= one < after.len() && #[trigger] after[one].contains_key(slot) implies bin_of(
        after[one][slot].hash,
        after.len(),
    ) == one by {
        if one == bin {
            let other = records[slot].key;
            assert(other.same_key(&other));
            assert(has_key_at(records, other, slot));
            assert(lookup(records, other) is Some);
            if !other.same_key(&key) {
                let at = choose|at: usize| has_key_at(before[bin], other, at);
                assert(has_key_at(before[bin], other, at));
                assert(before[bin].contains_key(at));
                assert(hash_of(other) == before[bin][at].hash);
            }
        } else {
            assert(before[one].contains_key(slot));
        }
    }
}

/// Inserting a pair keeps the map well kept; the key then has the value, and every other key
/// the value that it had. The map gets longer by one where the key had no value, and
/// otherwise keeps its length.
pub proof fn law_insert<K: IKey<K> + Eq + Cloneable, V>(
    before: Seq<Map<usize, Record<K, V>>>,
    after: Seq<Map<usize, Record<K, V>>>,
    key: K,
    value: V,
)
    requires
        lawful_keys::<K>(),
        well_sharded(before),
        map_inserted(before, after, key, value),
    ensures
        after.len() == before.len(),
        well_sharded(after),
        forall|other: K| #[trigger]
            map_lookup(after, other) == (if other.same_key(&key) {
                Some(value)
            } else {
                map_lookup(before, other)
            }),
        total_len(after) == total_len(before) + (if map_lookup(before, key) is None {
            1int
        } else {
            0int
        }),
{
    let bin = bin_of(hash_of(key), before.len());
    law_key_has_shard(key, before.len());
    law_inserted(before[bin], after[bin], key, value);
    lemma_total_len_update(before, bin, after[bin]);
    lemma_stays_sharded(before, after[bin], key);
    assert forall|other: K| #[trigger]
        map_lookup(after, other) == (if other.same_key(&key) {
            Some(value)
        } else {
            map_lookup(before, other)
        }) by {
        law_key_has_shard(other, before.len());
        if other.same_key(&key) {
            law_same_key_same_shard(other, key, before.len());
        }
        assert(lookup(after[bin], other) == (if other.same_key(&key) {
            Some(value)
        } else {
            lookup(before[bin], other)
        }));
    }
}

/// Removing a key keeps the map well kept and hands back the value that the key had; the key
/// then has none, and every other key the value that it had. The map gets shorter by one
/// where the key had a value, and otherwise stays as it was.
pub proof fn law_remove<K: IKey<K> + Eq + Cloneable, V>(
    before: Seq<Map<usize, Record<K, V>>>,
    after: Seq<Map<usize, Record<K, V>>>,
    key: K,
    gone: Option<V>,
)
    requires
        lawful_keys::<K>(),
        well_sharded(before),
        map_removed(before, after, key, gone),
    ensures
        after.len() == before.len(),
        well_sharded(after),
        gone == map_lookup(before, key),
        forall|other: K| #[trigger]
            map_lookup(after, other) == (if other.same_key(&key) {
                None
            } else {
                map_lookup(before, other)
            }),
        total_len(after) == total_len(before) - (if gone is None {
            0int
        } else {
            1int
        }),
        gone is None ==> after == before,
{
    let bin = bin_of(hash_of(key), before.len());
    law_key_has_shard(key, before.len());
    law_removed(before[bin], after[bin], key, gone);
    lemma_total_len_update(before, bin, after[bin]);
    lemma_stays_sharded(before, after[bin], key);
    assert forall|other: K| #[trigger]
        map_lookup(after, other) == (if other.same_key(&key) {
            None
        } else {
            map_lookup(before, other)
        }) by {
        law_key_has_shard(other, before.len());
        if other.same_key(&key) {
            law_same_key_same_shard(other, key, before.len());
        }
        assert(lookup(after[bin], other) == (if other.same_key(&key) {
            None
        } else {
            lookup(before[bin], other)
        }));
    }
    if gone is None {
        assert(after =~= before);
    }
}

/// Two searches for a key, with nothing done to the map between them, come back with the same.
pub proof fn law_get_again<K: IKey<K> + Eq + Cloneable, V>(
    state: Seq<Map<usize, Record<K, V>>>,
    key: K,
    answer: Option<V>,
    again: Option<V>,
)
    requires
        lawful_keys::<K>(),
        well_sharded(state),
        answered(shard_for(state, key), key, hash_of(key), answer),
        answered(shard_for(state, key), key, hash_of(key), again),
    ensures
        answer == again,
{
    law_get(state, key, answer);
    law_get(state, key, again);
}

/// What was handed out for a key stays a clone of the value that the key had then, also when
/// another value is inserted for the key and found from then on.
pub proof fn law_handed_out_stays<K: IKey<K> + Eq + Cloneable, V: Clone>(
    before: Seq<Map<usize, Record<K, V>>>,
    after: Seq<Map<usize, Record<K, V>>>,
    key: K,
    answer: Option<V>,
    owned: Option<V>,
    value: V,
    later: Option<V>,
)
    requires
        lawful_keys::<K>(),
        well_sharded(before),
        answered(shard_for(before, key), key, hash_of(key), answer),
        clone_of(answer, owned),
        map_inserted(before, after, key, value),
        answered(shard_for(after, key), key, hash_of(key), later),
    ensures
        clone_of(map_lookup(before, key), owned),
        later == Some(value),
{
    law_get(before, key, answer);
    law_insert(before, after, key, value);
    law_get(after, key, later);
    assert(key.same_key(&key));
}

/// A map contains a key if and only if it gives a value to it.
pub proof fn law_contains<K: IKey<K> + Eq + Cloneable, V>(
    state: Seq<Map<usize, Record<K, V>>>,
    key: K,
    answer: Option<V>,
    contained: bool,
)
    requires
        lawful_keys::<K>(),
        well_sharded(state),
        answered(shard_for(state, key), key, hash_of(key), answer),
        contained == answer is Some,
    ensures
        contained == map_lookup(state, key) is Some,
{
    law_get(state, key, answer);
}

/// A reader who finds the shard as a writer left it is given a clone of what the writer
/// inserted.
pub proof fn law_reader_gets_what_writer_left<K: IKey<K> + Eq + Cloneable, V: Clone>(
    before: Map<usize, Record<K, V>>,
    left: Map<usize, Record<K, V>>,
    key: K,
    value: V,
    other: K,
    answer: Option<V>,
    owned: Option<V>,
)
    requires
        lawful_keys::<K>(),
        well_kept(before),
        inserted(before, left, key, hash_of(key), value),
        other.same_key(&key),
        answered(left, other, hash_of(other), answer),
        clone_of(answer, owned),
    ensures
        owned is Some,
        cloned(value, owned->0),
{
    law_inserted(before, left, key, value);
    law_answer_is_lookup(left, other, answer);
}

/// What is inserted for a key is what a search for the key then comes back with.
pub proof fn law_get_after_insert<K: IKey<K> + Eq + Cloneable, V>(
    before: Seq<Map<usize, Record<K, V>>>,
    after: Seq<Map<usize, Record<K, V>>>,
    key: K,
    value: V,
    other: K,
    answer: Option<V>,
)
    requires
        lawful_keys::<K>(),
        well_sharded(before),
        map_inserted(before, after, key, value),
        answered(shard_for(after, other), other, hash_of(other), answer),
    ensures
        other.same_key(&key) ==> answer == Some(value),
        !other.same_key(&key) ==> answer == map_lookup(before, other),
{
    law_insert(before, after, key, value);
    law_get(after, other, answer);
}

/// Once a key is removed, a search for it comes back with nothing, and a search for any
/// other key with what it came back with before.
pub proof fn law_get_after_remove<K: IKey<K> + Eq + Cloneable, V>(
    before: Seq<Map<usize, Record<K, V>>>,
    after: Seq<Map<usize, Record<K, V>>>,
    key: K,
    gone: Option<V>,
    other: K,
    answer: Option<V>,
)
    requires
        lawful_keys::<K>(),
        well_sharded(before),
        map_removed(before, after, key, gone),
        answered(shard_for(after, other), other, hash_of(other), answer),
    ensures
        other.same_key(&key) ==> answer is None,
        !other.same_key(&key) ==> answer == map_lookup(before, other),
{
    law_remove(before, after, key, gone);
    law_get(after, other, answer);
}

/// Of two values inserted for one key the later stays, in the place of the earlier: the map
/// is no longer than it was after the first.
pub proof fn law_insert_replaces<K: IKey<K> + Eq + Cloneable, V>(
    before: Seq<Map<usize, Record<K, V>>>,
    between: Seq<Map<usize, Record<K, V>>>,
    after: Seq<Map<usize, Record<K, V>>>,
    key: K,
    earlier: V,
    later: V,
)
    requires
        lawful_keys::<K>(),
        well_sharded(before),
        map_inserted(before, between, key, earlier),
        map_inserted(between, after, key, later),
    ensures
        well_sharded(after),
        map_lookup(after, key) == Some(later),
        total_len(after) == total_len(between),
{
    law_insert(before, between, key, earlier);
    law_insert(between, after, key, later);
    assert(key.same_key(&key));
}

/// Removing a key hands back what was inserted for it last, and leaves every key that was
/// not there before with no value and every other key with the value that it had.
pub proof fn law_remove_after_insert<K: IKey<K> + Eq + Cloneable, V>(
    before: Seq<Map<usize, Record<K, V>>>,
    between: Seq<Map<usize, Record<K, V>>>,
    after: Seq<Map<usize, Record<K, V>>>,
    key: K,
    value: V,
    gone: Option<V>,
)
    requires
        lawful_keys::<K>(),
        well_sharded(before),
        map_inserted(before, between, key, value),
        map_removed(between, after, key, gone),
    ensures
        well_sharded(after),
        gone == Some(value),
        forall|other: K| !other.same_key(&key) ==> #[trigger] map_lookup(after, other)
            == map_lookup(before, other),
        map_lookup(before, key) is None ==> {
            &&& forall|other: K| #[trigger]
                map_lookup(after, other) == map_lookup(before, other)
            &&& total_len(after) == total_len(before)
        },
{
    law_insert(before, between, key, value);
    law_remove(between, after, key, gone);
    assert(key.same_key(&key));
    assert forall|other: K| !other.same_key(&key) implies #[trigger] map_lookup(after, other)
        == map_lookup(before, other) by {
        assert(map_lookup(between, other) == map_lookup(before, other));
    }
    if map_lookup(before, key) is None {
        assert forall|other: K| #[trigger] map_lookup(after, other) == map_lookup(before, other) by {
            if other.same_key(&key) {
                lemma_same_value(before, other, key);
            }
        }
    }
}

/// The map gives one value to the same key.
pub proof fn lemma_same_value<K: IKey<K> + Eq + Cloneable, V>(
    state: Seq<Map<usize, Record<K, V>>>,
    key: K,
    other: K,
)
    requires
        lawful_keys::<K>(),
        well_sharded(state),
        key.same_key(&other),
    ensures
        map_lookup(state, key) == map_lookup(state, other),
{
    law_same_key_same_shard(key, other, state.len());
    law_key_has_shard(key, state.len());
    let records = shard_for(state, key);
    assert(other.same_key(&key));
    if exists|slot: usize| has_key_at(records, key, slot) {
        let slot = choose|slot: usize| has_key_at(records, key, slot);
        assert(has_key_at(records, other, slot));
        lemma_lookup_at(records, key, slot);
        lemma_lookup_at(records, other, slot);
    } else if exists|slot: usize| has_key_at(records, other, slot) {
        let slot = choose|slot: usize| has_key_at(records, other, slot);
        assert(has_key_at(records, key, slot));
    }
}

/// Whether the pair is a clone of a clone of the record in the slot of the shard.
pub open spec fn copied_from<K: Cloneable, V: Clone>(
    state: Seq<Map<usize, Record<K, V>>>,
    source: (int, usize),
    pair: (K, V),
) -> bool {
    &&& 0 <= source.0 < state.len()
    &&& state[source.0].contains_key(source.1)
    &&& cloned_twice(state[source.0][source.1].key, pair.0)
    &&& cloned_twice(state[source.0][source.1].value, pair.1)
}

/// Where each of the pairs in the list comes from: every record of the map, once.
proof fn lemma_sources<K: Cloneable, V: Clone>(
    state: Seq<Map<usize, Record<K, V>>>,
    parts: Seq<Seq<(K, V)>>,
) -> (sources: Seq<(int, usize)>)
    requires
        listed_in_parts(state, parts),
    ensures
        sources.len() == parts.flatten().len(),
        sources.len() == total_len(state),
        sources.no_duplicates(),
        forall|i: int|
            0 <= i < sources.len() ==> copied_from(
                state,
                #[trigger] sources[i],
                parts.flatten()[i],
            ),
        forall|bin: int, slot: usize|
            0 <= bin < state.len() && #[trigger] state[bin].contains_key(slot)
                ==> sources.contains((bin, slot)),
    decreases state.len(),
{
    parts.lemma_flatten_and_flatten_alt_are_equivalent();
    if state.len() == 0 {
        Seq::empty()
    } else {
        let last: int = state.len() - 1;
        let earlier = state.drop_last();
        assert(listed_in_parts(earlier, parts.drop_last()));
        let first = lemma_sources(earlier, parts.drop_last());
        parts.drop_last().lemma_flatten_and_flatten_alt_are_equivalent();
        assert(lists(state[last], parts[last]));
        let order = choose|order: Seq<usize>| #[trigger]
            order.to_set() == state[last].dom() && order.no_duplicates() && lists_in_order(
                state[last],
                order,
                parts[last],
            );
        order.unique_seq_to_set();
        let rest = Seq::new(order.len(), |i: int| (last, order[i]));
        let sources = first + rest;
        let pairs = parts.flatten();
        assert forall|i: int| 0 <= i < sources.len() implies copied_from(
            state,
            #[trigger] sources[i],
            pairs[i],
        ) by {
            if i < first.len() {
                assert(copied_from(earlier, first[i], parts.drop_last().flatten()[i]));
            } else {
                let j = i - first.len();
                assert(pairs[i] == parts[last][j]);
                assert(order.to_set().contains(order[j]));
            }
        }
        assert forall|bin: int, slot: usize|
            0 <= bin < state.len() && #[trigger] state[bin].contains_key(
                slot,
            ) implies sources.contains((bin, slot)) by {
            if bin < last {
                assert(earlier[bin].contains_key(slot));
                let i = choose|i: int| 0 <= i < first.len() && first[i] == (bin, slot);
                assert(sources[i] == (bin, slot));
            } else {
                assert(order.to_set().contains(slot));
                let j = choose|j: int| 0 <= j < order.len() && order[j] == slot;
                assert(sources[first.len() + j] == (bin, slot));
            }
        }
        assert forall|i: int, j: int|
            0 <= i < j < sources.len() implies sources[i] != sources[j] by {
            if i < first.len() {
                assert(copied_from(earlier, first[i], parts.drop_last().flatten()[i]));
            }
        }
        sources
    }
}

/// A clone of a clone of a key is the same key.
proof fn lemma_clone_is_same_key<K: IKey<K> + Eq + Cloneable>(key: K, copy: K)
    requires
        lawful_keys::<K>(),
        cloned_twice(key, copy),
    ensures
        key.same_key(&copy),
{
    let between = choose|between: K| #[trigger]
        key.cloned_as(&between) && #[trigger] between.cloned_as(&copy);
    assert(key.same_key(&between));
    assert(between.same_key(&copy));
}

/// The list of all pairs is as long as the map and has each key that the map has once, with
/// a clone of a clone of its value, and no other key.
pub proof fn law_pairs<K: IKey<K> + Eq + Cloneable, V: Clone>(
    state: Seq<Map<usize, Record<K, V>>>,
    pairs: Seq<(K, V)>,
)
    requires
        lawful_keys::<K>(),
        well_sharded(state),
        all_listed(state, pairs),
    ensures
        pairs.len() == total_len(state),
        forall|i: int, j: int|
            0 <= i < pairs.len() && 0 <= j < pairs.len() && #[trigger] pairs[i].0.same_key(
                &(#[trigger] pairs[j]).0,
            ) ==> i == j,
        forall|key: K, i: int|
            0 <= i < pairs.len() && #[trigger] key.same_key(&(#[trigger] pairs[i]).0) ==> {
                &&& map_lookup(state, key) is Some
                &&& cloned_twice(map_lookup(state, key)->0, pairs[i].1)
            },
        forall|key: K| #[trigger]
            map_lookup(state, key) is Some ==> exists|i: int|
                0 <= i < pairs.len() && key.same_key(&(#[trigger] pairs[i]).0),
{
    let parts = choose|parts: Seq<Seq<(K, V)>>| #[trigger] listed_in_parts(state, parts) && pairs
        == parts.flatten();
    let sources = lemma_sources(state, parts);
    assert forall|i: int, key: K|
        0 <= i < pairs.len() && #[trigger] key.same_key(&(#[trigger] pairs[i]).0) implies {
        &&& sources[i].0 == bin_of(hash_of(key), state.len())
        &&& has_key_at(state[sources[i].0], key, sources[i].1)
        &&& map_lookup(state, key) == Some(state[sources[i].0][sources[i].1].value)
        &&& cloned_twice(state[sources[i].0][sources[i].1].value, pairs[i].1)
    } by {
        assert(copied_from(state, sources[i], pairs[i]));
        let record = state[sources[i].0][sources[i].1];
        lemma_clone_is_same_key(record.key, pairs[i].0);
        assert(pairs[i].0.same_key(&record.key));
        assert(key.same_key(&record.key));
        assert(state[sources[i].0].contains_key(sources[i].1));
        law_same_key_same_shard(key, record.key, state.len());
        assert(well_kept(state[sources[i].0]));
        lemma_lookup_at(state[sources[i].0], key, sources[i].1);
    }
    assert forall|i: int, j: int|
        0 <= i < pairs.len() && 0 <= j < pairs.len() && #[trigger] pairs[i].0.same_key(
            &(#[trigger] pairs[j]).0,
        ) implies i == j by {
        let key = pairs[i].0;
        assert(key.same_key(&pairs[i].0));
        let records = state[sources[i].0];
        assert(has_key_at(records, key, sources[i].1));
        assert(has_key_at(records, key, sources[j].1));
        assert(records[sources[i].1].key.same_key(&key));
        assert(has_key_at(records, records[sources[i].1].key, sources[j].1));
        assert(well_kept(records));
        assert(sources[i] == sources[j]);
    }
    assert forall|key: K| #[trigger] map_lookup(state, key) is Some implies exists|i: int|
        0 <= i < pairs.len() && key.same_key(&(#[trigger] pairs[i]).0) by {
        law_key_has_shard(key, state.len());
        let bin = bin_of(hash_of(key), state.len());
        let slot = choose|slot: usize| has_key_at(state[bin], key, slot);
        assert(state[bin].contains_key(slot));
        let i = choose|i: int| 0 <= i < sources.len() && sources[i] == (bin, slot);
        assert(copied_from(state, sources[i], pairs[i]));
        lemma_clone_is_same_key(state[bin][slot].key, pairs[i].0);
        assert(key.same_key(&pairs[i].0));
    }
}

/// A key that the map has is in the list of all pairs.
proof fn lemma_key_is_listed<K: IKey<K> + Eq + Cloneable, V: Clone>(
    state: Seq<Map<usize, Record<K, V>>>,
    pairs: Seq<(K, V)>,
    key: K,
) -> (i: int)
    requires
        lawful_keys::<K>(),
        well_sharded(state),
        all_listed(state, pairs),
        map_lookup(state, key) is Some,
    ensures
        0 <= i < pairs.len(),
        key.same_key(&pairs[i].0),
{
    law_pairs(state, pairs);
    choose|i: int| 0 <= i < pairs.len() && key.same_key(&(#[trigger] pairs[i]).0)
}

/// A key in the list of all pairs is one that the map has.
proof fn lemma_listed_key_is_had<K: IKey<K> + Eq + Cloneable, V: Clone>(
    state: Seq<Map<usize, Record<K, V>>>,
    pairs: Seq<(K, V)>,
    key: K,
    i: int,
)
    requires
        lawful_keys::<K>(),
        well_sharded(state),
        all_listed(state, pairs),
        0 <= i < pairs.len(),
        key.same_key(&pairs[i].0),
    ensures
        map_lookup(state, key) is Some,
{
    law_pairs(state, pairs);
}

/// No key is in the list of all pairs twice.
proof fn lemma_key_is_listed_once<K: IKey<K> + Eq + Cloneable, V: Clone>(
    state: Seq<Map<usize, Record<K, V>>>,
    pairs: Seq<(K, V)>,
    i: int,
    j: int,
)
    requires
        lawful_keys::<K>(),
        well_sharded(state),
        all_listed(state, pairs),
        0 <= i < pairs.len(),
        0 <= j < pairs.len(),
        pairs[i].0.same_key(&pairs[j].0),
    ensures
        i == j,
{
    law_pairs(state, pairs);
}

/// The list of all keys is as long as the map and has each key that the map has once, and no
/// other key.
pub proof fn law_keys<K: IKey<K> + Eq + Cloneable, V: Clone>(
    state: Seq<Map<usize, Record<K, V>>>,
    pairs: Seq<(K, V)>,
    keys: Seq<K>,
)
    requires
        lawful_keys::<K>(),
        well_sharded(state),
        all_listed(state, pairs),
        keys_of(pairs, keys),
    ensures
        keys.len() == total_len(state),
        forall|i: int, j: int|
            0 <= i < keys.len() && 0 <= j < keys.len() && #[trigger] keys[i].same_key(
                &(#[trigger] keys[j]),
            ) ==> i == j,
        forall|key: K| #[trigger]
            map_lookup(state, key) is Some <==> exists|i: int|
                0 <= i < keys.len() && key.same_key(&(#[trigger] keys[i])),
{
    assert(keys.len() == total_len(state)) by {
        law_pairs(state, pairs);
    }
    assert forall|i: int, j: int|
        0 <= i < keys.len() && 0 <= j < keys.len() && #[trigger] keys[i].same_key(
            &(#[trigger] keys[j]),
        ) implies i == j by {
        assert(pairs[i].0.cloned_as(&keys[i]));
        assert(pairs[j].0.cloned_as(&keys[j]));
        assert(pairs[i].0.same_key(&keys[j]));
        assert(keys[j].same_key(&pairs[j].0));
        lemma_key_is_listed_once(state, pairs, i, j);
    }
    assert forall|key: K| #[trigger] map_lookup(state, key) is Some <==> exists|i: int|
        0 <= i < keys.len() && key.same_key(&(#[trigger] keys[i])) by {
        if map_lookup(state, key) is Some {
            let i = lemma_key_is_listed(state, pairs, key);
            assert(pairs[i].0.cloned_as(&keys[i]));
            assert(key.same_key(&keys[i]));
        }
        if exists|i: int| 0 <= i < keys.len() && key.same_key(&(#[trigger] keys[i])) {
            let i = choose|i: int| 0 <= i < keys.len() && key.same_key(&(#[trigger] keys[i]));
            assert(pairs[i].0.cloned_as(&keys[i]));
            assert(keys[i].same_key(&pairs[i].0));
            lemma_listed_key_is_had(state, pairs, key, i);
        }
    }
}

} // verus!
