//! What holds after any run of operations on a map, one after the other.
use crate::key::{hash_of, lawful_keys, IKey};
use crate::laws::{law_empty, law_get, law_insert, law_key_has_shard, law_remove};
use crate::records::{answered, inserted, removed, Record};
use crate::state::{
    bin_of, map_inserted, map_lookup, map_removed, shard_for, total_len, well_sharded,
};
use crate::rights::Cloneable;
use vstd::prelude::*;

verus! {

/// What a map is asked to do.
pub enum Operation<K, V> {
    Insert { key: K, value: V },
    Remove { key: K },
    Get { key: K },
}

/// Whether the operation may turn `before` into `after` and come back with `result`.
pub open spec fn performed<K: IKey<K> + Eq + Cloneable, V>(
    before: Seq<Map<usize, Record<K, V>>>,
    after: Seq<Map<usize, Record<K, V>>>,
    operation: Operation<K, V>,
    result: Option<V>,
) -> bool {
    match operation {
        Operation::Insert { key, value } => map_inserted(before, after, key, value)
            && result is None,
        Operation::Remove { key } => map_removed(before, after, key, result),
        Operation::Get { key } => after == before && answered(
            shard_for(before, key),
            key,
            hash_of(key),
            result,
        ),
    }
}

/// Whether the operations, one after the other, may lead a map through `states`, beginning
/// at the first, and come back with `results`.
pub open spec fn run<K: IKey<K> + Eq + Cloneable, V>(
    states: Seq<Seq<Map<usize, Record<K, V>>>>,
    operations: Seq<Operation<K, V>>,
    results: Seq<Option<V>>,
) -> bool {
    &&& states.len() == operations.len() + 1
    &&& results.len() == operations.len()
    &&& forall|i: int|
        0 <= i < operations.len() ==> performed(
            states[i],
            states[i + 1],
            #[trigger] operations[i],
            results[i],
        )
}

/// A map as it is made: none of its shards holds anything.
pub open spec fn holds_nothing<K, V>(state: Seq<Map<usize, Record<K, V>>>) -> bool {
    &&& state.len() >= 1
    &&& forall|bin: int|
        0 <= bin < state.len() ==> (#[trigger] state[bin]) == Map::<usize, Record<K, V>>::empty()
}

/// What the operations leave as the value of `key`: the value that was inserted for it last,
/// unless it was removed after that.
pub open spec fn value_after<K: IKey<K>, V>(operations: Seq<Operation<K, V>>, key: K) -> Option<V>
    decreases operations.len(),
{
    if operations.len() == 0 {
        None
    } else {
        let earlier = value_after(operations.drop_last(), key);
        match operations.last() {
            Operation::Insert { key: inserted, value } => if key.same_key(&inserted) {
                Some(value)
            } else {
                earlier
            },
            Operation::Remove { key: removed } => if key.same_key(&removed) {
                None
            } else {
                earlier
            },
            Operation::Get { .. } => earlier,
        }
    }
}

/// What an operation comes back with when `earlier` ones went before it.
pub open spec fn result_after<K: IKey<K>, V>(
    earlier: Seq<Operation<K, V>>,
    operation: Operation<K, V>,
) -> Option<V> {
    match operation {
        Operation::Insert { .. } => None,
        Operation::Remove { key } => value_after(earlier, key),
        Operation::Get { key } => value_after(earlier, key),
    }
}

/// How many keys the operations leave in a map: an insertion of a key that has no value adds
/// one, and a removal of a key that has one takes one away.
pub open spec fn len_after<K: IKey<K>, V>(operations: Seq<Operation<K, V>>) -> int
    decreases operations.len(),
{
    if operations.len() == 0 {
        0
    } else {
        let earlier = operations.drop_last();
        match operations.last() {
            Operation::Insert { key, .. } if value_after(earlier, key) is None => len_after(earlier)
                + 1,
            Operation::Remove { key } if value_after(earlier, key) is Some => len_after(earlier)
                - 1,
            _ => len_after(earlier),
        }
    }
}

/// When the shard that takes `key` is left with `left` after an insertion, the map as a whole
/// has the pair inserted.
pub proof fn law_insertion_is_a_step<K: IKey<K> + Eq + Cloneable, V>(
    before: Seq<Map<usize, Record<K, V>>>,
    left: Map<usize, Record<K, V>>,
    key: K,
    value: V,
)
    requires
        before.len() >= 1,
        inserted(shard_for(before, key), left, key, hash_of(key), value),
    ensures
        map_inserted(
            before,
            before.update(bin_of(hash_of(key), before.len()), left),
            key,
            value,
        ),
{
    law_key_has_shard(key, before.len());
}

/// When the shard that takes `key` is left with `left` after a removal, the map as a whole
/// has the key removed.
pub proof fn law_removal_is_a_step<K: IKey<K> + Eq + Cloneable, V>(
    before: Seq<Map<usize, Record<K, V>>>,
    left: Map<usize, Record<K, V>>,
    key: K,
    gone: Option<V>,
)
    requires
        before.len() >= 1,
        removed(shard_for(before, key), left, key, hash_of(key), gone),
    ensures
        map_removed(
            before,
            before.update(bin_of(hash_of(key), before.len()), left),
            key,
            gone,
        ),
{
    law_key_has_shard(key, before.len());
}

/// After any run of operations on a map that held nothing, the map is well kept, gives every
/// key the value that was inserted for it last, or none where there was no insertion or a
/// removal after it, and is as long as it has keys. Each operation came back with what the
/// ones before it left.
pub proof fn law_run<K: IKey<K> + Eq + Cloneable, V>(
    states: Seq<Seq<Map<usize, Record<K, V>>>>,
    operations: Seq<Operation<K, V>>,
    results: Seq<Option<V>>,
)
    requires
        lawful_keys::<K>(),
        run(states, operations, results),
        holds_nothing(states[0]),
    ensures
        states.last().len() == states[0].len(),
        well_sharded(states.last()),
        forall|key: K| #[trigger]
            map_lookup(states.last(), key) == value_after(operations, key),
        total_len(states.last()) == len_after(operations),
        forall|i: int|
            0 <= i < operations.len() ==> #[trigger] results[i] == result_after(
                operations.take(i),
                operations[i],
            ),
    decreases operations.len(),
{
    law_empty(states[0]);
    if operations.len() > 0 {
        let last: int = operations.len() - 1;
        let earlier = operations.drop_last();
        assert forall|i: int| 0 <= i < earlier.len() implies performed(
            states.drop_last()[i],
            states.drop_last()[i + 1],
            #[trigger] earlier[i],
            results.drop_last()[i],
        ) by {
            assert(earlier[i] == operations[i]);
        }
        law_run(states.drop_last(), earlier, results.drop_last());
        let before = states[last];
        let after = states[last + 1];
        assert(states.drop_last().last() == before);
        assert(states.last() == after);
        assert(performed(before, after, operations[last], results[last]));
        match operations[last] {
            Operation::Insert { key, value } => {
                law_insert(before, after, key, value);
                assert(map_lookup(before, key) == value_after(earlier, key));
            },
            Operation::Remove { key } => {
                law_remove(before, after, key, results[last]);
                assert(map_lookup(before, key) == value_after(earlier, key));
            },
            Operation::Get { key } => {
                law_get(before, key, results[last]);
                assert(map_lookup(before, key) == value_after(earlier, key));
            },
        }
        assert forall|key: K| #[trigger]
            map_lookup(after, key) == value_after(operations, key) by {
            assert(map_lookup(before, key) == value_after(earlier, key));
        }
        assert forall|i: int| 0 <= i < operations.len() implies #[trigger] results[i]
            == result_after(operations.take(i), operations[i]) by {
            if i < last {
                assert(results.drop_last()[i] == results[i]);
                assert(earlier.take(i) =~= operations.take(i));
            } else {
                assert(operations.take(i) =~= earlier);
            }
        }
    }
}

/// A search for a key after any run of operations comes back with the value that was
/// inserted for the key last, or with nothing.
pub proof fn law_get_after_run<K: IKey<K> + Eq + Cloneable, V>(
    states: Seq<Seq<Map<usize, Record<K, V>>>>,
    operations: Seq<Operation<K, V>>,
    results: Seq<Option<V>>,
    key: K,
    answer: Option<V>,
)
    requires
        lawful_keys::<K>(),
        run(states, operations, results),
        holds_nothing(states[0]),
        answered(shard_for(states.last(), key), key, hash_of(key), answer),
    ensures
        answer == value_after(operations, key),
{
    law_run(states, operations, results);
    law_get(states.last(), key, answer);
}

/// The number of shards never shows: two maps that held nothing and went through the same
/// operations give every key the same value, are equally long, and came back with the same
/// results all along.
pub proof fn law_shard_count_does_not_show<K: IKey<K> + Eq + Cloneable, V>(
    one: Seq<Seq<Map<usize, Record<K, V>>>>,
    one_results: Seq<Option<V>>,
    other: Seq<Seq<Map<usize, Record<K, V>>>>,
    other_results: Seq<Option<V>>,
    operations: Seq<Operation<K, V>>,
)
    requires
        lawful_keys::<K>(),
        run(one, operations, one_results),
        run(other, operations, other_results),
        holds_nothing(one[0]),
        holds_nothing(other[0]),
    ensures
        one_results == other_results,
        forall|key: K| #[trigger]
            map_lookup(one.last(), key) == map_lookup(other.last(), key),
        total_len(one.last()) == total_len(other.last()),
{
    law_run(one, operations, one_results);
    law_run(other, operations, other_results);
    assert forall|key: K| #[trigger]
        map_lookup(one.last(), key) == map_lookup(other.last(), key) by {
        assert(map_lookup(other.last(), key) == value_after(operations, key));
    }
    assert(one_results =~= other_results);
}

} // verus!
