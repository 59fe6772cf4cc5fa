//! What calls of a map's operations have to do with each other.
//!
//! What is behind a lock is whatever the threads that took it left there, so these laws say
//! where one call finds what another left, or what is at rest, and what comes back then.
use crate::guard::write_lock;
use crate::key::{hash_of, lawful_equality, lawful_keys, IKey};
use crate::laws::{law_key_has_shard, law_keys, law_pairs};
use crate::lock::{found_behind, lends, let_go};
use crate::map::{all_found, HashMap};
use crate::records::{
    answered, cloned_twice, inserted, law_answer_is_lookup, law_inserted, law_removed, lookup,
    removed, well_kept, Record,
};
use crate::rights::{Adds, Cloneable, Lists, Removes};
use crate::runs::{holds_nothing, law_run, len_after, run, value_after, Operation};
use crate::shard::ticket::Ticket;
use crate::shard::Shard;
use crate::state::{
    all_listed, bin_of, clone_of, contents, keys_of, map_lookup, total_len, well_sharded,
};
use parking_lot::RwLock;
use std::hash::Hash;
use vstd::arithmetic::div_mod::lemma_small_mod;
use vstd::prelude::*;

verus! {

/// Whether the lock is at rest over `records`: whoever takes it for reading finds them.
pub open spec fn at_rest<K, V>(
    lock: RwLock<Shard<K, V>>,
    records: Map<usize, Record<K, V>>,
) -> bool {
    forall|shard: Shard<K, V>| #[trigger] found_behind(lock, shard) ==> shard@ == records
}

/// Whether every lock of the map is at rest, so that together they hold `state`.
pub open spec fn map_at_rest<K, V, const N: usize>(
    map: &HashMap<K, V, N>,
    state: Seq<Map<usize, Record<K, V>>>,
) -> bool {
    &&& state.len() == map.locks().len()
    &&& forall|bin: int| 0 <= bin < state.len() ==> at_rest(*map.locks()[bin], #[trigger] state[bin])
}

/// On a map at rest, `get_owned` gives a clone of the value that the map gives to the key, and
/// nothing where it gives none.
pub proof fn law_get_owned_call<
    K: Hash + Eq + IKey<K> + Send + Sync,
    V: Clone + Send + Sync,
    const N: usize,
>(
    map: &HashMap<K, V, N>,
    key: K,
    owned: Option<V>,
    records: Map<usize, Record<K, V>>,
)
    requires
        lawful_equality::<K>(),
        well_kept(records),
        at_rest(map.lock_of(key), records),
        call_ensures(HashMap::<K, V, N>::get_owned, (map, key), owned),
    ensures
        clone_of(lookup(records, key), owned),
{
    let (shard, answer) = choose|shard: Shard<K, V>, answer: Option<V>|
        #[trigger] found_behind(map.lock_of(key), shard) && #[trigger] answered(
            shard@,
            key,
            hash_of(key),
            answer,
        ) && clone_of(answer, owned);
    law_answer_is_lookup(records, key, answer);
}

/// On a map at rest, `contains` tells whether the map gives a value to the key.
pub proof fn law_contains_call<
    K: Hash + Eq + IKey<K> + Send + Sync,
    V: Send + Sync,
    const N: usize,
>(
    map: &HashMap<K, V, N>,
    key: K,
    contained: bool,
    records: Map<usize, Record<K, V>>,
)
    requires
        lawful_equality::<K>(),
        well_kept(records),
        at_rest(map.lock_of(key), records),
        call_ensures(HashMap::<K, V, N>::contains, (map, key), contained),
    ensures
        contained == lookup(records, key) is Some,
{
    let (shard, answer) = choose|shard: Shard<K, V>, answer: Option<V>|
        #[trigger] found_behind(map.lock_of(key), shard) && #[trigger] answered(
            shard@,
            key,
            hash_of(key),
            answer,
        ) && contained == answer is Some;
    law_answer_is_lookup(records, key, answer);
}

/// On a map at rest, `contains` says of a key that it is there exactly when `get_owned` gives
/// a value for it.
pub proof fn law_contains_agrees_with_get_owned<
    K: Hash + Eq + IKey<K> + Send + Sync,
    V: Clone + Send + Sync,
    const N: usize,
>(
    map: &HashMap<K, V, N>,
    key: K,
    contained: bool,
    owned: Option<V>,
    records: Map<usize, Record<K, V>>,
)
    requires
        lawful_equality::<K>(),
        well_kept(records),
        at_rest(map.lock_of(key), records),
        call_ensures(HashMap::<K, V, N>::contains, (map, key), contained),
        call_ensures(HashMap::<K, V, N>::get_owned, (map, key), owned),
    ensures
        contained == owned is Some,
{
    law_contains_call(map, key, contained, records);
    law_get_owned_call(map, key, owned, records);
}

/// Where the insertion finds `before`, well kept, behind the lock of its key, and the reader finds
/// what the insertion left, `get_owned` gives a clone of the value that was
/// inserted for the key, and of the value that it had before for every other key of the shard.
pub proof fn law_get_owned_after_insert_call<
    K: Hash + Eq + IKey<K> + Adds + Send + Sync,
    V: Clone + Send + Sync,
    const N: usize,
>(
    map: &HashMap<K, V, N>,
    key: K,
    value: V,
    other: K,
    owned: Option<V>,
    before: Map<usize, Record<K, V>>,
)
    requires
        lawful_keys::<K>(),
        well_kept(before),
        map.lock_of(other) == map.lock_of(key),
        call_ensures(HashMap::<K, V, N>::insert, (map, key, value), ()),
        call_ensures(HashMap::<K, V, N>::get_owned, (map, other), owned),
        forall|ticket: Ticket<K, V>, guard: &mut _, shard: &mut Shard<K, V>, found: Shard<K, V>|
            #[trigger] call_ensures(write_lock::<K, V>, (&map.lock_of(key), ticket), *guard)
                && #[trigger] lends(guard, shard) && let_go(*final(guard)) && #[trigger]
                found_behind(map.lock_of(key), found) ==> shard@ == before && found@
                == final(shard)@,
    ensures
        clone_of(
            if other.same_key(&key) {
                Some(value)
            } else {
                lookup(before, other)
            },
            owned,
        ),
{
    let (found, answer) = choose|found: Shard<K, V>, answer: Option<V>|
        #[trigger] found_behind(map.lock_of(other), found) && #[trigger] answered(
            found@,
            other,
            hash_of(other),
            answer,
        ) && clone_of(answer, owned);
    assert forall|ticket: Ticket<K, V>, guard: &mut _, shard: &mut Shard<K, V>|
        #[trigger] call_ensures(write_lock::<K, V>, (&map.lock_of(key), ticket), *guard)
            && #[trigger] lends(guard, shard) && let_go(*final(guard)) && inserted(
            shard@,
            final(shard)@,
            key,
            hash_of(key),
            value,
        ) implies answer == (if other.same_key(&key) {
        Some(value)
    } else {
        lookup(before, other)
    }) by {
        law_inserted(before, final(shard)@, key, value);
        law_answer_is_lookup(final(shard)@, other, answer);
    }
}

/// Where the insertion finds `before`, well kept, behind the lock of its key, and the reader finds
/// what the insertion left, `contains` says of the key that it is there, and of
/// every other key of the shard what was so before.
pub proof fn law_contains_after_insert_call<
    K: Hash + Eq + IKey<K> + Adds + Send + Sync,
    V: Send + Sync,
    const N: usize,
>(
    map: &HashMap<K, V, N>,
    key: K,
    value: V,
    other: K,
    contained: bool,
    before: Map<usize, Record<K, V>>,
)
    requires
        lawful_keys::<K>(),
        well_kept(before),
        map.lock_of(other) == map.lock_of(key),
        call_ensures(HashMap::<K, V, N>::insert, (map, key, value), ()),
        call_ensures(HashMap::<K, V, N>::contains, (map, other), contained),
        forall|ticket: Ticket<K, V>, guard: &mut _, shard: &mut Shard<K, V>, found: Shard<K, V>|
            #[trigger] call_ensures(write_lock::<K, V>, (&map.lock_of(key), ticket), *guard)
                && #[trigger] lends(guard, shard) && let_go(*final(guard)) && #[trigger]
                found_behind(map.lock_of(key), found) ==> shard@ == before && found@
                == final(shard)@,
    ensures
        contained == (other.same_key(&key) || lookup(before, other) is Some),
{
    let (found, answer) = choose|found: Shard<K, V>, answer: Option<V>|
        #[trigger] found_behind(map.lock_of(other), found) && #[trigger] answered(
            found@,
            other,
            hash_of(other),
            answer,
        ) && contained == answer is Some;
    assert forall|ticket: Ticket<K, V>, guard: &mut _, shard: &mut Shard<K, V>|
        #[trigger] call_ensures(write_lock::<K, V>, (&map.lock_of(key), ticket), *guard)
            && #[trigger] lends(guard, shard) && let_go(*final(guard)) && inserted(
            shard@,
            final(shard)@,
            key,
            hash_of(key),
            value,
        ) implies answer == (if other.same_key(&key) {
        Some(value)
    } else {
        lookup(before, other)
    }) by {
        law_inserted(before, final(shard)@, key, value);
        law_answer_is_lookup(final(shard)@, other, answer);
    }
}

/// Where the removal finds `before`, well kept, behind the lock of its key, and the reader finds
/// what the removal left, the removal handed back the value that the
/// key had, and `get_owned` gives nothing for the key and a clone of the value that it had
/// before for every other key of the shard.
pub proof fn law_get_owned_after_remove_call<
    K: Hash + Eq + IKey<K> + Removes + Send + Sync,
    V: Clone + Send + Sync,
    const N: usize,
>(
    map: &HashMap<K, V, N>,
    key: K,
    gone: Option<V>,
    other: K,
    owned: Option<V>,
    before: Map<usize, Record<K, V>>,
)
    requires
        lawful_equality::<K>(),
        well_kept(before),
        map.lock_of(other) == map.lock_of(key),
        call_ensures(HashMap::<K, V, N>::remove, (map, key), gone),
        call_ensures(HashMap::<K, V, N>::get_owned, (map, other), owned),
        forall|ticket: Ticket<K, V>, guard: &mut _, shard: &mut Shard<K, V>, found: Shard<K, V>|
            #[trigger] call_ensures(write_lock::<K, V>, (&map.lock_of(key), ticket), *guard)
                && #[trigger] lends(guard, shard) && let_go(*final(guard)) && #[trigger]
                found_behind(map.lock_of(key), found) ==> shard@ == before && found@
                == final(shard)@,
    ensures
        gone == lookup(before, key),
        clone_of(
            if other.same_key(&key) {
                None
            } else {
                lookup(before, other)
            },
            owned,
        ),
{
    let (found, answer) = choose|found: Shard<K, V>, answer: Option<V>|
        #[trigger] found_behind(map.lock_of(other), found) && #[trigger] answered(
            found@,
            other,
            hash_of(other),
            answer,
        ) && clone_of(answer, owned);
    assert forall|ticket: Ticket<K, V>, guard: &mut _, shard: &mut Shard<K, V>|
        #[trigger] call_ensures(write_lock::<K, V>, (&map.lock_of(key), ticket), *guard)
            && #[trigger] lends(guard, shard) && let_go(*final(guard)) && removed(
            shard@,
            final(shard)@,
            key,
            hash_of(key),
            gone,
        ) implies gone == lookup(before, key) && answer == (if other.same_key(&key) {
        None
    } else {
        lookup(before, other)
    }) by {
        law_removed(before, final(shard)@, key, gone);
        law_answer_is_lookup(final(shard)@, other, answer);
    }
}

/// Where the removal finds `before`, well kept, behind the lock of its key, and the reader finds
/// what the removal left, `contains` says of the key that it is not there, and
/// of every other key of the shard what was so before.
pub proof fn law_contains_after_remove_call<
    K: Hash + Eq + IKey<K> + Removes + Send + Sync,
    V: Send + Sync,
    const N: usize,
>(
    map: &HashMap<K, V, N>,
    key: K,
    gone: Option<V>,
    other: K,
    contained: bool,
    before: Map<usize, Record<K, V>>,
)
    requires
        lawful_equality::<K>(),
        well_kept(before),
        map.lock_of(other) == map.lock_of(key),
        call_ensures(HashMap::<K, V, N>::remove, (map, key), gone),
        call_ensures(HashMap::<K, V, N>::contains, (map, other), contained),
        forall|ticket: Ticket<K, V>, guard: &mut _, shard: &mut Shard<K, V>, found: Shard<K, V>|
            #[trigger] call_ensures(write_lock::<K, V>, (&map.lock_of(key), ticket), *guard)
                && #[trigger] lends(guard, shard) && let_go(*final(guard)) && #[trigger]
                found_behind(map.lock_of(key), found) ==> shard@ == before && found@
                == final(shard)@,
    ensures
        gone == lookup(before, key),
        contained == (!other.same_key(&key) && lookup(before, other) is Some),
{
    let (found, answer) = choose|found: Shard<K, V>, answer: Option<V>|
        #[trigger] found_behind(map.lock_of(other), found) && #[trigger] answered(
            found@,
            other,
            hash_of(other),
            answer,
        ) && contained == answer is Some;
    assert forall|ticket: Ticket<K, V>, guard: &mut _, shard: &mut Shard<K, V>|
        #[trigger] call_ensures(write_lock::<K, V>, (&map.lock_of(key), ticket), *guard)
            && #[trigger] lends(guard, shard) && let_go(*final(guard)) && removed(
            shard@,
            final(shard)@,
            key,
            hash_of(key),
            gone,
        ) implies gone == lookup(before, key) && answer == (if other.same_key(&key) {
        None
    } else {
        lookup(before, other)
    }) by {
        law_removed(before, final(shard)@, key, gone);
        law_answer_is_lookup(final(shard)@, other, answer);
    }
}

/// Where the insertion finds what is well kept, and a removal of the key finds what the
/// insertion left, the removal hands back the value that was inserted.
pub proof fn law_remove_after_insert_call<
    K: Hash + Eq + IKey<K> + Adds + Removes + Send + Sync,
    V: Send + Sync,
    const N: usize,
>(map: &HashMap<K, V, N>, key: K, value: V, gone: Option<V>)
    requires
        lawful_keys::<K>(),
        call_ensures(HashMap::<K, V, N>::insert, (map, key, value), ()),
        call_ensures(HashMap::<K, V, N>::remove, (map, key), gone),
        forall|
            ticket: Ticket<K, V>,
            guard: &mut _,
            shard: &mut Shard<K, V>,
            next: Ticket<K, V>,
            second: &mut _,
            again: &mut Shard<K, V>,
        |
            #[trigger] call_ensures(write_lock::<K, V>, (&map.lock_of(key), ticket), *guard)
                && #[trigger] lends(guard, shard) && let_go(*final(guard))
                && inserted(shard@, final(shard)@, key, hash_of(key), value)
                && #[trigger] call_ensures(write_lock::<K, V>, (&map.lock_of(key), next), *second)
                && #[trigger] lends(second, again) && let_go(*final(second))
                && removed(again@, final(again)@, key, hash_of(key), gone) ==> well_kept(shard@)
                && again@ == final(shard)@,
    ensures
        gone == Some(value),
{
    assert forall|
        ticket: Ticket<K, V>,
        guard: &mut _,
        shard: &mut Shard<K, V>,
        next: Ticket<K, V>,
        second: &mut _,
        again: &mut Shard<K, V>,
    |
        #[trigger] call_ensures(write_lock::<K, V>, (&map.lock_of(key), ticket), *guard)
                && #[trigger] lends(guard, shard) && let_go(*final(guard))
            && inserted(shard@, final(shard)@, key, hash_of(key), value)
            && #[trigger] call_ensures(write_lock::<K, V>, (&map.lock_of(key), next), *second)
                && #[trigger] lends(second, again) && let_go(*final(second))
            && removed(again@, final(again)@, key, hash_of(key), gone) implies gone == Some(
        value,
    ) by {
        law_inserted(shard@, final(shard)@, key, value);
        law_removed(again@, final(again)@, key, gone);
        assert(key.same_key(&key));
    }
}

/// On a map at rest, `len` is the number of pairs in all the shards together, as long as a
/// `usize` holds it, and wraps around beyond that.
pub proof fn law_len_call<K: Send + Sync, V: Send + Sync, const N: usize>(
    map: &HashMap<K, V, N>,
    count: usize,
    state: Seq<Map<usize, Record<K, V>>>,
)
    requires
        map_at_rest(map, state),
        call_ensures(HashMap::<K, V, N>::len, (map,), count),
    ensures
        count == total_len(state) % (usize::MAX as nat + 1),
        total_len(state) <= usize::MAX ==> count == total_len(state),
{
    let seen = choose|seen: Seq<Shard<K, V>>| #[trigger]
        all_found(map.locks(), seen) && count == total_len(contents(seen)) % (usize::MAX as nat
            + 1);
    lemma_seen_at_rest(map, seen, state);
    if total_len(state) <= usize::MAX {
        lemma_small_mod(total_len(state), usize::MAX as nat + 1);
    }
}

/// What readers of all the locks find together is what they are at rest over.
proof fn lemma_seen_at_rest<K, V, const N: usize>(
    map: &HashMap<K, V, N>,
    seen: Seq<Shard<K, V>>,
    state: Seq<Map<usize, Record<K, V>>>,
)
    requires
        map_at_rest(map, state),
        all_found(map.locks(), seen),
    ensures
        contents(seen) == state,
{
    assert forall|bin: int| 0 <= bin < state.len() implies #[trigger] contents(seen)[bin]
        == state[bin] by {
        assert(found_behind(*map.locks()[bin], seen[bin]));
        assert(at_rest(*map.locks()[bin], state[bin]));
    }
    assert(contents(seen) =~= state);
}

/// On a map at rest, `pairs` lists each key that the map gives a value to once, with a clone of
/// a clone of the value, and no other key.
pub proof fn law_pairs_call<
    K: Eq + IKey<K> + Lists + Send + Sync,
    V: Clone + Send + Sync,
    const N: usize,
>(map: &HashMap<K, V, N>, pairs: Vec<(K, V)>, state: Seq<Map<usize, Record<K, V>>>)
    requires
        lawful_keys::<K>(),
        well_sharded(state),
        map_at_rest(map, state),
        call_ensures(HashMap::<K, V, N>::pairs, (map,), pairs),
    ensures
        pairs@.len() == total_len(state),
        forall|i: int, j: int|
            0 <= i < pairs@.len() && 0 <= j < pairs@.len() && #[trigger] pairs@[i].0.same_key(
                &(#[trigger] pairs@[j]).0,
            ) ==> i == j,
        forall|key: K, i: int|
            0 <= i < pairs@.len() && #[trigger] key.same_key(&(#[trigger] pairs@[i]).0) ==> {
                &&& map_lookup(state, key) is Some
                &&& cloned_twice(map_lookup(state, key)->0, pairs@[i].1)
            },
        forall|key: K| #[trigger]
            map_lookup(state, key) is Some ==> exists|i: int|
                0 <= i < pairs@.len() && key.same_key(&(#[trigger] pairs@[i]).0),
{
    let seen = choose|seen: Seq<Shard<K, V>>| #[trigger]
        all_found(map.locks(), seen) && all_listed(contents(seen), pairs@);
    lemma_seen_at_rest(map, seen, state);
    law_pairs(state, pairs@);
}

/// On a map at rest, `keys` lists each key that the map gives a value to once, and no other
/// key.
pub proof fn law_keys_call<
    K: Eq + IKey<K> + Lists + Send + Sync,
    V: Clone + Send + Sync,
    const N: usize,
>(map: &HashMap<K, V, N>, keys: Vec<K>, state: Seq<Map<usize, Record<K, V>>>)
    requires
        lawful_keys::<K>(),
        well_sharded(state),
        map_at_rest(map, state),
        call_ensures(HashMap::<K, V, N>::keys, (map,), keys),
    ensures
        keys@.len() == total_len(state),
        forall|i: int, j: int|
            0 <= i < keys@.len() && 0 <= j < keys@.len() && #[trigger] keys@[i].same_key(
                &(#[trigger] keys@[j]),
            ) ==> i == j,
        forall|key: K| #[trigger]
            map_lookup(state, key) is Some <==> exists|i: int|
                0 <= i < keys@.len() && key.same_key(&(#[trigger] keys@[i])),
{
    let (seen, pairs) = choose|seen: Seq<Shard<K, V>>, pairs: Seq<(K, V)>|
        #[trigger] all_found(map.locks(), seen) && #[trigger] all_listed(contents(seen), pairs)
            && keys_of(pairs, keys@);
    lemma_seen_at_rest(map, seen, state);
    law_keys(state, pairs, keys@);
}

/// On a map at rest after any run of operations from nothing, `get_owned` gives a clone of the
/// value that was inserted for the key last, or nothing, `contains` tells whether there is
/// such a value, and `len` counts the keys that have one.
pub proof fn law_calls_after_run<
    K: Hash + Eq + IKey<K> + Cloneable + Send + Sync,
    V: Clone + Send + Sync,
    const N: usize,
>(
    map: &HashMap<K, V, N>,
    states: Seq<Seq<Map<usize, Record<K, V>>>>,
    operations: Seq<Operation<K, V>>,
    results: Seq<Option<V>>,
    key: K,
    owned: Option<V>,
    contained: bool,
    count: usize,
)
    requires
        lawful_keys::<K>(),
        run(states, operations, results),
        holds_nothing(states[0]),
        map_at_rest(map, states.last()),
        len_after(operations) <= usize::MAX,
        call_ensures(HashMap::<K, V, N>::get_owned, (map, key), owned),
        call_ensures(HashMap::<K, V, N>::contains, (map, key), contained),
        call_ensures(HashMap::<K, V, N>::len, (map,), count),
    ensures
        clone_of(value_after(operations, key), owned),
        contained == value_after(operations, key) is Some,
        count == len_after(operations),
{
    let state = states.last();
    law_run(states, operations, results);
    law_key_has_shard(key, state.len());
    let bin = bin_of(hash_of(key), state.len());
    assert(at_rest(*map.locks()[bin], state[bin]));
    assert(well_kept(state[bin]));
    assert(map_lookup(state, key) == value_after(operations, key));
    law_get_owned_call(map, key, owned, state[bin]);
    law_contains_call(map, key, contained, state[bin]);
    law_len_call(map, count, state);
}

} // verus!
