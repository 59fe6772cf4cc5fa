//! What a shard holds, and what is done to it, in terms of records in numbered slots.
use crate::key::{hash_of, lawful_equality, lawful_keys, IKey};
use crate::rights::Cloneable;
use vstd::prelude::*;

verus! {

/// A key/value pair as a shard holds it, with the hash that it is filed under.
pub struct Record<K, V> {
    pub hash: u64,
    pub key: K,
    pub value: V,
}

/// Whether `==` may say `equal` of `key` and `other`.
pub open spec fn compares<K: Eq>(key: K, other: K, equal: bool) -> bool {
    call_ensures(<K as PartialEq>::eq, (&key, &other), equal)
}

/// Whether a search for `key` under `hash` may end at `found`: at a record whose key equals
/// `key`, or nowhere, when no record that is filed under `hash` has such a key.
pub open spec fn found_at<K: Eq, V>(
    records: Map<usize, Record<K, V>>,
    key: K,
    hash: u64,
    found: Option<usize>,
) -> bool {
    match found {
        Some(slot) => records.contains_key(slot) && compares(key, records[slot].key, true),
        None => forall|slot: usize| #[trigger]
            records.contains_key(slot) && records[slot].hash == hash ==> compares(
                key,
                records[slot].key,
                false,
            ),
    }
}

/// The value in the slot that was found.
pub open spec fn value_at<K, V>(
    records: Map<usize, Record<K, V>>,
    found: Option<usize>,
) -> Option<V> {
    match found {
        Some(slot) => Some(records[slot].value),
        None => None,
    }
}

/// `after` is `before` and one record more, in a slot of its own. Of the records that were
/// there, either all stay as they were or all are filed anew, each under the hash of its key.
pub open spec fn added<K: IKey<K>, V>(
    before: Map<usize, Record<K, V>>,
    after: Map<usize, Record<K, V>>,
    slot: usize,
    record: Record<K, V>,
) -> bool {
    &&& !before.contains_key(slot)
    &&& after.dom() == before.dom().insert(slot)
    &&& after[slot] == record
    &&& {
        ||| forall|other: usize| #[trigger]
            before.contains_key(other) ==> after[other] == before[other]
        ||| forall|other: usize| #[trigger]
            before.contains_key(other) ==> after[other] == (Record {
                hash: hash_of(before[other].key),
                ..before[other]
            })
    }
}

/// Whether a search for `key` under `hash` may come back with `answer`.
pub open spec fn answered<K: Eq, V>(
    records: Map<usize, Record<K, V>>,
    key: K,
    hash: u64,
    answer: Option<V>,
) -> bool {
    exists|found: Option<usize>| #[trigger]
        found_at(records, key, hash, found) && answer == value_at(records, found)
}

/// `after` is what becomes of `before` when `value` is put in for `key`, with the search for
/// it having ended at `found`: the record that was found gets the value and keeps its key;
/// where none was found, a record with a clone of the key is added.
pub open spec fn stored<K: IKey<K> + Cloneable, V>(
    before: Map<usize, Record<K, V>>,
    after: Map<usize, Record<K, V>>,
    found: Option<usize>,
    key: K,
    hash: u64,
    value: V,
) -> bool {
    match found {
        Some(slot) => after == before.insert(slot, Record { value, ..before[slot] }),
        None => exists|slot: usize, owned: K|
            key.cloned_as(&owned) && #[trigger] added(
                before,
                after,
                slot,
                (Record { hash, key: owned, value }),
            ),
    }
}

/// Whether `after` may come of inserting the pair of `key` and `value` under `hash`.
pub open spec fn inserted<K: IKey<K> + Eq + Cloneable, V>(
    before: Map<usize, Record<K, V>>,
    after: Map<usize, Record<K, V>>,
    key: K,
    hash: u64,
    value: V,
) -> bool {
    exists|found: Option<usize>| #[trigger]
        found_at(before, key, hash, found) && stored(before, after, found, key, hash, value)
}

/// Whether `after` may come of removing `key` under `hash`, and `gone` be handed back: the
/// value of the record that was found, which is no longer there, or nothing.
pub open spec fn removed<K: Eq, V>(
    before: Map<usize, Record<K, V>>,
    after: Map<usize, Record<K, V>>,
    key: K,
    hash: u64,
    gone: Option<V>,
) -> bool {
    exists|found: Option<usize>| #[trigger]
        found_at(before, key, hash, found) && gone == value_at(before, found) && after == (
        match found {
            Some(slot) => before.remove(slot),
            None => before,
        })
}

/// Whether `pairs` lists the records: clones of clones of the key and the value of each, once, in
/// some order.
pub open spec fn lists<K: Cloneable, V: Cloneable>(
    records: Map<usize, Record<K, V>>,
    pairs: Seq<(K, V)>,
) -> bool {
    exists|order: Seq<usize>| #[trigger]
        order.to_set() == records.dom() && order.no_duplicates() && lists_in_order(
            records,
            order,
            pairs,
        )
}

/// Whether `copy` is a clone of a clone of `value`.
pub open spec fn cloned_twice<T: Cloneable>(value: T, copy: T) -> bool {
    exists|between: T| #[trigger]
        value.cloned_as(&between) && #[trigger] between.cloned_as(&copy)
}

/// `pairs` holds clones of clones of the records in the slots of `order`, one after the
/// other.
pub open spec fn lists_in_order<K: Cloneable, V: Cloneable>(
    records: Map<usize, Record<K, V>>,
    order: Seq<usize>,
    pairs: Seq<(K, V)>,
) -> bool {
    &&& pairs.len() == order.len()
    &&& forall|i: int|
        0 <= i < pairs.len() ==> cloned_twice(records[order[i]].key, (#[trigger] pairs[i]).0)
            && cloned_twice(records[order[i]].value, pairs[i].1)
}

/// Whether the record in `slot` is the one of `key`.
pub open spec fn has_key_at<K: IKey<K>, V>(
    records: Map<usize, Record<K, V>>,
    key: K,
    slot: usize,
) -> bool {
    records.contains_key(slot) && key.same_key(&records[slot].key)
}

/// The value that the records give to `key`.
pub open spec fn lookup<K: IKey<K>, V>(records: Map<usize, Record<K, V>>, key: K) -> Option<V> {
    if exists|slot: usize| has_key_at(records, key, slot) {
        Some(records[choose|slot: usize| has_key_at(records, key, slot)].value)
    } else {
        None
    }
}

/// Each record is filed under the hash of its key, no key has two records, and there are
/// finitely many.
pub open spec fn well_kept<K: IKey<K>, V>(records: Map<usize, Record<K, V>>) -> bool {
    &&& forall|slot: usize| #[trigger]
        records.contains_key(slot) ==> records[slot].hash == hash_of(records[slot].key)
    &&& forall|slot: usize, other: usize|
        #![trigger records[slot], records[other]]
        has_key_at(records, records[other].key, slot) && records.contains_key(other) ==> slot
            == other
    &&& records.dom().finite()
}

/// The value that well kept records give to a key is that of any record of the key.
pub proof fn lemma_lookup_at<K: IKey<K> + Eq, V>(
    records: Map<usize, Record<K, V>>,
    key: K,
    slot: usize,
)
    requires
        lawful_equality::<K>(),
        well_kept(records),
        has_key_at(records, key, slot),
    ensures
        lookup(records, key) == Some(records[slot].value),
{
    let chosen = choose|chosen: usize| has_key_at(records, key, chosen);
    assert(has_key_at(records, key, chosen));
    assert(records[slot].key.same_key(&key));
    assert(records[slot].key.same_key(&records[chosen].key));
    assert(has_key_at(records, records[slot].key, chosen));
}

/// A search for a key under its own hash, where the records are well kept, comes back with
/// the value that they give to the key, and with nothing where they give it none.
pub proof fn law_answer_is_lookup<K: IKey<K> + Eq, V>(
    records: Map<usize, Record<K, V>>,
    key: K,
    answer: Option<V>,
)
    requires
        lawful_equality::<K>(),
        well_kept(records),
        answered(records, key, hash_of(key), answer),
    ensures
        answer == lookup(records, key),
{
    let found = choose|found: Option<usize>| #[trigger]
        found_at(records, key, hash_of(key), found) && answer == value_at(records, found);
    lemma_found_at_record(records, key, found);
    match found {
        Some(slot) => {
            lemma_lookup_at(records, key, slot);
        },
        None => {},
    }
}

/// Where the records are well kept, a search for a key under its own hash ends at the
/// record of the key, and nowhere only if there is none.
pub proof fn lemma_found_at_record<K: IKey<K> + Eq, V>(
    records: Map<usize, Record<K, V>>,
    key: K,
    found: Option<usize>,
)
    requires
        lawful_equality::<K>(),
        well_kept(records),
        found_at(records, key, hash_of(key), found),
    ensures
        match found {
            Some(slot) => has_key_at(records, key, slot),
            None => forall|slot: usize| !#[trigger] has_key_at(records, key, slot),
        },
{
    if found is None {
        assert forall|slot: usize| !#[trigger] has_key_at(records, key, slot) by {
            if has_key_at(records, key, slot) {
                assert(records[slot].hash == hash_of(key));
                assert(compares(key, records[slot].key, false));
            }
        }
    }
}

/// One record is put in or exchanged, of a key that had no other: the records stay well
/// kept, the key has the record's value, and no other key is affected.
proof fn lemma_record_set<K: IKey<K> + Eq, V>(
    before: Map<usize, Record<K, V>>,
    slot: usize,
    record: Record<K, V>,
    key: K,
)
    requires
        lawful_equality::<K>(),
        well_kept(before),
        key.same_key(&record.key),
        record.hash == hash_of(record.key),
        before.contains_key(slot) ==> key.same_key(&before[slot].key),
        forall|other: usize| #[trigger] has_key_at(before, key, other) ==> other == slot,
    ensures
        well_kept(before.insert(slot, record)),
        forall|other: K| #[trigger]
            lookup(before.insert(slot, record), other) == (if other.same_key(&key) {
                Some(record.value)
            } else {
                lookup(before, other)
            }),
{
    let after = before.insert(slot, record);
    assert forall|one: usize, other: usize|
        #![trigger after[one], after[other]]
        has_key_at(after, after[other].key, one) && after.contains_key(other) implies one
        == other by {
        if one != other {
            if one == slot {
                assert(before[other].key.same_key(&record.key));
                assert(record.key.same_key(&key));
                assert(key.same_key(&before[other].key));
                assert(has_key_at(before, key, other));
            } else if other == slot {
                assert(record.key.same_key(&before[one].key));
                assert(key.same_key(&before[one].key));
                assert(has_key_at(before, key, one));
            } else {
                assert(has_key_at(before, before[other].key, one));
            }
        }
    }
    assert forall|other: K| #[trigger]
        lookup(after, other) == (if other.same_key(&key) {
            Some(record.value)
        } else {
            lookup(before, other)
        }) by {
        if other.same_key(&key) {
            assert(has_key_at(after, other, slot));
            lemma_lookup_at(after, other, slot);
        } else {
            lemma_lookup_unchanged(before, after, other, slot);
        }
    }
}

/// A key whose record is in none but the slots that both have alike has the same value
/// in both.
proof fn lemma_lookup_unchanged<K: IKey<K> + Eq, V>(
    before: Map<usize, Record<K, V>>,
    after: Map<usize, Record<K, V>>,
    key: K,
    slot: usize,
)
    requires
        lawful_equality::<K>(),
        well_kept(before),
        well_kept(after),
        !has_key_at(before, key, slot),
        !has_key_at(after, key, slot),
        forall|other: usize|
            other != slot ==> before.contains_key(other) == #[trigger] after.contains_key(other)
                && before[other] == after[other],
    ensures
        lookup(after, key) == lookup(before, key),
{
    if exists|other: usize| has_key_at(before, key, other) {
        let other = choose|other: usize| has_key_at(before, key, other);
        assert(after.contains_key(other));
        assert(has_key_at(after, key, other));
        lemma_lookup_at(before, key, other);
        lemma_lookup_at(after, key, other);
    } else if exists|other: usize| has_key_at(after, key, other) {
        let other = choose|other: usize| has_key_at(after, key, other);
        assert(has_key_at(before, key, other));
    }
}

/// Inserting a pair under the hash of its key keeps the records well kept; the key then has
/// the value, and every other key the value that it had. There is one record more where the
/// key had none, and otherwise as many as before.
pub proof fn law_inserted<K: IKey<K> + Eq + Cloneable, V>(
    before: Map<usize, Record<K, V>>,
    after: Map<usize, Record<K, V>>,
    key: K,
    value: V,
)
    requires
        lawful_keys::<K>(),
        well_kept(before),
        inserted(before, after, key, hash_of(key), value),
    ensures
        well_kept(after),
        forall|other: K| #[trigger]
            lookup(after, other) == (if other.same_key(&key) {
                Some(value)
            } else {
                lookup(before, other)
            }),
        after.dom().len() == before.dom().len() + (if lookup(before, key) is None {
            1int
        } else {
            0int
        }),
{
    let found = choose|found: Option<usize>| #[trigger]
        found_at(before, key, hash_of(key), found) && stored(
            before,
            after,
            found,
            key,
            hash_of(key),
            value,
        );
    lemma_found_at_record(before, key, found);
    match found {
        Some(slot) => {
            assert forall|other: usize| #[trigger] has_key_at(before, key, other) implies other
                == slot by {
                assert(before[slot].key.same_key(&key));
                assert(has_key_at(before, before[slot].key, other));
            }
            lemma_lookup_at(before, key, slot);
            lemma_record_set(before, slot, Record { value, ..before[slot] }, key);
            assert(after.dom() =~= before.dom());
        },
        None => {
            let (slot, owned) = choose|slot: usize, owned: K|
                key.cloned_as(&owned) && #[trigger] added(
                    before,
                    after,
                    slot,
                    (Record { hash: hash_of(key), key: owned, value }),
                );
            let record = Record { hash: hash_of(key), key: owned, value };
            assert(key.same_key(&owned));
            assert(after =~= before.insert(slot, record));
            lemma_record_set(before, slot, record, key);
        },
    }
}

/// Removing a key under its hash keeps the records well kept and hands back the value that
/// the key had; the key then has none, and every other key the value that it had. There is
/// one record less where the key had one, and otherwise nothing changes.
pub proof fn law_removed<K: IKey<K> + Eq, V>(
    before: Map<usize, Record<K, V>>,
    after: Map<usize, Record<K, V>>,
    key: K,
    gone: Option<V>,
)
    requires
        lawful_equality::<K>(),
        well_kept(before),
        removed(before, after, key, hash_of(key), gone),
    ensures
        well_kept(after),
        gone == lookup(before, key),
        forall|other: K| #[trigger]
            lookup(after, other) == (if other.same_key(&key) {
                None
            } else {
                lookup(before, other)
            }),
        after.dom().len() == before.dom().len() - (if gone is None {
            0int
        } else {
            1int
        }),
        gone is None ==> after == before,
{
    let found = choose|found: Option<usize>| #[trigger]
        found_at(before, key, hash_of(key), found) && gone == value_at(before, found) && after == (
        match found {
            Some(slot) => before.remove(slot),
            None => before,
        });
    lemma_found_at_record(before, key, found);
    match found {
        Some(slot) => {
            lemma_lookup_at(before, key, slot);
            assert forall|one: usize, other: usize|
                #![trigger after[one], after[other]]
                has_key_at(after, after[other].key, one) && after.contains_key(other) implies one
                == other by {
                assert(has_key_at(before, before[other].key, one));
            }
            assert forall|other: K| #[trigger]
                lookup(after, other) == (if other.same_key(&key) {
                    None
                } else {
                    lookup(before, other)
                }) by {
                if other.same_key(&key) {
                    assert forall|one: usize| !#[trigger] has_key_at(after, other, one) by {
                        if has_key_at(after, other, one) {
                            assert(key.same_key(&other));
                            assert(key.same_key(&before[one].key));
                            assert(before[slot].key.same_key(&key));
                            assert(has_key_at(before, before[slot].key, one));
                        }
                    }
                } else {
                    if has_key_at(before, other, slot) {
                        assert(before[slot].key.same_key(&key));
                    }
                    lemma_lookup_unchanged(before, after, other, slot);
                }
            }
        },
        None => {
            assert forall|other: K| other.same_key(&key) implies #[trigger] lookup(after, other)
                is None by {
                if exists|one: usize| has_key_at(before, other, one) {
                    let one = choose|one: usize| has_key_at(before, other, one);
                    assert(key.same_key(&other));
                    assert(has_key_at(before, key, one));
                }
            }
        },
    }
}

} // verus!
