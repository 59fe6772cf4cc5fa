//! Key/value pairs in numbered slots, found again through a hash table of the slots.
use crate::hash::make_hash;
use crate::key::{hash_of, IKey};
use crate::records::{added, cloned_twice, found_at, lists, lists_in_order, Record};
use crate::rights::{Cloneable, Lists};
use crate::slots::{filed, shown, SlotTable, MAX_ROOM};
use vstd::prelude::*;

verus! {

/// Key/value pairs in numbered slots, with a hash table of the slots in use.
pub(crate) struct Table<K, V> {
    slots: SlotTable,
    pairs: Vec<Option<(K, V)>>,
    free: Vec<usize>,
}

impl<K, V> Table<K, V> {
    /// The hash table holds the slots in use and no others, and the slots to be used again
    /// are out of use, each listed once.
    pub(crate) closed spec fn wf(&self) -> bool {
        &&& forall|slot: usize| #[trigger]
            filed(self.slots).contains_key(slot) <==> slot < self.pairs@.len()
                && self.pairs@[slot as int] is Some
        &&& forall|i: int|
            0 <= i < self.free@.len() ==> (#[trigger] self.free@[i]) < self.pairs@.len()
                && self.pairs@[self.free@[i] as int] is None
        &&& self.free@.no_duplicates()
    }

    /// What the table holds.
    pub(crate) closed spec fn records(&self) -> Map<usize, Record<K, V>> {
        Map::new(
            |slot: usize| filed(self.slots).contains_key(slot),
            |slot: usize|
                Record {
                    hash: filed(self.slots)[slot],
                    key: (self.pairs@[slot as int]->0).0,
                    value: (self.pairs@[slot as int]->0).1,
                },
        )
    }

    /// Whether a search under `hash` comes by `slot`.
    pub(crate) closed spec fn comes_by(&self, hash: u64, slot: usize) -> bool {
        shown(self.slots, hash).contains(slot)
    }

    /// The number of pairs.
    pub(crate) fn len(&self) -> (count: usize)
        ensures
            count == self.records().dom().len(),
    {
        assert(self.records().dom() =~= filed(self.slots).dom());
        self.slots.len()
    }

    /// An empty table, whose hash table has room for `capacity` slots where that much can be
    /// had.
    pub(crate) fn with_capacity(capacity: usize) -> (table: Self)
        ensures
            table.wf(),
            table.records() == Map::<usize, Record<K, V>>::empty(),
    {
        let room: usize = if capacity <= MAX_ROOM {
            capacity
        } else {
            0
        };
        let table = Table {
            slots: SlotTable::with_capacity(room),
            pairs: Vec::new(),
            free: Vec::new(),
        };
        assert(table.records() =~= Map::<usize, Record<K, V>>::empty());
        table
    }
}

impl<K: Eq, V> Table<K, V> {
    /// The slot of a pair with the given key, looked for under `hash`.
    pub(crate) fn find(&self, key: &K, hash: u64) -> (found: Option<usize>)
        requires
            self.wf(),
        ensures
            found matches Some(slot) ==> self.comes_by(hash, slot),
            found_at(self.records(), *key, hash, found),
    {
        let pairs: &Vec<Option<(K, V)>> = &self.pairs;
        let eq = |slot: &usize| -> (equal: bool)
            requires
                *slot < pairs@.len(),
                pairs@[*slot as int] is Some,
            ensures
                call_ensures(<K as PartialEq>::eq, (key, &(pairs@[*slot as int]->0).0), equal),
            {
                match &pairs[*slot] {
                    Some(pair) => key.eq(&pair.0),
                    None => false,
                }
            };
        let found = self.slots.get(hash, eq);
        assert(forall|slot: usize|
            self.records().contains_key(slot) == #[trigger] filed(self.slots).contains_key(slot));
        found
    }
}

impl<K, V> Table<K, V> {
    /// Puts `value` in the place of the value in `slot`, which is handed back.
    pub(crate) fn replace(&mut self, slot: usize, value: V) -> (replaced: V)
        requires
            old(self).wf(),
            old(self).records().contains_key(slot),
        ensures
            final(self).wf(),
            replaced == old(self).records()[slot].value,
            final(self).records() == old(self).records().insert(
                slot,
                Record { value, ..old(self).records()[slot] },
            ),
    {
        assert(filed(self.slots).contains_key(slot));
        let mut replaced: V = value;
        match &mut self.pairs[slot] {
            Some(pair) => {
                std::mem::swap(&mut replaced, &mut pair.1);
            },
            None => {},
        }
        assert(self.records() =~= old(self).records().insert(
            slot,
            Record { value, ..old(self).records()[slot] },
        ));
        replaced
    }

    /// The value in `slot`.
    pub(crate) fn value(&self, slot: usize) -> (value: &V)
        requires
            self.wf(),
            self.records().contains_key(slot),
        ensures
            *value == self.records()[slot].value,
    {
        assert(filed(self.slots).contains_key(slot));
        match &self.pairs[slot] {
            Some(pair) => &pair.1,
            None => vstd::pervasive::unreached(),
        }
    }

    /// Takes the pair in `slot`, which a search under `hash` comes by, out of the table.
    pub(crate) fn take(&mut self, slot: usize, hash: u64) -> (taken: (K, V))
        requires
            old(self).wf(),
            old(self).records().contains_key(slot),
            old(self).comes_by(hash, slot),
        ensures
            final(self).wf(),
            taken.0 == old(self).records()[slot].key,
            taken.1 == old(self).records()[slot].value,
            final(self).records() == old(self).records().remove(slot),
    {
        assert(filed(self.slots).contains_key(slot));
        let eq = |other: &usize| -> (equal: bool)
            ensures
                equal == (*other == slot),
            { *other == slot };
        let _ = self.slots.remove_entry(hash, eq);
        let taken: Option<(K, V)> = self.pairs[slot].take();
        self.free.push(slot);
        assert(self.records() =~= old(self).records().remove(slot));
        taken.unwrap()
    }
}

impl<K, V> Table<K, V> {
    /// A slot that is not in use and no longer listed as one to be used again.
    fn unused(&mut self) -> (slot: usize)
        requires
            old(self).wf(),
        ensures
            final(self).wf(),
            final(self).records() == old(self).records(),
            final(self).slots == old(self).slots,
            slot < final(self).pairs@.len(),
            final(self).pairs@[slot as int] is None,
            !final(self).free@.contains(slot),
    {
        let slot: usize = match self.free.pop() {
            Some(slot) => slot,
            None => {
                self.pairs.push(None);
                self.pairs.len() - 1
            },
        };
        assert(self.records() =~= old(self).records());
        slot
    }
}

impl<K: IKey<K>, V> Table<K, V> {
    /// Puts the pair into a slot that is not in use, filed under `hash`, where the hash table
    /// has room for it; hands the pair back where it has none.
    pub(crate) fn put_in_room(&mut self, hash: u64, key: K, value: V) -> (back: Option<(K, V)>)
        requires
            old(self).wf(),
        ensures
            final(self).wf(),
            match back {
                Some(pair) => pair == (key, value) && final(self).records() == old(self).records(),
                None => exists|slot: usize| #[trigger]
                    added(
                        old(self).records(),
                        final(self).records(),
                        slot,
                        (Record { hash, key, value }),
                    ),
            },
    {
        let slot: usize = self.unused();
        if self.slots.try_insert_no_grow(hash, slot) {
            self.pairs[slot] = Some((key, value));
            proof {
                let before = old(self).records();
                assert(self.records() =~= before.insert(slot, Record { hash, key, value }));
                assert(added(before, self.records(), slot, (Record { hash, key, value })));
            }
            None
        } else {
            self.free.push(slot);
            assert(self.records() =~= old(self).records());
            Some((key, value))
        }
    }

    /// The hashes of the keys, each in the place of its slot.
    pub(crate) fn hashes(&self) -> (hashes: Vec<u64>)
        requires
            self.wf(),
        ensures
            forall|slot: usize| #[trigger]
                self.records().contains_key(slot) ==> slot < hashes@.len()
                    && hashes@[slot as int] == hash_of(self.records()[slot].key),
    {
        let mut hashes: Vec<u64> = Vec::new();
        let mut slot: usize = 0;
        while slot < self.pairs.len()
            invariant
                slot <= self.pairs@.len(),
                hashes@.len() == slot,
                forall|i: int|
                    0 <= i < slot && self.pairs@[i] is Some ==> #[trigger] hashes@[i] == hash_of(
                        (self.pairs@[i]->0).0,
                    ),
            decreases self.pairs@.len() - slot,
        {
            let hash: u64 = match &self.pairs[slot] {
                Some(pair) => make_hash(pair.0.as_bytes()),
                None => 0,
            };
            hashes.push(hash);
            slot = slot + 1;
        }
        assert forall|slot: usize| #[trigger] self.records().contains_key(slot) implies slot
            < hashes@.len() && hashes@[slot as int] == hash_of(self.records()[slot].key) by {
            assert(filed(self.slots).contains_key(slot));
        }
        hashes
    }

    /// Puts the pair into a slot that is not in use, filed under `hash`. Where the hash table
    /// has to grow, all others are filed under their `hashes`.
    pub(crate) fn put(&mut self, hash: u64, key: K, value: V, hashes: &Vec<u64>)
        requires
            old(self).wf(),
            forall|slot: usize| #[trigger]
                old(self).records().contains_key(slot) ==> slot < hashes@.len()
                    && hashes@[slot as int] == hash_of(old(self).records()[slot].key),
        ensures
            final(self).wf(),
            exists|slot: usize| #[trigger]
                added(
                    old(self).records(),
                    final(self).records(),
                    slot,
                    (Record { hash, key, value }),
                ),
    {
        let ghost before = self.records();
        let slot: usize = self.unused();
        let hasher = |other: &usize| -> (number: u64)
            requires
                *other < hashes@.len(),
            ensures
                number == hashes@[*other as int],
            { hashes[*other] };
        let ghost held = filed(self.slots);
        assert forall|other: usize| #[trigger] held.contains_key(other) implies call_requires(
            hasher,
            (&other,),
        ) by {
            assert(before.contains_key(other));
        }
        self.slots.insert(hash, slot, hasher);
        self.pairs[slot] = Some((key, value));
        proof {
            let after = self.records();
            assert(after.dom() =~= before.dom().insert(slot));
            assert forall|other: usize| #[trigger] before.contains_key(other) implies {
                &&& after[other].key == before[other].key
                &&& after[other].value == before[other].value
                &&& held.contains_key(other)
            } by {
                assert(held.contains_key(other));
            }
            assert(added(before, after, slot, (Record { hash, key, value })));
        }
    }
}

impl<K: Lists, V: Clone> Table<K, V> {
    /// Appends clones of clones of all the pairs to `buffer`.
    pub(crate) fn clone_into(&self, buffer: &mut Vec<(K, V)>)
        requires
            self.wf(),
        ensures
            exists|pairs: Seq<(K, V)>| #[trigger]
                lists(self.records(), pairs) && final(buffer)@ == old(buffer)@ + pairs,
    {
        let ghost records = self.records();
        let ghost mut order: Seq<usize> = Seq::empty();
        let ghost mut pairs: Seq<(K, V)> = Seq::empty();
        let mut slot: usize = 0;
        while slot < self.pairs.len()
            invariant
                self.wf(),
                records == self.records(),
                slot <= self.pairs@.len(),
                order.no_duplicates(),
                forall|i: int|
                    0 <= i < order.len() ==> (#[trigger] order[i]) < slot && records.contains_key(
                        order[i],
                    ),
                forall|other: usize|
                    other < slot && #[trigger] records.contains_key(other) ==> order.contains(
                        other,
                    ),
                lists_in_order(records, order, pairs),
                buffer@ == old(buffer)@ + pairs,
            decreases self.pairs@.len() - slot,
        {
            let ghost listed = order;
            assert(records.contains_key(slot) == filed(self.slots).contains_key(slot));
            match &self.pairs[slot] {
                Some(pair) => {
                    let entry: (K, V) = (pair.0.clone_to_list(), pair.1.clone());
                    let key: K = entry.0.clone_to_list();
                    let value: V = entry.1.clone();
                    proof {
                        assert(pair.0.cloned_as(&entry.0) && entry.0.cloned_as(&key));
                        assert(pair.1.cloned_as(&entry.1) && entry.1.cloned_as(&value));
                        order = order.push(slot);
                        pairs = pairs.push((key, value));
                        assert forall|other: usize|
                            other <= slot && #[trigger] records.contains_key(
                                other,
                            ) implies order.contains(other) by {
                            if other < slot {
                                let i = choose|i: int|
                                    0 <= i < listed.len() && listed[i] == other;
                                assert(order[i] == other);
                            } else {
                                assert(order[listed.len() as int] == other);
                            }
                        }
                    }
                    buffer.push((key, value));
                },
                None => {},
            }
            slot = slot + 1;
        }
        assert forall|other: usize| #[trigger] records.contains_key(other) implies other
            < self.pairs@.len() by {
            assert(filed(self.slots).contains_key(other));
        }
        assert(order.to_set() =~= records.dom());
        assert(lists(records, pairs));
    }
}

} // verus!
