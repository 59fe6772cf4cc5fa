//! One shard of a map: a table of key/value pairs.
use crate::key::{hash_of, lawful_equality, lawful_keys, IKey};
use crate::records::{
    answered, found_at, inserted, law_answer_is_lookup, law_inserted, law_removed, lists, lookup,
    removed, stored, value_at, well_kept, Record,
};
use crate::rights::{Adds, Lists, Removes};
use crate::shard::ticket::Parcel;
use crate::table::Table;
use std::hash::Hash;
use vstd::prelude::*;
use vstd::string::*;

pub(crate) mod ticket;

verus! {

/// Shard embeds a table that contains key/value pair.
pub struct Shard<K, V> {
    table: Table<K, V>,
}

impl<K, V> View for Shard<K, V> {
    type V = Map<usize, Record<K, V>>;

    closed spec fn view(&self) -> Map<usize, Record<K, V>> {
        self.table.records()
    }
}

/// The value behind the reference.
pub open spec fn referred<V>(found: Option<&V>) -> Option<V> {
    match found {
        Some(value) => Some(*value),
        None => None,
    }
}

impl<K, V> Shard<K, V> {
    #[verifier::type_invariant]
    spec fn table_wf(self) -> bool {
        self.table.wf()
    }

    /// A shard without pairs, whose hash table has room for `capacity` of them where that
    /// much can be had.
    pub fn with_capacity(capacity: usize) -> (shard: Self)
        ensures
            shard@ == Map::<usize, Record<K, V>>::empty(),
    {
        Shard { table: Table::with_capacity(capacity) }
    }
}

impl<K: Send + Sync, V: Send + Sync> Shard<K, V> {
    /// get fetches a option containing a reference to the
    /// value associated with the given key.
    pub fn get<'a>(&'a self, key: &K, hash: u64) -> (found: Option<&'a V>) where
        K: Hash + Eq + IKey<K>,

        ensures
            answered(self@, *key, hash, referred(found)),
            lawful_equality::<K>() && well_kept(self@) && hash == hash_of(*key) ==> referred(found)
                == lookup(self@, *key),
    {
        proof {
            use_type_invariant(self);
        }
        let slot: Option<usize> = self.table.find(key, hash);
        let found = match slot {
            Some(at) => Some(self.table.value(at)),
            None => None,
        };
        proof {
            assert(found_at(self@, *key, hash, slot) && referred(found) == value_at(self@, slot));
            if lawful_equality::<K>() && well_kept(self@) && hash == hash_of(*key) {
                law_answer_is_lookup(self@, *key, referred(found));
            }
        }
        found
    }

    /// insert inserts the given key/value pair into the table.
    /// Before the table grows, the keys in it are asked for their
    /// bytes; one that panics leaves the shard as it was.
    pub fn insert(&mut self, key: &K, hash: u64, value: V) where
        K: Hash + Eq + IKey<K> + Adds,

        ensures
            inserted(old(self)@, final(self)@, *key, hash, value),
            lawful_keys::<K>() && well_kept(old(self)@) && hash == hash_of(*key) ==> {
                &&& well_kept(final(self)@)
                &&& forall|other: K| #[trigger]
                    lookup(final(self)@, other) == (if other.same_key(key) {
                        Some(value)
                    } else {
                        lookup(old(self)@, other)
                    })
            },
    {
        proof {
            use_type_invariant(&*self);
        }
        let ghost before = self@;
        let slot: Option<usize> = self.table.find(key, hash);
        let mut table: Table<K, V> = Table::with_capacity(0);
        match slot {
            Some(at) => {
                std::mem::swap(&mut table, &mut self.table);
                let _replaced: V = table.replace(at, value);
                self.table = table;
            },
            None => {
                let owned: K = key.clone_to_add();
                std::mem::swap(&mut table, &mut self.table);
                let back: Option<(K, V)> = table.put_in_room(hash, owned, value);
                self.table = table;
                if let Some((owned, value)) = back {
                    let hashes: Vec<u64> = self.table.hashes();
                    let mut grown: Table<K, V> = Table::with_capacity(0);
                    std::mem::swap(&mut grown, &mut self.table);
                    grown.put(hash, owned, value, &hashes);
                    self.table = grown;
                }
            },
        }
        proof {
            assert(found_at(before, *key, hash, slot) && stored(
                before,
                self@,
                slot,
                *key,
                hash,
                value,
            ));
            if lawful_keys::<K>() && well_kept(before) && hash == hash_of(*key) {
                law_inserted(before, self@, *key, value);
            }
        }
    }

    /// Inserts the pair of `key` and what is in the parcel.
    pub(crate) fn insert_parcel(&mut self, key: &K, hash: u64, parcel: Parcel<V>) where
        K: Hash + Eq + IKey<K> + Adds,

        ensures
            inserted(old(self)@, final(self)@, *key, hash, parcel.contents()),
    {
        self.insert(key, hash, parcel.opened())
    }

    /// remove remove the entry associated with `key` and `hash`
    /// from the table.
    pub fn remove(&mut self, key: &K, hash: u64) -> (gone: Option<V>) where
        K: Hash + Eq + IKey<K> + Removes,

        ensures
            removed(old(self)@, final(self)@, *key, hash, gone),
            lawful_equality::<K>() && well_kept(old(self)@) && hash == hash_of(*key) ==> {
                &&& well_kept(final(self)@)
                &&& gone == lookup(old(self)@, *key)
                &&& forall|other: K| #[trigger]
                    lookup(final(self)@, other) == (if other.same_key(key) {
                        None
                    } else {
                        lookup(old(self)@, other)
                    })
            },
    {
        proof {
            use_type_invariant(&*self);
        }
        let ghost before = self@;
        let slot: Option<usize> = self.table.find(key, hash);
        let gone: Option<V> = match slot {
            Some(at) => {
                let mut table: Table<K, V> = Table::with_capacity(0);
                std::mem::swap(&mut table, &mut self.table);
                let taken: (K, V) = table.take(at, hash);
                self.table = table;
                Some(taken.1)
            },
            None => None,
        };
        proof {
            assert(found_at(before, *key, hash, slot));
            assert(removed(before, self@, *key, hash, gone));
            if lawful_equality::<K>() && well_kept(before) && hash == hash_of(*key) {
                law_removed(before, self@, *key, gone);
            }
        }
        gone
    }

    /// fil_pairs_into fills the `buffer` with cloned entries
    /// of key/value pairs.
    pub fn fill_pairs_into(&self, buffer: &mut Vec<(K, V)>) where K: Lists, V: Clone
        ensures
            exists|pairs: Seq<(K, V)>| #[trigger]
                lists(self@, pairs) && final(buffer)@ == old(buffer)@ + pairs,
    {
        proof {
            use_type_invariant(self);
        }
        self.table.clone_into(buffer);
        proof {
            let pairs = choose|pairs: Seq<(K, V)>| #[trigger]
                lists(self.table.records(), pairs) && buffer@ == old(buffer)@ + pairs;
            assert(lists(self@, pairs));
        }
    }

    /// len returns the length of the table.
    pub fn len(&self) -> (count: usize)
        ensures
            count == self@.dom().len(),
    {
        self.table.len()
    }
}

/// The decimal digits of `number`.
pub open spec fn decimal(number: nat) -> Seq<char>
    decreases number,
{
    let digit: char = (48 + number % 10) as char;
    if number < 10 {
        seq![digit]
    } else {
        decimal(number / 10).push(digit)
    }
}

/// Calls `usize::to_string`. Trusted: the text is the number in decimal.
#[verifier::external_body]
fn decimal_string(number: usize) -> (text: String)
    ensures
        text@ == decimal(number as nat),
{
    number.to_string()
}

impl<K, V> Shard<K, V> {
    /// The shard as it is shown for debugging: how many pairs its table holds.
    pub fn debug_string(&self) -> (text: String)
        ensures
            text@ == "Shard{table: ["@ + decimal(self@.dom().len()) + "]}"@,
    {
        let mut text: String = "Shard{table: [".to_owned();
        let count: String = decimal_string(self.table.len());
        text.append(count.as_str());
        text.append("]}");
        text
    }
}

} // verus!
