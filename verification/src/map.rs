//! The map: shards behind locks, and the way from a key to its shard.
use crate::guard::{guarded, guarded_mut, new_lock, read_lock, released, share, write_lock};
use crate::hash::make_hash;
use crate::key::{hash_of, IKey};
use crate::lock::{all_apart, found_behind, lends, let_go, made_around};
use crate::records::{answered, inserted, lists, removed, Record};
use crate::rights::{Adds, Lists, Removes};
use crate::shard::ticket::{insertion, removal, Ticket};
use crate::shard::{referred, Shard};
use crate::sizing::{
    law_shard_count, lemma_power_of_two_stays, lemma_wrapping_sum, round_shards, shard_count,
    MAX_SHARDS,
};
use crate::state::{
    all_listed, bin_of, clone_of, contents, keys_of, listed_in_parts, total_len,
};
use parking_lot::RwLock;
use std::collections::VecDeque;
use std::hash::Hash;
use std::sync::Arc;
use vstd::arithmetic::div_mod::lemma_small_mod;
use vstd::prelude::*;

verus! {

/// HashMap is a sharded hashmap which uses `N` buckets,
/// each protected with an Read/Write lock. `N` gets
/// rounded up to the nearest power of two.
#[verifier::reject_recursive_types(K)]
#[verifier::reject_recursive_types(V)]
pub struct HashMap<K, V, const N: usize> {
    shards: Vec<Arc<RwLock<Shard<K, V>>>>,
    shards_size: u64,
}

impl<K, V, const N: usize> HashMap<K, V, N> {
    #[verifier::type_invariant]
    spec fn shards_wf(self) -> bool {
        &&& self.shards@.len() == shard_count(N as nat)
        &&& self.shards_size == self.shards@.len()
        &&& self.shards_size >= 1
        &&& all_apart(self.shards@)
    }

    /// The locks of the shards.
    pub closed spec fn locks(&self) -> Seq<Arc<RwLock<Shard<K, V>>>> {
        self.shards@
    }
}

/// Whether readers of the locks, one after the other, may have found the shards `seen`.
pub open spec fn all_found<K, V>(
    locks: Seq<Arc<RwLock<Shard<K, V>>>>,
    seen: Seq<Shard<K, V>>,
) -> bool {
    &&& seen.len() == locks.len()
    &&& forall|i: int| 0 <= i < locks.len() ==> found_behind(*locks[i], #[trigger] seen[i])
}

/// Whether a shard without pairs is behind each of the locks when it is made.
pub open spec fn made_empty<K, V>(locks: Seq<Arc<RwLock<Shard<K, V>>>>) -> bool {
    forall|i: int| 0 <= i < locks.len() ==> made_around_nothing(*#[trigger] locks[i])
}

/// Whether `lock` may have been made around a shard without pairs.
pub open spec fn made_around_nothing<K, V>(lock: RwLock<Shard<K, V>>) -> bool {
    exists|shard: Shard<K, V>| #[trigger]
        made_around(lock, shard) && shard@ == Map::<usize, Record<K, V>>::empty()
}

/// Where the locks are different ones, a lock is that of exactly the keys whose hash picks
/// its place.
pub proof fn law_lock_of_its_keys<K: IKey<K>, V>(
    locks: Seq<Arc<RwLock<Shard<K, V>>>>,
    key: K,
    i: int,
)
    requires
        all_apart(locks),
        0 <= i < locks.len(),
    ensures
        *locks[i] == *locks[bin_of(hash_of(key), locks.len())] <==> bin_of(
            hash_of(key),
            locks.len(),
        ) == i,
{
    let bin = bin_of(hash_of(key), locks.len());
    assert(0 <= bin < locks.len());
    if bin < i {
        assert(*locks[bin] != *locks[i]);
    } else if i < bin {
        assert(*locks[i] != *locks[bin]);
    }
}

impl<K: Clone + Send + Sync, V: Clone + Send + Sync, const N: usize> Default for HashMap<K, V, N> {
    /// An instance with `N` shards, rounded as for [`HashMap::new`]; where no power of two
    /// that a `usize` holds reaches `N`, the largest is taken.
    fn default() -> (map: Self)
        ensures
            map.locks().len() == shard_count(N as nat),
            made_empty(map.locks()),
            all_apart(map.locks()),
    {
        Self::build(round_shards(N))
    }
}

impl<'a, K: Send + Sync, V: Send + Sync, const N: usize> HashMap<K, V, N> {
    /// The lock of the shard that takes `key`.
    pub open spec fn lock_of(&self, key: K) -> RwLock<Shard<K, V>> where K: IKey<K> {
        *self.locks()[bin_of(hash_of(key), self.locks().len())]
    }

    /// new returns an instance with `N` shards.
    /// `N` gets rounded up to the nearest power of two.
    pub fn new() -> (map: Self)
        requires
            N <= MAX_SHARDS,
        ensures
            map.locks().len() == shard_count(N as nat),
            made_empty(map.locks()),
            all_apart(map.locks()),
    {
        Self::with_shard(round_shards(N))
    }

    /// new_arc returns a new instance contained in
    /// an arc pointer.
    pub fn new_arc() -> (map: Arc<Self>)
        requires
            N <= MAX_SHARDS,
        ensures
            map.locks().len() == shard_count(N as nat),
            made_empty(map.locks()),
            all_apart(map.locks()),
    {
        Arc::new(Self::new())
    }

    /// with_shard returns a new instance with `N` shards.
    /// `N` gets rounded up to the nearest power of two;
    /// `shards_size` is `N`, rounded or not.
    pub fn with_shard(shards_size: usize) -> (map: Self)
        requires
            N <= MAX_SHARDS,
            shards_size == N || shards_size == shard_count(N as nat),
        ensures
            map.locks().len() == shard_count(N as nat),
            made_empty(map.locks()),
            all_apart(map.locks()),
    {
        proof {
            law_shard_count(N as nat);
            lemma_power_of_two_stays(shard_count(N as nat));
        }
        Self::build(round_shards(shards_size))
    }

    /// A map with `count` shards, each without pairs.
    fn build(count: usize) -> (map: Self)
        requires
            count == shard_count(N as nat),
            count >= 1,
        ensures
            map.locks().len() == count,
            made_empty(map.locks()),
            all_apart(map.locks()),
    {
        let mut shards: Vec<Arc<RwLock<Shard<K, V>>>> = Vec::new();
        while shards.len() < count
            invariant
                shards@.len() <= count,
                made_empty(shards@),
                all_apart(shards@),
            decreases count - shards@.len(),
        {
            let ghost made = shards@;
            let shard: Shard<K, V> = Shard::with_capacity(count);
            let ghost empty = shard;
            let lock: RwLock<Shard<K, V>> = new_lock(shard, &shards);
            assert(made_around(lock, empty));
            assert(made_around_nothing(lock));
            shards.push(Arc::new(lock));
            assert forall|i: int| 0 <= i < shards@.len() implies made_around_nothing(
                *#[trigger] shards@[i],
            ) by {
                if i < made.len() {
                    assert(shards@[i] == made[i]);
                }
            }
        }
        HashMap { shards, shards_size: count as u64 }
    }

    /// get_shard returns the shard lock along with
    /// its hash.
    pub fn get_shard(&'a self, key: K) -> (located: (&'a Arc<RwLock<Shard<K, V>>>, u64)) where
        K: Hash + Eq + IKey<K>,
        V: Clone,

        ensures
            self.locks().len() == shard_count(N as nat),
            **located.0 == self.lock_of(key),
            located.1 == hash_of(key),
            all_apart(self.locks()),
    {
        proof {
            use_type_invariant(self);
        }
        self.locate(&key)
    }

    /// The lock of the shard that takes `key`, and the hash of `key`.
    fn locate(&'a self, key: &K) -> (located: (&'a Arc<RwLock<Shard<K, V>>>, u64)) where
        K: IKey<K>,

        ensures
            self.locks().len() == shard_count(N as nat),
            **located.0 == self.lock_of(*key),
            located.1 == hash_of(*key),
    {
        proof {
            use_type_invariant(self);
        }
        let hash: u64 = make_hash(key.as_bytes());
        let bin: u64 = hash % self.shards_size;
        assert(bin < self.shards.len());
        (&self.shards[bin as usize], hash)
    }

    /// get_owned returns the cloned value associated
    /// with the given `key`.
    pub fn get_owned(&'a self, key: K) -> (owned: Option<V>) where
        K: Hash + Eq + IKey<K>,
        V: Clone,

        ensures
            exists|shard: Shard<K, V>, answer: Option<V>|
                #[trigger] found_behind(self.lock_of(key), shard) && #[trigger] answered(
                    shard@,
                    key,
                    hash_of(key),
                    answer,
                ) && clone_of(answer, owned),
    {
        let (lock, hash) = self.locate(&key);
        let guard = read_lock(&**lock);
        let shard: &Shard<K, V> = guarded(&guard);
        assert(found_behind(self.lock_of(key), *shard));
        let found: Option<&V> = shard.get(&key, hash);
        let owned: Option<V> = match found {
            Some(result) => Some(result.clone()),
            None => None,
        };
        assert(clone_of(referred(found), owned));
        owned
    }

    /// insert inserts the given `key`, `value`
    /// pair into a shard based on the hash value
    /// of `key`.
    pub fn insert(&self, key: K, value: V) where K: Hash + Eq + IKey<K> + Adds
        ensures
            exists|ticket: Ticket<K, V>, guard: &mut _, shard: &mut Shard<K, V>|
                #[trigger] call_ensures(write_lock::<K, V>, (&self.lock_of(key), ticket), *guard)
                    && #[trigger] lends(guard, shard) && let_go(*final(guard)) && inserted(
                    shard@,
                    final(shard)@,
                    key,
                    hash_of(key),
                    value,
                ),
    {
        let (lock, hash) = self.locate(&key);
        let (ticket, parcel) = insertion::<K, V>(value);
        let ghost entry = (ticket, parcel);
        let mut guard = write_lock(&**lock, ticket);
        let shard: &mut Shard<K, V> = guarded_mut(&mut guard);
        let ghost lent = shard;
        shard.insert_parcel(&key, hash, parcel);
        released(guard);
        proof {
            let held = choose|held: &mut _|
                call_ensures(write_lock::<K, V>, (&self.lock_of(key), entry.0), *held)
                    && #[trigger] call_ensures(guarded_mut::<K, V, _>, (held,), lent) && let_go(
                    *final(held),
                );
            assert(lends(held, lent));
        }
    }

    /// remove removes the entry associated with `key`
    /// from the corresponding shard.
    pub fn remove(&self, key: K) -> (gone: Option<V>) where K: Hash + Eq + IKey<K> + Removes
        ensures
            exists|ticket: Ticket<K, V>, guard: &mut _, shard: &mut Shard<K, V>|
                #[trigger] call_ensures(write_lock::<K, V>, (&self.lock_of(key), ticket), *guard)
                    && #[trigger] lends(guard, shard) && let_go(*final(guard)) && removed(
                    shard@,
                    final(shard)@,
                    key,
                    hash_of(key),
                    gone,
                ),
    {
        let (lock, hash) = self.locate(&key);
        let (ticket, parcel) = removal::<K, V>(key);
        let ghost entry = (ticket, parcel);
        let mut guard = write_lock(&**lock, ticket);
        let shard: &mut Shard<K, V> = guarded_mut(&mut guard);
        let ghost lent = shard;
        let gone: Option<V> = shard.remove(parcel.shown(), hash);
        released(guard);
        proof {
            let held = choose|held: &mut _|
                call_ensures(write_lock::<K, V>, (&self.lock_of(key), entry.0), *held)
                    && #[trigger] call_ensures(guarded_mut::<K, V, _>, (held,), lent) && let_go(
                    *final(held),
                );
            assert(lends(held, lent));
        }
        gone
    }

    /// contains returns whether any entry is
    /// associated with the given `key`.
    pub fn contains(&self, key: K) -> (contained: bool) where K: Hash + Eq + IKey<K>
        ensures
            exists|shard: Shard<K, V>, answer: Option<V>|
                #[trigger] found_behind(self.lock_of(key), shard) && #[trigger] answered(
                    shard@,
                    key,
                    hash_of(key),
                    answer,
                ) && contained == answer is Some,
    {
        let (lock, hash) = self.locate(&key);
        let guard = read_lock(&**lock);
        let shard: &Shard<K, V> = guarded(&guard);
        assert(found_behind(self.lock_of(key), *shard));
        let found: Option<&V> = shard.get(&key, hash);
        let contained: bool = match found {
            Some(_) => true,
            None => false,
        };
        assert(contained == referred(found) is Some);
        contained
    }

    /// len returns the sum of total number of all entries
    /// stored in each shard table. The sum wraps around.
    pub fn len(&self) -> (count: usize)
        ensures
            exists|seen: Seq<Shard<K, V>>| #[trigger]
                all_found(self.locks(), seen) && count == total_len(contents(seen)) % (
                usize::MAX as nat + 1),
    {
        let ghost mut seen: Seq<Shard<K, V>> = Seq::empty();
        let mut count: usize = 0;
        let mut i: usize = 0;
        assert(total_len(contents(seen)) % (usize::MAX as nat + 1) == 0) by {
            lemma_small_mod(0, usize::MAX as nat + 1);
        }
        while i < self.shards.len()
            invariant
                i <= self.shards@.len(),
                all_found(self.locks().take(i as int), seen),
                count == total_len(contents(seen)) % (usize::MAX as nat + 1),
            decreases self.shards@.len() - i,
        {
            let guard = read_lock(&*self.shards[i]);
            let shard: &Shard<K, V> = guarded(&guard);
            assert(found_behind(*self.locks()[i as int], *shard));
            let shard_len: usize = shard.len();
            proof {
                let before = seen;
                seen = seen.push(*shard);
                assert(contents(seen).drop_last() =~= contents(before));
                lemma_wrapping_sum(total_len(contents(before)), shard_len);
            }
            count = count.wrapping_add(shard_len);
            i = i + 1;
        }
        assert(self.locks().take(i as int) =~= self.locks());
        count
    }

    /// pairs returns clones of all key/value pairs.
    pub fn pairs(&self) -> (pairs: Vec<(K, V)>) where K: Lists, V: Clone
        ensures
            exists|seen: Seq<Shard<K, V>>| #[trigger]
                all_found(self.locks(), seen) && all_listed(contents(seen), pairs@),
    {
        let ghost mut seen: Seq<Shard<K, V>> = Seq::empty();
        let ghost mut parts: Seq<Seq<(K, V)>> = Seq::empty();
        let mut pairs: Vec<(K, V)> = Vec::new();
        let mut i: usize = 0;
        while i < self.shards.len()
            invariant
                i <= self.shards@.len(),
                all_found(self.locks().take(i as int), seen),
                listed_in_parts(contents(seen), parts),
                pairs@ == parts.flatten(),
            decreases self.shards@.len() - i,
        {
            let ghost listed = pairs@;
            let guard = read_lock(&*self.shards[i]);
            let shard: &Shard<K, V> = guarded(&guard);
            assert(found_behind(*self.locks()[i as int], *shard));
            shard.fill_pairs_into(&mut pairs);
            proof {
                let rest = choose|rest: Seq<(K, V)>| #[trigger]
                    lists(shard@, rest) && pairs@ == listed + rest;
                seen = seen.push(*shard);
                parts.lemma_flatten_push(rest);
                parts = parts.push(rest);
            }
            i = i + 1;
        }
        assert(self.locks().take(i as int) =~= self.locks());
        assert(all_listed(contents(seen), pairs@));
        pairs
    }

    /// keys returns clones of all keys.
    pub fn keys(&self) -> (keys: Vec<K>) where K: Lists, V: Clone
        ensures
            exists|seen: Seq<Shard<K, V>>, pairs: Seq<(K, V)>|
                #[trigger] all_found(self.locks(), seen) && #[trigger] all_listed(
                    contents(seen),
                    pairs,
                ) && keys_of(pairs, keys@),
    {
        let pairs: Vec<(K, V)> = self.pairs();
        let mut keys: Vec<K> = Vec::new();
        let mut i: usize = 0;
        while i < pairs.len()
            invariant
                i <= pairs@.len(),
                keys_of(pairs@.take(i as int), keys@),
            decreases pairs@.len() - i,
        {
            keys.push(pairs[i].0.clone_to_list());
            i = i + 1;
        }
        assert(pairs@.take(i as int) =~= pairs@);
        keys
    }

    /// into_iter creates an iterator for shards.
    pub fn into_iter(&self) -> (iter: IntoIter<K, V>)
        ensures
            iter.to_come() == self.locks(),
            iter.item() is None,
            self.locks().len() == shard_count(N as nat),
            all_apart(self.locks()),
    {
        proof {
            use_type_invariant(self);
        }
        let mut shards: VecDeque<Arc<RwLock<Shard<K, V>>>> = VecDeque::with_capacity(
            self.shards.len(),
        );
        let mut i: usize = 0;
        while i < self.shards.len()
            invariant
                i <= self.shards@.len(),
                shards@ == self.shards@.take(i as int),
            decreases self.shards@.len() - i,
        {
            shards.push_back(share(&self.shards[i]));
            i = i + 1;
        }
        let iter = IntoIter { shards, item: None };
        assert(iter.to_come() =~= self.locks());
        iter
    }
}

/// IntoIter creates an iterator for shards.
#[verifier::reject_recursive_types(K)]
#[verifier::reject_recursive_types(V)]
pub struct IntoIter<K, V> {
    shards: VecDeque<Arc<RwLock<Shard<K, V>>>>,
    item: Option<Arc<RwLock<Shard<K, V>>>>,
}

impl<K, V> IntoIter<K, V> {
    /// The locks that are still to come.
    pub closed spec fn to_come(&self) -> Seq<Arc<RwLock<Shard<K, V>>>> {
        self.shards@
    }

    /// The lock that came last.
    pub closed spec fn item(&self) -> Option<Arc<RwLock<Shard<K, V>>>> {
        self.item
    }
}

impl<K, V> Iterator for IntoIter<K, V> {
    type Item = Arc<RwLock<Shard<K, V>>>;

    /// As many locks are still to come as the first number says.
    fn size_hint(&self) -> (hint: (usize, Option<usize>))
        ensures
            hint.0 == self.to_come().len(),
            hint.1 is None,
    {
        (self.shards.len(), None)
    }

    /// The next lock, or nothing once all have come.
    fn next(&mut self) -> (next: Option<Arc<RwLock<Shard<K, V>>>>)
        ensures
            match next {
                Some(lock) => {
                    &&& old(self).to_come().len() > 0
                    &&& lock == old(self).to_come()[0]
                    &&& final(self).to_come() == old(self).to_come().drop_first()
                },
                None => {
                    &&& old(self).to_come().len() == 0
                    &&& final(self).to_come() == old(self).to_come()
                },
            },
            final(self).item() == next,
    {
        match self.shards.pop_front() {
            Some(next) => {
                assert(self.to_come() =~= old(self).to_come().drop_first());
                self.item = Some(share(&next));
                Some(next)
            },
            None => {
                self.item = None;
                None
            },
        }
    }
}

impl<K, V> vstd::std_specs::iter::IteratorSpecImpl for IntoIter<K, V> {
    open spec fn obeys_prophetic_iter_laws(&self) -> bool {
        true
    }

    open spec fn remaining(&self) -> Seq<Arc<RwLock<Shard<K, V>>>> {
        self.to_come()
    }

    open spec fn will_return_none(&self) -> bool {
        true
    }

    open spec fn decrease(&self) -> Option<nat> {
        Some(self.to_come().len())
    }

    open spec fn initial_value_relation(&self, init: &Self) -> bool {
        self.to_come() == init.to_come()
    }

    open spec fn peek(&self, index: int) -> Option<Arc<RwLock<Shard<K, V>>>> {
        if 0 <= index < self.to_come().len() {
            Some(self.to_come()[index])
        } else {
            None
        }
    }
}

} // verus!
