//! Making, taking and letting go of the locks around shards.
use crate::shard::ticket::Ticket;
use crate::shard::Shard;
use parking_lot::RwLock;
use std::ops::{Deref, DerefMut};
use std::sync::Arc;
use vstd::prelude::*;

verus! {

/// Calls `parking_lot::RwLock::new`. Trusted: the lock is a new one, and so none of those
/// in `made`, which exist already. Nothing is claimed of what will be found behind it.
#[verifier::external_body]
pub fn new_lock<K, V>(
    shard: Shard<K, V>,
    made: &Vec<Arc<RwLock<Shard<K, V>>>>,
) -> (lock: RwLock<Shard<K, V>>)
    ensures
        forall|i: int| 0 <= i < made@.len() ==> *#[trigger] made@[i] != lock,
{
    RwLock::new(shard)
}

/// Calls `parking_lot::RwLock::read`. Nothing is claimed of the guard: what it lets read is
/// whatever the last writer left.
#[verifier::external_body]
pub fn read_lock<'a, K, V>(lock: &'a RwLock<Shard<K, V>>) -> (guard: impl Deref<
    Target = Shard<K, V>,
> + 'a) {
    lock.read()
}

/// Calls `parking_lot::RwLock::write`, for one ticket. Nothing is claimed of the guard: what
/// it lets read and write is whatever the last writer left.
#[verifier::external_body]
pub fn write_lock<'a, K, V>(
    lock: &'a RwLock<Shard<K, V>>,
    ticket: Ticket<K, V>,
) -> (guard: impl DerefMut<Target = Shard<K, V>> + 'a) {
    lock.write()
}

/// The shard that the guard lets read: what the guard's own `deref` gives.
pub fn guarded<K, V, G: Deref<Target = Shard<K, V>>>(guard: &G) -> (shard: &Shard<K, V>)
    ensures
        call_ensures(<G as Deref>::deref, (guard,), shard),
{
    guard.deref()
}

/// The shard that the guard lets write: what the guard's own `deref_mut` lends, for as long
/// as the guard itself is lent.
pub fn guarded_mut<K, V, G: DerefMut<Target = Shard<K, V>>>(guard: &mut G) -> (shard:
    &mut Shard<K, V>)
    ensures
        exists|lent: &mut G| #[trigger]
            call_ensures(<G as DerefMut>::deref_mut, (lent,), shard) && *lent == *old(guard)
                && *final(lent) == *final(guard),
{
    guard.deref_mut()
}

/// Lets go of a lock, by dropping its guard.
pub fn released<G>(guard: G) {
}

/// Calls `Arc::clone`. Trusted: the clone points to what the original points to.
#[verifier::external_body]
pub fn share<T>(pointer: &Arc<T>) -> (clone: Arc<T>)
    ensures
        clone == *pointer,
{
    Arc::clone(pointer)
}

} // verus!
