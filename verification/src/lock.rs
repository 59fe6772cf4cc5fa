//! The reader/writer lock around a shard.
//!
//! What is behind a lock depends on what other threads do, so no contract can say what a call
//! that takes one will find. What can be said is that what was found came from that lock, and
//! that what was left went back behind it: [`found_behind`] relates a lock to the shard that a
//! reader found, [`lends`] and [`let_go`] relate the guard of a lock that is held for writing
//! to the shard that it lends and to what is left when the lock is let go.
use crate::guard::{guarded, guarded_mut, new_lock, read_lock, released};
use crate::shard::Shard;
use parking_lot::{lock_api, RawRwLock, RwLock};
use std::ops::DerefMut;
use std::sync::Arc;
use vstd::prelude::*;

verus! {

/// `parking_lot::RawRwLock`, of which nothing is known.
#[verifier::external_type_specification]
#[verifier::external_body]
pub struct ExRawRwLock(RawRwLock);

/// `parking_lot::lock_api::RwLock`, which `parking_lot::RwLock` is a case of. What it
/// guards may change whenever it is not held, so nothing is known of it.
#[verifier::external_type_specification]
#[verifier::external_body]
#[verifier::reject_recursive_types(R)]
#[verifier::reject_recursive_types(T)]
pub struct ExRwLock<R, T: ?Sized>(lock_api::RwLock<R, T>);

/// Whether the locks are different ones.
pub open spec fn all_apart<K, V>(locks: Seq<Arc<RwLock<Shard<K, V>>>>) -> bool {
    forall|i: int, j: int|
        0 <= i < j < locks.len() ==> *#[trigger] locks[i] != *#[trigger] locks[j]
}

/// Whether `lock` may have been made around `shard`.
pub open spec fn made_around<K, V>(lock: RwLock<Shard<K, V>>, shard: Shard<K, V>) -> bool {
    exists|made: Vec<Arc<RwLock<Shard<K, V>>>>| #[trigger]
        call_ensures(new_lock::<K, V>, (shard, &made), lock)
}

/// Whether one who took `lock` for reading may have found `shard` behind it.
pub open spec fn found_behind<K, V>(lock: RwLock<Shard<K, V>>, shard: Shard<K, V>) -> bool {
    exists|guard|
        call_ensures(read_lock::<K, V>, (&lock,), guard) && #[trigger] call_ensures(
            guarded::<K, V, _>,
            (&guard,),
            &shard,
        )
}

/// Whether the guard of a lock that is held for writing may have lent `shard`: what is
/// referred to was behind the lock, and what it is in the end is what the guard then guards.
pub open spec fn lends<K, V, G: DerefMut<Target = Shard<K, V>>>(
    guard: &mut G,
    shard: &mut Shard<K, V>,
) -> bool {
    call_ensures(guarded_mut::<K, V, G>, (guard,), shard)
}

/// Whether the lock may have been let go with `guard` as its guard, so that what it guarded
/// was left behind the lock.
pub open spec fn let_go<G>(guard: G) -> bool {
    call_ensures(released::<G>, (guard,), ())
}

} // verus!
