//! Tickets for writing: a lock is taken for writing once for each, and a ticket costs the
//! value that is to be inserted or the key that is to be removed.
use crate::rights::{Adds, Removes};
use std::marker::PhantomData;
use vstd::prelude::*;

verus! {

/// A ticket to take the lock of a shard for writing, once.
pub struct Ticket<K, V> {
    holder: PhantomData<(K, V)>,
}

/// What a ticket was had for. It can be looked at, but only a shard can take it out.
pub struct Parcel<T> {
    inside: T,
}

impl<T> Parcel<T> {
    /// What is in the parcel.
    pub closed spec fn contents(&self) -> T {
        self.inside
    }

    /// Shows what is in the parcel.
    pub fn shown(&self) -> (inside: &T)
        ensures
            *inside == self.contents(),
    {
        &self.inside
    }

    /// Takes out what is in the parcel.
    pub(super) fn opened(self) -> (inside: T)
        ensures
            inside == self.contents(),
    {
        self.inside
    }
}

/// A ticket for the insertion of `value`, which can then only be inserted.
pub fn insertion<K: Adds, V>(value: V) -> (entry: (Ticket<K, V>, Parcel<V>))
    ensures
        entry.1.contents() == value,
{
    (Ticket { holder: PhantomData }, Parcel { inside: value })
}

/// A ticket for the removal of `key`, which can then only be looked at.
pub fn removal<K: Removes, V>(key: K) -> (entry: (Ticket<K, V>, Parcel<K>))
    ensures
        entry.1.contents() == key,
{
    (Ticket { holder: PhantomData }, Parcel { inside: key })
}

} // verus!
