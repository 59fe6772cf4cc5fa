//! What an operation may do with keys.
//!
//! Every key type that can be cloned has all of these rights. An operation asks for those
//! that it needs and has no others: one that asks for none of them cannot write to a shard,
//! and one that asks for the right to add can do nothing but add.
use vstd::prelude::*;

verus! {

/// Values of which there may be clones.
pub trait Cloneable: Sized {
    /// Whether `copy` may be a clone of this value.
    spec fn cloned_as(&self, copy: &Self) -> bool;
}

impl<T: Clone> Cloneable for T {
    open spec fn cloned_as(&self, copy: &Self) -> bool {
        cloned(*self, *copy)
    }
}

/// The right to add pairs with keys of this type, and so to clone a key for the table.
pub trait Adds: Cloneable {
    fn clone_to_add(&self) -> (copy: Self)
        ensures
            self.cloned_as(&copy),
    ;
}

impl<T: Clone> Adds for T {
    fn clone_to_add(&self) -> (copy: Self) {
        self.clone()
    }
}

/// The right to list keys of this type, and so to clone them for the list.
pub trait Lists: Cloneable {
    fn clone_to_list(&self) -> (copy: Self)
        ensures
            self.cloned_as(&copy),
    ;
}

impl<T: Clone> Lists for T {
    fn clone_to_list(&self) -> (copy: Self) {
        self.clone()
    }
}

/// The right to remove pairs with keys of this type.
pub trait Removes: Cloneable {
}

impl<T: Clone> Removes for T {
}

} // verus!
