//! A concurrent hash map: the pairs are spread over shards, and each shard is protected by a
//! reader/writer lock of its own.
//!
//! What a shard holds is modelled in [`records`], what a whole map holds in [`state`]. The
//! operations of [`HashMap`] say which lock they take and what they do to the shard behind
//! it, whatever other threads left there; [`laws`] and [`runs`] say what follows for the map,
//! and [`calls`] what follows for calls of its operations.
//!
//! An operation writes only where its signature asks for the right to. Taking a lock for
//! writing uses up a ticket, and a ticket costs the value that is to be inserted or the key
//! that is to be removed: so an insertion and a removal take the lock for writing once each,
//! and no other operation takes one for writing at all.
pub mod calls;
mod guard;
pub mod hash;
pub mod key;
pub mod laws;
pub mod lock;
pub mod map;
pub mod records;
mod rights;
pub mod runs;
pub mod shard;
pub mod sizing;
pub mod slots;
pub mod state;
mod table;

pub use crate::key::{IKey, Key};
pub use crate::map::{HashMap, IntoIter};
pub use crate::shard::Shard;
