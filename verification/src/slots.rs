//! The hash table under a shard: `hashbrown`'s raw table, filled with slot numbers.
use hashbrown::raw::RawTable;
use vstd::prelude::*;

verus! {

/// The most slot numbers that a new table can be asked to have room for.
pub const MAX_ROOM: usize = usize::MAX / 64;

/// A `hashbrown::raw::RawTable` of slot numbers, each filed under a hash.
#[verifier::external_body]
pub struct SlotTable {
    raw: RawTable<usize>,
}

/// What the table holds: each slot number in it, with the hash that it is filed under.
pub uninterp spec fn filed(table: SlotTable) -> Map<usize, u64>;

/// The slot numbers in the table that a search under `hash` comes by: all that are filed
/// under it, and others that the table cannot tell from them.
pub uninterp spec fn shown(table: SlotTable, hash: u64) -> Set<usize>;

/// Either every slot number of `before` is still filed as it was, or every one of them is
/// filed under what `hasher` says of it.
pub open spec fn kept_or_refiled<F: Fn(&usize) -> u64>(
    before: Map<usize, u64>,
    after: Map<usize, u64>,
    hasher: F,
) -> bool {
    ||| forall|slot: usize| #[trigger] before.contains_key(slot) ==> after[slot] == before[slot]
    ||| forall|slot: usize| #[trigger]
        before.contains_key(slot) ==> call_ensures(hasher, (&slot,), after[slot])
}

impl SlotTable {
    /// Calls `hashbrown::raw::RawTable::with_capacity`. Trusted: the new table is empty.
    ///
    /// The bound on `capacity` keeps the size of the allocation within what an
    /// allocation may have; beyond it the call can panic.
    #[verifier::external_body]
    pub(crate) fn with_capacity(capacity: usize) -> (table: SlotTable)
        requires
            capacity <= MAX_ROOM,
        ensures
            filed(table).dom() == Set::<usize>::empty(),
    {
        SlotTable { raw: RawTable::with_capacity(capacity) }
    }

    /// Calls `hashbrown::raw::RawTable::len`. Trusted: it counts the slot numbers held.
    #[verifier::external_body]
    pub(crate) fn len(&self) -> (count: usize)
        ensures
            count == filed(*self).dom().len(),
    {
        self.raw.len()
    }

    /// Calls `hashbrown::raw::RawTable::get`. Trusted: what is found is held, is one that a
    /// search under `hash` comes by, and `eq` said `true` of it; where nothing is found, `eq`
    /// said `false` of every slot number that such a search comes by, and those that are
    /// filed under `hash` are among them.
    #[verifier::external_body]
    pub(crate) fn get<F: Fn(&usize) -> bool>(&self, hash: u64, eq: F) -> (found: Option<usize>)
        requires
            forall|slot: usize| #[trigger]
                filed(*self).contains_key(slot) ==> call_requires(eq, (&slot,)),
        ensures
            match found {
                Some(slot) => {
                    &&& filed(*self).contains_key(slot)
                    &&& shown(*self, hash).contains(slot)
                    &&& call_ensures(eq, (&slot,), true)
                },
                None => forall|slot: usize| #[trigger]
                    filed(*self).contains_key(slot) && (filed(*self)[slot] == hash || shown(
                        *self,
                        hash,
                    ).contains(slot)) ==> call_ensures(eq, (&slot,), false),
            },
    {
        self.raw.get(hash, eq).copied()
    }

    /// Calls `hashbrown::raw::RawTable::try_insert_no_grow`. Trusted: where there is room,
    /// `slot` is added, filed under `hash`, and all else stays filed as it was; where there is
    /// none, nothing changes. Whether there is room depends on what the table has allocated,
    /// of which nothing is claimed.
    #[verifier::external_body]
    pub(crate) fn try_insert_no_grow(&mut self, hash: u64, slot: usize) -> (done: bool)
        requires
            !filed(*old(self)).contains_key(slot),
        ensures
            done ==> filed(*final(self)) == filed(*old(self)).insert(slot, hash),
            !done ==> filed(*final(self)) == filed(*old(self)),
    {
        self.raw.try_insert_no_grow(hash, slot).is_ok()
    }

    /// Calls `hashbrown::raw::RawTable::insert`. Trusted: `slot` is added, filed under
    /// `hash`; of the others either each stays filed as it was or, where the table was
    /// rearranged, each is filed under what `hasher` says of it.
    ///
    /// Where there is no memory left for the table to grow into, the call does not return.
    #[verifier::external_body]
    pub(crate) fn insert<F: Fn(&usize) -> u64>(&mut self, hash: u64, slot: usize, hasher: F)
        requires
            !filed(*old(self)).contains_key(slot),
            forall|other: usize| #[trigger]
                filed(*old(self)).contains_key(other) ==> call_requires(hasher, (&other,)),
        ensures
            filed(*final(self)).dom() == filed(*old(self)).dom().insert(slot),
            filed(*final(self))[slot] == hash,
            kept_or_refiled(filed(*old(self)), filed(*final(self)), hasher),
    {
        self.raw.insert(hash, slot, hasher);
    }

    /// Calls `hashbrown::raw::RawTable::remove_entry`. Trusted: what is found is as for
    /// [`SlotTable::get`]; it leaves the table, and all else stays filed as it was.
    #[verifier::external_body]
    pub(crate) fn remove_entry<F: Fn(&usize) -> bool>(&mut self, hash: u64, eq: F) -> (found:
        Option<usize>)
        requires
            forall|slot: usize| #[trigger]
                filed(*old(self)).contains_key(slot) ==> call_requires(eq, (&slot,)),
        ensures
            match found {
                Some(slot) => {
                    &&& filed(*old(self)).contains_key(slot)
                    &&& shown(*old(self), hash).contains(slot)
                    &&& call_ensures(eq, (&slot,), true)
                    &&& filed(*final(self)) == filed(*old(self)).remove(slot)
                },
                None => {
                    &&& filed(*final(self)) == filed(*old(self))
                    &&& forall|slot: usize| #[trigger]
                        filed(*old(self)).contains_key(slot) && (filed(*old(self))[slot] == hash
                            || shown(*old(self), hash).contains(slot)) ==> call_ensures(
                            eq,
                            (&slot,),
                            false,
                        )
                },
            },
    {
        self.raw.remove_entry(hash, eq)
    }
}

} // verus!
