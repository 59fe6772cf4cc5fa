# scherben_map

A concurrent sharded hash map, verified with Verus. The map splits its pairs over `N` shards
(rounded up to a power of two), each protected by a reader/writer lock of its own. A key goes to
the shard that its FNV-1a hash picks.

```rust
let map = scherben_map::HashMap::<&str, &str, 8>::new_arc();
map.insert("Hallo", "Welt");
assert_eq!(map.get_owned("Hallo"), Some("Welt"));
let pairs = map.pairs();
let keys = map.keys();
```

## Layout

- `src/map.rs`: `HashMap` and its iterator over the shards.
- `src/shard.rs`, `src/table.rs`: a shard, and the table of pairs in it.
- `src/key.rs`: what a key type offers, and what is relied on in it.
- `src/records.rs`, `src/state.rs`: the mathematical model of a shard and of a map.
- `src/laws.rs`, `src/runs.rs`: what holds of a map as a whole, after one operation and after any
  run of them.
- `src/sizing.rs`: how many shards there are.
- `src/hash.rs`, `src/slots.rs`, `src/guard.rs`: the calls of `fnv`, `hashbrown` and `parking_lot`,
  and what is trusted of them.
- `src/lock.rs`: the relations between a lock, its guards and the shard behind it.
- `app/`: formatting around the library.

## The locks

`RwLock` is that of `parking_lot` itself. There is no package `parking_lot_utils` in the registry, so
a lock type of that name cannot be depended on; of the lock, the map uses only `new`, `read` and
`write`, which `parking_lot::RwLock` has.

## What is proved

A shard's operations are specified exactly, for any key type and any hash they are handed. A map is
made with a lock of its own for each shard. The operations of a map name the lock that they take, and
say what they do to the shard behind it, whatever other threads have left there: `found_behind` in
`src/lock.rs` relates a lock to the shard that a reader found, `lends` and `let_go` relate the guard
of a lock that is held for writing to the shard that it lends and to what is left behind the lock.

For key types whose equality, bytes and clones agree (`lawful_keys`), the laws say that a map behaves
as a map: what is inserted is found, what is removed is not, and no other key is affected. After any
run of operations on a map that held nothing, a key has the value that was inserted for it last, or
none, and the number of shards never shows in a result.
