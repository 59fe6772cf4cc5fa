use scherben_map::{HashMap, IKey};
use std::sync::{Arc, Mutex};

#[test]
fn write_and_remove() {
    let map: HashMap<&str, i64, 8> = Default::default();
    map.insert("test", 6);
    assert_eq!(map.get_owned("test").unwrap(), 6);

    map.remove("test");
    assert_eq!(map.get_owned("test"), None);
}

#[test]
fn map_iterate_shards() {
    let map: HashMap<String, i64, 8> = Default::default();
    for i in 0..1000 {
        let item = format!("Hallo, Welt {}!", i);
        map.insert(item, i);
    }
    for _shard_guard in map.into_iter() {}
    for _shard_guard in map.into_iter() {}
    for _shard_guard in map.into_iter() {}
    for _shard_guard in map.into_iter() {}
}

#[test]
fn map_replace_item() {
    let map: HashMap<String, i64, 8> = Default::default();
    map.insert("Test".to_string(), 0);

    let mut value = map.get_owned("Test".to_string());
    assert_eq!(value.is_some(), true);
    assert_eq!(value.unwrap(), 0);

    map.insert("Test".to_string(), 64);
    value = map.get_owned("Test".to_string());

    assert_eq!(value.is_some(), true);
    assert_eq!(value.unwrap(), 64);
}

#[test]
fn clones_of_a_value_share_what_it_points_to() {
    let map: Arc<HashMap<String, Arc<Mutex<String>>, 16>> = HashMap::new_arc();
    map.insert(
        "test".to_string(),
        Arc::new(Mutex::new("result".to_string())),
    );
    {
        let map_a = map.clone();
        let result = map_a.get_owned("test".to_string()).unwrap();
        let mut value = result.lock().unwrap();
        value.push_str(" + mutation");
    }
    assert_eq!(
        *map.get_owned("test".to_string()).unwrap().lock().unwrap(),
        "result + mutation".to_string()
    );
}

#[test]
fn hash_is_fnv1a_of_the_bytes() {
    let map: HashMap<&str, i64, 8> = HashMap::new();
    assert_eq!(map.get_shard("").1, 0xcbf29ce484222325);
    assert_eq!(map.get_shard("a").1, 0xaf63dc4c8601ec8c);
    assert_eq!(map.get_shard("fo").1, 0x08985907b541d342);
    assert_eq!(map.get_shard("foobar").1, 0x85944171f73967e8);
    let owned: HashMap<String, i64, 8> = HashMap::new();
    assert_eq!(owned.get_shard("foobar".to_string()).1, 0x85944171f73967e8);
}

#[test]
fn shard_is_picked_by_the_hash() {
    let map: HashMap<&str, i64, 8> = HashMap::new();
    let locks: Vec<_> = map.into_iter().collect();
    for key in ["", "a", "b", "c", "fo", "foobar", "Hallo"] {
        let (lock, hash) = map.get_shard(key);
        assert!(Arc::ptr_eq(lock, &locks[(hash % 8) as usize]));
    }
}

#[test]
fn pair_is_put_into_its_shard_only() {
    let map: HashMap<&str, i64, 8> = HashMap::new();
    map.insert("foobar", 1);
    let (lock, hash) = map.get_shard("foobar");
    assert_eq!(lock.read().get(&"foobar", hash), Some(&1));
    let lens: Vec<usize> = map.into_iter().map(|shard| shard.read().len()).collect();
    assert_eq!(lens, vec![1, 0, 0, 0, 0, 0, 0, 0]);
}

#[test]
fn shard_count_is_rounded_up_to_a_power_of_two() {
    assert_eq!(HashMap::<&str, i64, 0>::new().into_iter().count(), 1);
    assert_eq!(HashMap::<&str, i64, 1>::new().into_iter().count(), 1);
    assert_eq!(HashMap::<&str, i64, 2>::new().into_iter().count(), 2);
    assert_eq!(HashMap::<&str, i64, 3>::new().into_iter().count(), 4);
    assert_eq!(HashMap::<&str, i64, 5>::new().into_iter().count(), 8);
    assert_eq!(HashMap::<&str, i64, 8>::new().into_iter().count(), 8);
    assert_eq!(HashMap::<&str, i64, 9>::default().into_iter().count(), 16);
    assert_eq!(HashMap::<&str, i64, 17>::new_arc().into_iter().count(), 32);
}

#[test]
fn with_shard_rounds_as_well() {
    assert_eq!(HashMap::<&str, i64, 8>::with_shard(8).into_iter().count(), 8);
    assert_eq!(HashMap::<&str, i64, 5>::with_shard(5).into_iter().count(), 8);
    assert_eq!(HashMap::<&str, i64, 5>::with_shard(8).into_iter().count(), 8);
}

#[test]
fn map_with_odd_shard_count_works() {
    let map: HashMap<String, i64, 5> = HashMap::new();
    for i in 0..100 {
        map.insert(format!("key {}", i), i);
    }
    for i in 0..100 {
        assert_eq!(map.get_owned(format!("key {}", i)), Some(i));
    }
    assert_eq!(map.len(), 100);
}

#[test]
fn new_map_is_empty() {
    let map: HashMap<String, i64, 8> = HashMap::new();
    assert_eq!(map.len(), 0);
    assert!(!map.contains("any".to_string()));
    assert_eq!(map.get_owned("any".to_string()), None);
    assert_eq!(map.remove("any".to_string()), None);
    assert_eq!(map.pairs(), vec![]);
    assert!(map.keys().is_empty());
}

#[test]
fn removing_hands_back_the_value() {
    let map: HashMap<&str, i64, 4> = HashMap::new();
    map.insert("one", 1);
    map.insert("two", 2);
    assert_eq!(map.remove("one"), Some(1));
    assert_eq!(map.remove("one"), None);
    assert_eq!(map.get_owned("two"), Some(2));
    assert_eq!(map.len(), 1);
}

#[test]
fn removing_undoes_inserting() {
    let map: HashMap<&str, i64, 4> = HashMap::new();
    map.insert("kept", 1);
    map.insert("passing", 2);
    assert_eq!(map.remove("passing"), Some(2));
    assert!(map.contains("kept"));
    assert!(!map.contains("passing"));
    assert_eq!(map.len(), 1);
}

#[test]
fn replacing_keeps_the_length() {
    let map: HashMap<&str, i64, 4> = HashMap::new();
    map.insert("one", 1);
    map.insert("one", 2);
    assert_eq!(map.len(), 1);
    assert_eq!(map.get_owned("one"), Some(2));
}

#[test]
fn contains_what_was_inserted() {
    let map: HashMap<&str, i64, 2> = HashMap::new();
    map.insert("one", 1);
    assert!(map.contains("one"));
    assert!(!map.contains("two"));
    map.remove("one");
    assert!(!map.contains("one"));
}

#[test]
fn lists_pairs_and_keys() {
    let map: HashMap<&str, &str, 8> = HashMap::new();
    map.insert("Hallo", "Welt");
    map.insert("Hello", "World");
    map.insert("Hello", "Worlds");

    let mut pairs = map.pairs();
    pairs.sort();
    assert_eq!(pairs, vec![("Hallo", "Welt"), ("Hello", "Worlds")]);

    let mut keys = map.keys();
    keys.sort();
    assert_eq!(keys, vec!["Hallo", "Hello"]);
}

#[test]
fn collects_every_pair_once() {
    let map: HashMap<String, i64, 8> = Default::default();
    for i in 0..1000 {
        map.insert(format!("Hello, Many Worlds {}!", i), i);
    }
    let mut values: Vec<i64> = map.pairs().into_iter().map(|pair| pair.1).collect();
    values.sort();
    assert_eq!(values, (0..1000).collect::<Vec<i64>>());
    assert_eq!(map.keys().len(), 1000);

    let mut buffer: Vec<(String, i64)> = Vec::new();
    for shard in map.into_iter() {
        shard.read().fill_pairs_into(&mut buffer);
    }
    assert_eq!(buffer.len(), 1000);
    assert_eq!(map.len(), 1000);
}

#[test]
fn iterator_counts_down() {
    let map: HashMap<&str, i64, 4> = HashMap::new();
    let mut shards = map.into_iter();
    assert_eq!(shards.size_hint(), (4, None));
    assert!(shards.next().is_some());
    assert_eq!(shards.size_hint(), (3, None));
    assert!(shards.next().is_some());
    assert!(shards.next().is_some());
    assert!(shards.next().is_some());
    assert_eq!(shards.size_hint(), (0, None));
    assert!(shards.next().is_none());
    assert!(shards.next().is_none());
}

#[test]
fn iterator_hands_out_the_shards_themselves() {
    let map: HashMap<&str, i64, 1> = HashMap::new();
    let (_, hash) = map.get_shard("one");
    for shard in map.into_iter() {
        shard.write().insert(&"one", hash, 1);
    }
    assert_eq!(map.get_owned("one"), Some(1));
}

fn shareable<T: Send + Sync>(_: &T) {}

#[test]
fn map_can_be_shared_between_threads() {
    let map: HashMap<String, i64, 4> = HashMap::new();
    shareable(&map);
}

/// A key that is told apart by both of its fields and hashed by the first alone.
#[derive(Clone, Debug, PartialEq, Eq, Hash)]
struct Named {
    name: String,
    number: u64,
}

impl<K> IKey<K> for Named {
    fn as_bytes(&self) -> &[u8] {
        self.name.as_bytes()
    }
}

#[test]
fn keys_with_equal_bytes_are_told_apart() {
    let map: HashMap<Named, i64, 4> = HashMap::new();
    let one = Named { name: "same".to_string(), number: 1 };
    let two = Named { name: "same".to_string(), number: 2 };
    map.insert(one.clone(), 10);
    map.insert(two.clone(), 20);
    assert_eq!(map.get_shard(one.clone()).1, map.get_shard(two.clone()).1);
    assert_eq!(map.get_owned(one.clone()), Some(10));
    assert_eq!(map.get_owned(two.clone()), Some(20));
    assert_eq!(map.remove(one.clone()), Some(10));
    assert_eq!(map.get_owned(one), None);
    assert_eq!(map.get_owned(two), Some(20));
}

#[test]
fn every_shard_has_a_lock_of_its_own() {
    let map: HashMap<&str, i64, 4> = HashMap::new();
    let locks: Vec<_> = map.into_iter().collect();
    assert_eq!(locks.len(), 4);
    for i in 0..4 {
        for j in 0..i {
            assert!(!Arc::ptr_eq(&locks[i], &locks[j]));
        }
    }
    map.insert("one", 1);
    assert_eq!(map.len(), 1);
    let full = locks.iter().filter(|lock| lock.read().len() == 1).count();
    assert_eq!(full, 1);
}

#[test]
fn iterator_gives_each_lock_once() {
    let map: HashMap<&str, i64, 2> = HashMap::new();
    let mut shards = map.into_iter();
    let first = shards.next().unwrap();
    let second = shards.next().unwrap();
    assert!(shards.next().is_none());
    assert!(!Arc::ptr_eq(&first, &second));

    let mut again = map.into_iter();
    assert!(Arc::ptr_eq(&again.next().unwrap(), &first));
    assert!(Arc::ptr_eq(&again.next().unwrap(), &second));
}

#[test]
fn lock_is_that_of_its_keys_alone() {
    let map: HashMap<&str, i64, 8> = HashMap::new();
    let locks: Vec<_> = map.into_iter().collect();
    for key in ["", "a", "b", "c", "fo", "foobar", "Hallo"] {
        let (lock, hash) = map.get_shard(key);
        for i in 0..8 {
            assert_eq!(Arc::ptr_eq(lock, &locks[i]), hash % 8 == i as u64);
        }
    }
}

/// Performs a fixed run of operations, and hands back what they came back with.
fn run<const N: usize>(map: &HashMap<String, i64, N>) -> Vec<Option<i64>> {
    let mut results = Vec::new();
    for i in 0..300 {
        let key = format!("key {}", (i * 7) % 40);
        if i % 3 == 0 {
            map.insert(key, i);
        } else if i % 5 == 0 {
            results.push(map.remove(key));
        } else {
            results.push(map.get_owned(key));
        }
    }
    results
}

#[test]
fn shard_count_does_not_show() {
    let one: HashMap<String, i64, 1> = HashMap::new();
    let three: HashMap<String, i64, 3> = HashMap::new();
    let many: HashMap<String, i64, 64> = HashMap::new();
    let results = run(&one);
    assert!(results.iter().any(|result| result.is_some()));
    assert!(results.iter().any(|result| result.is_none()));
    assert_eq!(run(&three), results);
    assert_eq!(run(&many), results);
    assert_eq!(one.len(), three.len());
    assert_eq!(one.len(), many.len());
    for i in 0..40 {
        let key = format!("key {}", i);
        assert_eq!(one.get_owned(key.clone()), three.get_owned(key.clone()));
        assert_eq!(one.get_owned(key.clone()), many.get_owned(key));
    }
}

#[test]
fn last_value_inserted_is_found() {
    let map: HashMap<&str, i64, 4> = HashMap::new();
    map.insert("a", 1);
    map.insert("b", 2);
    map.insert("a", 3);
    assert_eq!(map.remove("b"), Some(2));
    map.insert("c", 4);
    assert_eq!(map.remove("c"), Some(4));
    map.insert("c", 5);
    assert_eq!(map.get_owned("a"), Some(3));
    assert_eq!(map.get_owned("b"), None);
    assert_eq!(map.get_owned("c"), Some(5));
    assert_eq!(map.get_owned("d"), None);
    assert_eq!(map.len(), 2);
}

#[test]
fn searching_changes_nothing() {
    let map: HashMap<&str, i64, 4> = HashMap::new();
    map.insert("a", 1);
    assert_eq!(map.get_owned("a"), Some(1));
    assert_eq!(map.get_owned("b"), None);
    assert_eq!(map.get_owned("a"), Some(1));
    assert_eq!(map.get_owned("b"), None);
    assert_eq!(map.len(), 1);
}

#[test]
fn value_that_was_handed_out_stays() {
    let map: HashMap<&str, String, 4> = HashMap::new();
    map.insert("a", "before".to_string());
    let owned = map.get_owned("a");
    map.insert("a", "after".to_string());
    assert_eq!(owned, Some("before".to_string()));
    assert_eq!(map.get_owned("a"), Some("after".to_string()));
    assert_eq!(map.remove("a"), Some("after".to_string()));
    assert_eq!(owned, Some("before".to_string()));
}

#[test]
fn iterator_keeps_no_lock_but_the_last() {
    let map: HashMap<&str, i64, 2> = HashMap::new();
    let mut shards = map.into_iter();
    let first = shards.next().unwrap();
    assert_eq!(Arc::strong_count(&first), 3);
    let second = shards.next().unwrap();
    assert_eq!(Arc::strong_count(&first), 2);
    assert_eq!(Arc::strong_count(&second), 3);
    drop(map);
    assert!(Arc::try_unwrap(first).is_ok());
    assert!(shards.next().is_none());
    assert!(Arc::try_unwrap(second).is_ok());
}

/// A value that counts how many clones lie between it and the first of its kind.
#[derive(Debug, PartialEq)]
struct Generation(u32);

impl Clone for Generation {
    fn clone(&self) -> Generation {
        Generation(self.0 + 1)
    }
}

#[test]
fn listed_values_are_clones_of_clones() {
    let map: HashMap<&str, Generation, 2> = HashMap::new();
    map.insert("a", Generation(0));
    assert_eq!(map.get_owned("a"), Some(Generation(1)));
    assert_eq!(map.pairs(), vec![("a", Generation(2))]);
    let mut buffer: Vec<(&str, Generation)> = Vec::new();
    for shard in map.into_iter() {
        shard.read().fill_pairs_into(&mut buffer);
    }
    assert_eq!(buffer, vec![("a", Generation(2))]);
    assert_eq!(map.remove("a"), Some(Generation(0)));
}
