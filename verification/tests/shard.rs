use scherben_map::{HashMap, IKey, Key, Shard};
use std::hash::{Hash, Hasher};
use std::sync::atomic::{AtomicUsize, Ordering};
use std::sync::Arc;

fn hash(key: &str) -> u64 {
    let map: HashMap<&str, (), 1> = HashMap::new();
    map.get_shard(key).1
}

#[test]
fn gets_what_was_inserted() {
    let mut shard: Shard<&str, i64> = Shard::with_capacity(4);
    assert_eq!(shard.get(&"one", hash("one")), None);
    shard.insert(&"one", hash("one"), 1);
    shard.insert(&"two", hash("two"), 2);
    assert_eq!(shard.get(&"one", hash("one")), Some(&1));
    assert_eq!(shard.get(&"two", hash("two")), Some(&2));
    assert_eq!(shard.get(&"three", hash("three")), None);
    assert_eq!(shard.len(), 2);
}

#[test]
fn replaces_the_value_of_a_key() {
    let mut shard: Shard<&str, i64> = Shard::with_capacity(0);
    shard.insert(&"one", hash("one"), 1);
    shard.insert(&"one", hash("one"), 11);
    assert_eq!(shard.get(&"one", hash("one")), Some(&11));
    assert_eq!(shard.len(), 1);
}

#[test]
fn removes_the_value_of_a_key() {
    let mut shard: Shard<&str, i64> = Shard::with_capacity(0);
    shard.insert(&"one", hash("one"), 1);
    shard.insert(&"two", hash("two"), 2);
    assert_eq!(shard.remove(&"one", hash("one")), Some(1));
    assert_eq!(shard.remove(&"one", hash("one")), None);
    assert_eq!(shard.get(&"one", hash("one")), None);
    assert_eq!(shard.get(&"two", hash("two")), Some(&2));
    assert_eq!(shard.len(), 1);
}

#[test]
fn grows_and_shrinks_and_grows_again() {
    let mut shard: Shard<String, usize> = Shard::with_capacity(1);
    for round in 0..3 {
        for i in 0..500 {
            let key = format!("{} {}", round, i);
            shard.insert(&key, hash(&key), i);
        }
        assert_eq!(shard.len(), 500);
        for i in 0..500 {
            let key = format!("{} {}", round, i);
            assert_eq!(shard.get(&key, hash(&key)), Some(&i));
        }
        for i in 0..500 {
            let key = format!("{} {}", round, i);
            assert_eq!(shard.remove(&key, hash(&key)), Some(i));
        }
        assert_eq!(shard.len(), 0);
    }
}

#[test]
fn keeps_the_hash_that_it_is_given() {
    let mut shard: Shard<&str, i64> = Shard::with_capacity(4);
    shard.insert(&"one", 12345, 1);
    assert_eq!(shard.get(&"one", 12345), Some(&1));
    shard.insert(&"one", 12345, 2);
    assert_eq!(shard.len(), 1);
    assert_eq!(shard.remove(&"one", 12345), Some(2));
    assert_eq!(shard.len(), 0);
}

#[test]
fn growing_files_by_the_hash_of_the_key() {
    let mut shard: Shard<String, usize> = Shard::with_capacity(1);
    shard.insert(&"odd".to_string(), 12345, 0);
    for i in 0..500 {
        let key = format!("key {}", i);
        shard.insert(&key, hash(&key), i);
    }
    assert_eq!(shard.get(&"odd".to_string(), hash("odd")), Some(&0));
    assert_eq!(shard.len(), 501);
}

#[test]
fn equal_hashes_do_not_mix_keys_up() {
    let mut shard: Shard<&str, i64> = Shard::with_capacity(4);
    shard.insert(&"one", 7, 1);
    shard.insert(&"two", 7, 2);
    assert_eq!(shard.get(&"one", 7), Some(&1));
    assert_eq!(shard.get(&"two", 7), Some(&2));
    assert_eq!(shard.get(&"three", 7), None);
    assert_eq!(shard.remove(&"one", 7), Some(1));
    assert_eq!(shard.get(&"two", 7), Some(&2));
}

#[test]
fn fills_behind_what_the_buffer_holds() {
    let mut shard: Shard<&str, i64> = Shard::with_capacity(4);
    shard.insert(&"one", hash("one"), 1);
    shard.insert(&"two", hash("two"), 2);
    shard.insert(&"three", hash("three"), 3);
    shard.remove(&"two", hash("two"));
    let mut buffer = vec![("zero", 0)];
    shard.fill_pairs_into(&mut buffer);
    assert_eq!(buffer[0], ("zero", 0));
    buffer.sort();
    assert_eq!(buffer, vec![("one", 1), ("three", 3), ("zero", 0)]);
}

#[test]
fn shows_the_length_for_debugging() {
    let mut shard: Shard<String, i64> = Shard::with_capacity(4);
    assert_eq!(shard.debug_string(), "Shard{table: [0]}");
    for i in 0..120 {
        let key = format!("{}", i);
        shard.insert(&key, hash(&key), i);
    }
    assert_eq!(shard.debug_string(), "Shard{table: [120]}");
}

#[test]
fn room_that_cannot_be_had_is_not_asked_for() {
    let mut shard: Shard<&str, i64> = Shard::with_capacity(usize::MAX);
    shard.insert(&"one", hash("one"), 1);
    assert_eq!(shard.get(&"one", hash("one")), Some(&1));
}

#[test]
fn strings_give_their_bytes() {
    let owned: String = "Grüße".to_string();
    assert_eq!(IKey::<String>::as_bytes(&owned), "Grüße".as_bytes());
    assert_eq!(IKey::<&str>::as_bytes(&"Grüße"), "Grüße".as_bytes());
}

/// A key that stands for a name.
#[derive(PartialEq, Eq)]
struct Alias(String);

impl Hash for Alias {
    fn hash<H: Hasher>(&self, state: &mut H) {
        self.0.hash(state);
    }
}

impl Key<String> for Alias {
    fn key(&self) -> &String {
        &self.0
    }
}

#[test]
fn key_trait_gives_the_key() {
    assert_eq!(Alias("name".to_string()).key(), "name");
}

/// A key that counts how often it and its clones are asked for their bytes.
#[derive(Clone)]
struct Counting {
    name: String,
    asked: Arc<AtomicUsize>,
}

impl PartialEq for Counting {
    fn eq(&self, other: &Counting) -> bool {
        self.name == other.name
    }
}

impl Eq for Counting {}

impl Hash for Counting {
    fn hash<H: Hasher>(&self, state: &mut H) {
        self.name.hash(state);
    }
}

impl<K> IKey<K> for Counting {
    fn as_bytes(&self) -> &[u8] {
        self.asked.fetch_add(1, Ordering::SeqCst);
        self.name.as_bytes()
    }
}

#[test]
fn keys_are_asked_for_their_bytes_only_to_grow() {
    let asked = Arc::new(AtomicUsize::new(0));
    let mut shard: Shard<Counting, i64> = Shard::with_capacity(3);
    for (number, name) in ["a", "b", "c", "d"].into_iter().enumerate() {
        assert_eq!(asked.load(Ordering::SeqCst), 0);
        let key = Counting { name: name.to_string(), asked: asked.clone() };
        shard.insert(&key, hash(name), number as i64);
    }
    assert_eq!(asked.load(Ordering::SeqCst), 3);
    assert_eq!(shard.len(), 4);
    for (number, name) in ["a", "b", "c", "d"].into_iter().enumerate() {
        let key = Counting { name: name.to_string(), asked: asked.clone() };
        assert_eq!(shard.get(&key, hash(name)), Some(&(number as i64)));
    }
}

#[test]
fn keys_with_equal_bytes_have_one_hash() {
    let owned: HashMap<String, i64, 4> = HashMap::new();
    let borrowed: HashMap<&str, i64, 4> = HashMap::new();
    for name in ["", "a", "Hallo"] {
        assert_eq!(owned.get_shard(name.to_string()).1, borrowed.get_shard(name).1);
    }
    assert_ne!(borrowed.get_shard("a").1, borrowed.get_shard("Hallo").1);
}
