//! What a key type offers to a map, and what the map relies on in it.
use crate::hash::{fnv1a, make_hash};
use crate::rights::Cloneable;
use std::hash::{Hash, Hasher};
use vstd::prelude::*;
use vstd::std_specs::cmp::PartialEqSpec;
use vstd::string::*;
use vstd::utf8::*;

verus! {

/// Key is trait for interval key.
pub trait Key<K>: Hash + Eq {
    /// The key that is stood for, which a type that is to be reasoned about defines.
    closed spec fn spec_key(&self) -> K {
        arbitrary()
    }

    fn key(&self) -> (key: &K)
        ensures
            *key == self.spec_key(),
    ;
}

/// IKey is a trait which keys must satisfy.
pub trait IKey<K> {
    /// The bytes that the key is hashed by, which a type that is to be reasoned about
    /// defines.
    closed spec fn key_bytes(&self) -> Seq<u8> {
        arbitrary()
    }

    /// Whether the two are one and the same key of a map; unless a type defines otherwise,
    /// no two values are.
    open spec fn same_key(&self, other: &Self) -> bool {
        self == other
    }

    fn as_bytes(&self) -> (bytes: &[u8])
        ensures
            bytes@ == self.key_bytes(),
    ;
}

/// The hash under which a map files `key`.
pub open spec fn hash_of<K: IKey<K>>(key: K) -> u64 {
    fnv1a(key.key_bytes())
}

/// What a map relies on in `==` and the bytes of its key type: `==` tells whether two keys
/// are the same key, being the same key is an equivalence, and the same key has the same
/// bytes.
pub open spec fn lawful_equality<K: Eq + IKey<K>>() -> bool {
    &&& forall|a: K, b: K, equal: bool| #[trigger]
        call_ensures(<K as PartialEq>::eq, (&a, &b), equal) ==> equal == a.same_key(&b)
    &&& forall|a: K| #[trigger] a.same_key(&a)
    &&& forall|a: K, b: K| #[trigger] a.same_key(&b) ==> b.same_key(&a)
    &&& forall|a: K, b: K, c: K|
        #[trigger] a.same_key(&b) && #[trigger] b.same_key(&c) ==> a.same_key(&c)
    &&& forall|a: K, b: K| #[trigger] a.same_key(&b) ==> a.key_bytes() == b.key_bytes()
}

/// What a map relies on in its key type: `==` and the bytes of the keys are lawful, and a
/// clone of a key is the same key.
pub open spec fn lawful_keys<K: Eq + Cloneable + IKey<K>>() -> bool {
    &&& lawful_equality::<K>()
    &&& forall|a: K, b: K| #[trigger] a.cloned_as(&b) ==> a.same_key(&b)
}

impl<K> IKey<K> for String {
    open spec fn key_bytes(&self) -> Seq<u8> {
        encode_utf8(self@)
    }

    open spec fn same_key(&self, other: &Self) -> bool {
        self@ == other@
    }

    fn as_bytes(&self) -> (bytes: &[u8]) {
        self.as_str().as_bytes()
    }
}

impl<K> IKey<K> for &str {
    open spec fn key_bytes(&self) -> Seq<u8> {
        encode_utf8(self@)
    }

    open spec fn same_key(&self, other: &Self) -> bool {
        self@ == other@
    }

    fn as_bytes(&self) -> (bytes: &[u8]) {
        (*self).as_bytes()
    }
}

/// Strings are lawful keys.
pub proof fn law_string_keys()
    ensures
        lawful_keys::<String>(),
{
}

/// String slices are lawful keys, given that `==` of them compares their characters.
pub proof fn law_str_keys<'a>()
    requires
        forall|a: &'a str, b: &'a str, equal: bool| #[trigger]
            call_ensures(<&'a str as PartialEq>::eq, (&a, &b), equal) ==> equal == (a@ == b@),
    ensures
        lawful_keys::<&'a str>(),
{
}

/// RwKey is read/write key.
struct RwKey<'a, K: IKey<K>> {
    key: &'a K,
}

impl<'a, K: IKey<K> + PartialEq> PartialEq for RwKey<'a, K> {
    /// Compares the keys that are borrowed, by the key type's own `==`.
    fn eq(&self, other: &Self) -> (equal: bool)
        ensures
            call_ensures(<K as PartialEq>::eq, (&self.borrowed(), &other.borrowed()), equal),
    {
        *self.key == *other.key
    }
}

impl<'a, K: IKey<K> + PartialEq> vstd::std_specs::cmp::PartialEqSpecImpl for RwKey<'a, K> {
    closed spec fn obeys_eq_spec() -> bool {
        <K as PartialEqSpec>::obeys_eq_spec()
    }

    closed spec fn eq_spec(&self, other: &Self) -> bool {
        <K as PartialEqSpec>::eq_spec(self.key, other.key)
    }
}

impl<'a, K: IKey<K> + PartialEq> Eq for RwKey<'a, K> {
}

/// Calls `std::hash::Hasher::write_u64`. Nothing is claimed of what a hasher makes of
/// the number.
#[verifier::external_body]
fn write_u64<H: Hasher>(state: &mut H, number: u64) {
    state.write_u64(number)
}

/// Calls `std::hash::Hasher::finish`. Nothing is claimed of the hash that a hasher gives.
#[verifier::external_body]
fn finish<H: Hasher>(state: &H) -> (hash: u64) {
    state.finish()
}

/// Whether `state` may have given `hash` to `Hasher::finish`.
pub closed spec fn finished<H: Hasher>(state: H, hash: u64) -> bool {
    call_ensures(finish::<H>, (&state,), hash)
}

/// Whether `state` may have been handed `number` by `Hasher::write_u64`.
pub closed spec fn handed_u64<H: Hasher>(state: &mut H, number: u64) -> bool {
    call_ensures(write_u64::<H>, (state, number), ())
}

impl<'a, K: IKey<K>> RwKey<'a, K> {
    /// The key that is borrowed.
    pub closed spec fn borrowed(&self) -> K {
        *self.key
    }
}

impl<'a, K: IKey<K>> Hash for RwKey<'a, K> {
    /// Hands the hasher one number, the hash that a map files the key under, and then asks
    /// it to finish; what it gives is dropped.
    fn hash<H: Hasher>(&self, state: &mut H)
        ensures
            exists|handed: &mut H| #[trigger]
                handed_u64(handed, hash_of(self.borrowed())) && *handed == *old(state)
                    && *final(handed) == *final(state),
            exists|dropped: u64| #[trigger] finished(*final(state), dropped),
    {
        let number: u64 = make_hash(self.key.as_bytes());
        write_u64(state, number);
        let dropped: u64 = finish(&*state);
        proof {
            let handed = choose|handed: &mut H| #[trigger]
                call_ensures(write_u64::<H>, (handed, number), ()) && *handed == *old(state)
                    && *final(handed) == *state;
            assert(number == hash_of(self.borrowed()));
            assert(handed_u64(handed, number));
            assert(finished(*state, dropped));
        }
    }
}

/// Keys with equal bytes are filed under one hash, and so the number that stands for the one
/// in a hasher is the number that stands for the other.
pub proof fn law_equal_bytes_equal_hash<K: IKey<K>, H: Hasher>(one: K, other: K, state: &mut H)
    requires
        one.key_bytes() == other.key_bytes(),
    ensures
        hash_of(one) == hash_of(other),
        handed_u64(old(state), hash_of(one)) == handed_u64(old(state), hash_of(other)),
{
}

impl<'a, K: IKey<K> + Eq> Key<K> for RwKey<'a, K> {
    closed spec fn spec_key(&self) -> K {
        *self.key
    }

    fn key(&self) -> (key: &K) {
        &self.key
    }
}

} // verus!
