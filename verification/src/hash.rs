//! The hash of a key: FNV-1a, as `fnv` computes it.
use fnv::FnvHasher;
use std::hash::Hasher;
use vstd::prelude::*;

verus! {

/// The hash of no bytes at all: where FNV-1a starts.
pub const FNV_OFFSET: u64 = 0xcbf29ce484222325;

/// What FNV-1a multiplies by after each byte.
pub const FNV_PRIME: u64 = 0x100000001b3;

/// The 64 bit FNV-1a hash of `bytes`: each byte in turn is xored into the hash,
/// which is then multiplied by the prime, modulo two to the 64.
pub open spec fn fnv1a(bytes: Seq<u8>) -> u64
    decreases bytes.len(),
{
    if bytes.len() == 0 {
        FNV_OFFSET
    } else {
        let mixed: u64 = fnv1a(bytes.drop_last()) ^ (bytes.last() as u64);
        ((mixed * FNV_PRIME) % 0x1_0000_0000_0000_0000) as u64
    }
}

/// make_hash hashes the `key`.
///
/// Calls `fnv::FnvHasher`: a default hasher is handed all of `key` by `Hasher::write`
/// and asked for its `Hasher::finish`. Trusted: the outcome is the FNV-1a hash of the bytes.
#[verifier::external_body]
pub(crate) fn make_hash(key: &[u8]) -> (hash: u64)
    ensures
        hash == fnv1a(key@),
{
    let mut hasher = FnvHasher::default();
    hasher.write(key);
    hasher.finish()
}

} // verus!
