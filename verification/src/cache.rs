use vstd::prelude::*;

verus! {

// The cache of object keys: keys of at most 64 bytes are looked up by the
// xxh3 hash of their bytes, longer ones are made afresh each time.

/// The 64-bit xxh3 hash of some bytes.
pub uninterp spec fn xxh3_64_of(bytes: Seq<u8>) -> u64;

/// `xxhash_rust::xxh3::xxh3_64`: the hash is a function of the bytes alone.
#[verifier::external_body]
fn xxh3_64(bytes: &[u8]) -> (h: u64)
    ensures
        h == xxh3_64_of(bytes@),
{
    xxhash_rust::xxh3::xxh3_64(bytes)
}

/// How a key is turned into a Python string.
#[derive(Clone, Copy, Debug, PartialEq, Eq, Structural)]
pub enum KeyLookup {
    /// Longer than 64 bytes: made afresh.
    Uncached,
    /// Looked up in the cache under this hash.
    Cached(u64),
}

/// How the key with these UTF-8 bytes is turned into a Python string.
pub fn get_unicode_key(key: &[u8]) -> (r: KeyLookup)
    ensures
        key@.len() > 64 ==> r == KeyLookup::Uncached,
        key@.len() <= 64 ==> r == KeyLookup::Cached(xxh3_64_of(key@)),
{
    if key.len() > 64 {
        KeyLookup::Uncached
    } else {
        KeyLookup::Cached(xxh3_64(key))
    }
}

} // verus!
