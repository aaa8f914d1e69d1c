//! Hashing, from `xxhash-rust`.

use vstd::prelude::*;

verus! {

/// The 64-bit XXH3 hash of `input` under `seed`.
pub uninterp spec fn xxh3_64(input: Seq<u8>, seed: u64) -> u64;

/// Calls `xxhash_rust::xxh3::xxh3_64_with_seed`: the result depends on the
/// bytes and the seed alone. Nothing more is claimed of the hash value.
#[verifier::external_body]
pub(crate) fn hash_with_seed(input: &[u8], seed: u64) -> (h: u64)
    ensures
        h == xxh3_64(input@, seed),
{
    xxhash_rust::xxh3::xxh3_64_with_seed(input, seed)
}

} // verus!
