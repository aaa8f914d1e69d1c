//! What a mount remembers of blocks and attributes.

use bytes::Bytes;
use moka::sync::Cache;
use vstd::prelude::*;

use crate::client::attr::CachedAttr;
use crate::outside::cache::{
    attr_cache_capacity, attr_cache_ttl_ms, block_cache_capacity, block_cache_prunes, cached_attrs,
    cached_blocks, new_attr_cache, new_block_cache,
};

verus! {

/// The most attributes that a mount remembers.
pub const ATTR_CACHE_ENTRIES: u64 = 100_000;

/// A cache for attributes, which keeps each for `ttl_ms` milliseconds.
pub fn build_attr_cache(ttl_ms: u64) -> (c: Cache<u64, CachedAttr>)
    requires
        ttl_ms <= 31_536_000_000_000,
    ensures
        (cached_attrs(c) == Map::<u64, CachedAttr>::empty()),
        attr_cache_capacity(c) == ATTR_CACHE_ENTRIES,
        attr_cache_capacity(c) == 100_000,
        attr_cache_ttl_ms(c) == ttl_ms,
{
    new_attr_cache(ATTR_CACHE_ENTRIES, ttl_ms)
}

/// A cache for blocks, by inode, generation and position, which holds
/// `capacity_mb` mebibytes and discards entries on request.
pub fn build_block_cache(capacity_mb: u64) -> (c: Cache<(u64, u64, u64), Bytes>)
    requires
        capacity_mb * 1024 * 1024 <= u64::MAX,
    ensures
        (cached_blocks(c) == Map::<(u64, u64, u64), Seq<u8>>::empty()),
        block_cache_capacity(c) == capacity_mb * 1024 * 1024,
        block_cache_prunes(c),
{
    let cap_bytes: u64 = capacity_mb * 1024 * 1024;
    new_block_cache(cap_bytes)
}

} // verus!
