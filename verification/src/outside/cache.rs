//! Caches, from `moka`.

use bytes::Bytes;
use moka::sync::Cache;
use vstd::prelude::*;

use crate::client::attr::CachedAttr;
use crate::outside::blob::{bytes_slice, bytes_view};

verus! {

/// `moka::sync::Cache`, a cache that drops entries by size and by age.
#[verifier::external_type_specification]
#[verifier::external_body]
#[verifier::reject_recursive_types(K)]
#[verifier::reject_recursive_types(V)]
#[verifier::reject_recursive_types(S)]
pub struct ExCache<K, V, S>(moka::sync::Cache<K, V, S>);

/// What was last put into a block cache under each inode, generation and
/// position, and not discarded since by a call. An entry may have been dropped
/// for room.
pub uninterp spec fn cached_blocks(c: Cache<(u64, u64, u64), Bytes>) -> Map<
    (u64, u64, u64),
    Seq<u8>,
>;

/// The number of bytes that a block cache was made for.
pub uninterp spec fn block_cache_capacity(c: Cache<(u64, u64, u64), Bytes>) -> u64;

/// Whether a block cache was made to discard entries on request.
pub uninterp spec fn block_cache_prunes(c: Cache<(u64, u64, u64), Bytes>) -> bool;

/// How much of a cache's capacity a block takes: its length.
pub fn block_weight(b: &Bytes) -> (w: u32)
    ensures
        w == bytes_view(*b).len() as u32,
{
    #[verifier::truncate]
    (bytes_slice(b).len() as u32)
}

/// Calls `Cache::builder` with a capacity, a weigher and
/// `support_invalidation_closures`, and `build`: the cache is empty, made for
/// that capacity, and discards entries on request.
#[verifier::external_body]
pub(crate) fn new_block_cache(capacity: u64) -> (c: Cache<(u64, u64, u64), Bytes>)
    ensures
        (cached_blocks(c) == Map::<(u64, u64, u64), Seq<u8>>::empty()),
        block_cache_capacity(c) == capacity,
        block_cache_prunes(c),
{
    Cache::builder()
        .max_capacity(capacity)
        .weigher(|_k, v: &Bytes| block_weight(v))
        .support_invalidation_closures()
        .build()
}

/// Calls `Cache::get`: a value that comes back is the one last put in under the
/// key. That one comes back is not stated: the cache may have dropped it.
#[verifier::external_body]
pub(crate) fn block_cache_get(
    c: &Cache<(u64, u64, u64), Bytes>,
    k: (u64, u64, u64),
) -> (r: Option<Bytes>)
    ensures
        r matches Some(b) ==> cached_blocks(*c).contains_key(k) && bytes_view(b)
            == cached_blocks(*c)[k],
{
    c.get(&k)
}

/// Calls `Cache::insert`: the value replaces what the key had.
#[verifier::external_body]
pub(crate) fn block_cache_insert(
    c: &mut Cache<(u64, u64, u64), Bytes>,
    k: (u64, u64, u64),
    b: Bytes,
)
    ensures
        cached_blocks(*final(c)) == cached_blocks(*old(c)).insert(k, bytes_view(b)),
        block_cache_capacity(*final(c)) == block_cache_capacity(*old(c)),
        block_cache_prunes(*final(c)) == block_cache_prunes(*old(c)),
{
    c.insert(k, b)
}

/// Whether a cached block is of the inode `ino` and older than `generation`.
pub open spec fn outdated(k: (u64, u64, u64), ino: u64, generation: u64) -> bool {
    k.0 == ino && k.1 < generation
}

/// Whether a cached block is of the inode `ino` and older than `generation`.
pub fn is_outdated(k: &(u64, u64, u64), ino: u64, generation: u64) -> (r: bool)
    ensures
        r == outdated(*k, ino, generation),
{
    k.0 == ino && k.1 < generation
}

/// Cached blocks without those that are outdated.
pub open spec fn pruned(
    m: Map<(u64, u64, u64), Seq<u8>>,
    ino: u64,
    generation: u64,
) -> Map<(u64, u64, u64), Seq<u8>> {
    Map::new(
        |k: (u64, u64, u64)| m.contains_key(k) && !outdated(k, ino, generation),
        |k: (u64, u64, u64)| m[k],
    )
}

/// Calls `Cache::invalidate_entries_if`: where the cache was made to discard
/// entries on request, those that are outdated are gone, as moka documents that
/// no later retrieval returns them; else the call fails and nothing changes.
#[verifier::external_body]
pub(crate) fn block_cache_discard(
    c: &mut Cache<(u64, u64, u64), Bytes>,
    ino: u64,
    generation: u64,
)
    ensures
        cached_blocks(*final(c)) == if block_cache_prunes(*old(c)) {
            pruned(cached_blocks(*old(c)), ino, generation)
        } else {
            cached_blocks(*old(c))
        },
        block_cache_capacity(*final(c)) == block_cache_capacity(*old(c)),
        block_cache_prunes(*final(c)) == block_cache_prunes(*old(c)),
{
    let _ = c.invalidate_entries_if(move |k, _v| is_outdated(k, ino, generation));
}

/// What was last put into an attribute cache under each inode. An entry may
/// have been dropped for room or for age.
pub uninterp spec fn cached_attrs(c: Cache<u64, CachedAttr>) -> Map<u64, CachedAttr>;

/// The number of entries that an attribute cache was made for.
pub uninterp spec fn attr_cache_capacity(c: Cache<u64, CachedAttr>) -> u64;

/// The milliseconds for which an attribute cache was made to keep an entry.
pub uninterp spec fn attr_cache_ttl_ms(c: Cache<u64, CachedAttr>) -> u64;

/// Calls `Cache::builder` with a capacity and a time to live, and `build`: the
/// cache is empty, and made for that capacity and time. A time past 1000 years
/// makes the call panic.
#[verifier::external_body]
pub(crate) fn new_attr_cache(capacity: u64, ttl_ms: u64) -> (c: Cache<u64, CachedAttr>)
    requires
        ttl_ms <= 31_536_000_000_000,
    ensures
        (cached_attrs(c) == Map::<u64, CachedAttr>::empty()),
        attr_cache_capacity(c) == capacity,
        attr_cache_ttl_ms(c) == ttl_ms,
{
    let ttl = std::time::Duration::from_millis(ttl_ms);
    Cache::builder().max_capacity(capacity).time_to_live(ttl).build()
}

/// Calls `Cache::get`: a value that comes back is the one last put in under the
/// key. That one comes back is not stated: the cache may have dropped it.
#[verifier::external_body]
pub(crate) fn attr_cache_get(c: &Cache<u64, CachedAttr>, ino: u64) -> (r: Option<CachedAttr>)
    ensures
        r matches Some(a) ==> cached_attrs(*c).contains_key(ino) && a == cached_attrs(*c)[ino],
{
    c.get(&ino)
}

/// Calls `Cache::insert`: the value replaces what the key had.
#[verifier::external_body]
pub(crate) fn attr_cache_insert(c: &mut Cache<u64, CachedAttr>, ino: u64, a: CachedAttr)
    ensures
        cached_attrs(*final(c)) == cached_attrs(*old(c)).insert(ino, a),
        attr_cache_capacity(*final(c)) == attr_cache_capacity(*old(c)),
        attr_cache_ttl_ms(*final(c)) == attr_cache_ttl_ms(*old(c)),
{
    c.insert(ino, a)
}

} // verus!
