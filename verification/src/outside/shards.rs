//! Concurrent maps, from `dashmap`.

use bytes::Bytes;
use dashmap::DashMap;
use vstd::prelude::*;

use crate::client::open_file::OpenFile;
use crate::outside::blob::bytes_view;

verus! {

/// `dashmap::DashMap`, a hash map. It is used here through exclusive
/// references, so that no other call comes between two calls.
#[verifier::external_type_specification]
#[verifier::external_body]
#[verifier::reject_recursive_types(K)]
#[verifier::reject_recursive_types(V)]
#[verifier::reject_recursive_types(S)]
pub struct ExDashMap<K, V, S>(dashmap::DashMap<K, V, S>);

/// The blocks that a map holds, by inode, position and generation.
pub uninterp spec fn stored_blocks(m: DashMap<(u64, u64, u64), Bytes>) -> Map<
    (u64, u64, u64),
    Seq<u8>,
>;

/// The generations that a map holds, by inode and position.
pub uninterp spec fn stored_marks(m: DashMap<(u64, u64), u64>) -> Map<(u64, u64), u64>;

/// Calls `DashMap::new`: the map is empty.
#[verifier::external_body]
pub(crate) fn blocks_new() -> (m: DashMap<(u64, u64, u64), Bytes>)
    ensures
        (stored_blocks(m) == Map::<(u64, u64, u64), Seq<u8>>::empty()),
{
    DashMap::new()
}

/// Calls `DashMap::get`, and clones the value that it refers to.
#[verifier::external_body]
pub(crate) fn blocks_get(m: &DashMap<(u64, u64, u64), Bytes>, k: (u64, u64, u64)) -> (r: Option<
    Bytes,
>)
    ensures
        r is Some <==> stored_blocks(*m).contains_key(k),
        r matches Some(b) ==> bytes_view(b) == stored_blocks(*m)[k],
{
    m.get(&k).map(|e| e.value().clone())
}

/// Calls `DashMap::insert`: the key maps to the new value, and the value that
/// it replaces comes back.
#[verifier::external_body]
pub(crate) fn blocks_insert(
    m: &mut DashMap<(u64, u64, u64), Bytes>,
    k: (u64, u64, u64),
    b: Bytes,
) -> (r: Option<Bytes>)
    ensures
        stored_blocks(*final(m)) == stored_blocks(*old(m)).insert(k, bytes_view(b)),
        r is Some <==> stored_blocks(*old(m)).contains_key(k),
        r matches Some(p) ==> bytes_view(p) == stored_blocks(*old(m))[k],
{
    m.insert(k, b)
}

/// Calls `DashMap::remove`: the key goes, and the value that it had comes back.
#[verifier::external_body]
pub(crate) fn blocks_remove(m: &mut DashMap<(u64, u64, u64), Bytes>, k: (u64, u64, u64)) -> (r:
    Option<Bytes>)
    ensures
        stored_blocks(*final(m)) == stored_blocks(*old(m)).remove(k),
        r is Some <==> stored_blocks(*old(m)).contains_key(k),
        r matches Some(p) ==> bytes_view(p) == stored_blocks(*old(m))[k],
{
    m.remove(&k).map(|e| e.1)
}

/// Calls `DashMap::iter`, and hands out each key with its value: every entry
/// comes once, in no particular order.
#[verifier::external_body]
pub(crate) fn blocks_entries(m: &DashMap<(u64, u64, u64), Bytes>) -> (r: Vec<
    ((u64, u64, u64), Bytes),
>)
    ensures
        r@.len() == stored_blocks(*m).dom().len(),
        forall|i: int|
            #![trigger r@[i]]
            0 <= i < r@.len() ==> stored_blocks(*m).contains_key(r@[i].0) && bytes_view(r@[i].1)
                == stored_blocks(*m)[r@[i].0],
        forall|i: int, j: int|
            #![trigger r@[i], r@[j]]
            0 <= i < j < r@.len() ==> r@[i].0 != r@[j].0,
{
    m.iter().map(|e| (*e.key(), e.value().clone())).collect()
}

/// Calls `DashMap::len`: the number of entries.
#[verifier::external_body]
pub(crate) fn blocks_len(m: &DashMap<(u64, u64, u64), Bytes>) -> (n: usize)
    ensures
        n == stored_blocks(*m).dom().len(),
{
    m.len()
}

/// Calls `DashMap::new`: the map is empty.
#[verifier::external_body]
pub(crate) fn marks_new() -> (m: DashMap<(u64, u64), u64>)
    ensures
        (stored_marks(m) == Map::<(u64, u64), u64>::empty()),
{
    DashMap::new()
}

/// Calls `DashMap::get`, and copies the value that it refers to.
#[verifier::external_body]
pub(crate) fn marks_get(m: &DashMap<(u64, u64), u64>, k: (u64, u64)) -> (r: Option<u64>)
    ensures
        r is Some <==> stored_marks(*m).contains_key(k),
        r matches Some(g) ==> g == stored_marks(*m)[k],
{
    m.get(&k).map(|e| *e.value())
}

/// Calls `DashMap::insert`: the key maps to the new value.
#[verifier::external_body]
pub(crate) fn marks_insert(m: &mut DashMap<(u64, u64), u64>, k: (u64, u64), g: u64)
    ensures
        stored_marks(*final(m)) == stored_marks(*old(m)).insert(k, g),
{
    m.insert(k, g);
}

/// Calls `DashMap::remove`: the key goes.
#[verifier::external_body]
pub(crate) fn marks_remove(m: &mut DashMap<(u64, u64), u64>, k: (u64, u64))
    ensures
        stored_marks(*final(m)) == stored_marks(*old(m)).remove(k),
{
    m.remove(&k);
}

/// The open files that a map holds, by handle.
pub uninterp spec fn kept_files(m: DashMap<u64, OpenFile>) -> Map<u64, OpenFile>;

/// Calls `DashMap::new`: the map is empty.
#[verifier::external_body]
pub(crate) fn files_new() -> (m: DashMap<u64, OpenFile>)
    ensures
        (kept_files(m) == Map::<u64, OpenFile>::empty()),
{
    DashMap::new()
}

/// Calls `DashMap::insert`: the handle stands for the file.
#[verifier::external_body]
pub(crate) fn files_insert(m: &mut DashMap<u64, OpenFile>, fh: u64, of: OpenFile)
    ensures
        kept_files(*final(m)) == kept_files(*old(m)).insert(fh, of),
{
    m.insert(fh, of);
}

/// Calls `DashMap::remove`: the handle goes, and the file that it stood for
/// comes back.
#[verifier::external_body]
pub(crate) fn files_remove(m: &mut DashMap<u64, OpenFile>, fh: u64) -> (r: Option<OpenFile>)
    ensures
        kept_files(*final(m)) == kept_files(*old(m)).remove(fh),
        match r {
            Some(of) => kept_files(*old(m)).contains_key(fh) && of == kept_files(*old(m))[fh],
            None => !kept_files(*old(m)).contains_key(fh),
        },
{
    m.remove(&fh).map(|e| e.1)
}

} // verus!
