//! The operations of a mount.

use bytes::Bytes;
use dashmap::DashMap;
use moka::sync::Cache;
use vstd::prelude::*;

use crate::client::attr::{
    kernel_attr, number_type, proto_attr_to_fuse, proto_kind_to_fuse, times_tellable, CachedAttr,
    FileAttr, FileType,
};
use crate::client::cache::{build_attr_cache, build_block_cache, ATTR_CACHE_ENTRIES};
use crate::client::open_file::{with_locations, OpenFile, OpenView};
use crate::client::pool::StoreClientPool;
use crate::error::{error_of_status, is_errno, DtmpfsError, ErrorView, Status};
use crate::id::InodeId;
use crate::outside::blob::{bytes_clone, bytes_from_vec, bytes_view};
use crate::outside::cache::{
    attr_cache_capacity, attr_cache_get, attr_cache_insert, attr_cache_ttl_ms,
    block_cache_capacity, block_cache_prunes, cached_attrs, cached_blocks,
};
use crate::outside::errno::{eio, enoent};
use crate::outside::shards::{files_insert, files_new, files_remove, kept_files};
use crate::proto::{
    block_map_view, entries_view, node_list_view, Attr, CreateResp, DirEntry, DirEntryView, Empty,
    LookupResp, NodeList, OpenResp, ProtoNodeView, ReadDirReq, ReadDirResp, SetAttrReq,
    SetAttrResp,
};
use crate::time::Timestamp;

verus! {

/// A mount.
pub struct DtmpfsFs {
    pub stores: StoreClientPool,
    pub attr_cache: Cache<u64, CachedAttr>,
    pub block_cache: Cache<(u64, u64, u64), Bytes>,
    pub open_files: DashMap<u64, OpenFile>,
    pub block_size: usize,
    pub replication_factor: usize,
    pub token: String,
}

/// A time that a change of attributes asks for.
#[derive(Copy, Clone, Debug, PartialEq, Eq, Structural)]
pub enum TimeOrNow {
    SpecificTime(Timestamp),
    Now,
}

/// The seconds and nanoseconds of a time that is asked for. What is left to
/// the server, as the present is, is not asked for.
pub open spec fn asked_time(t: Option<TimeOrNow>) -> (Option<i64>, Option<u32>) {
    match t {
        Some(TimeOrNow::SpecificTime(t)) => (
            Some(t.spec_since_epoch().0),
            Some(t.spec_since_epoch().1),
        ),
        _ => (None, None),
    }
}

fn ask_time(t: Option<TimeOrNow>) -> (r: (Option<i64>, Option<u32>))
    ensures
        r == asked_time(t),
{
    match t {
        Some(TimeOrNow::SpecificTime(t)) => {
            let (s, ns) = t.since_epoch();
            (Some(s), Some(ns))
        },
        _ => (None, None),
    }
}

/// The request for a change of attributes.
pub fn setattr_request(
    ino: u64,
    mode: Option<u32>,
    uid: Option<u32>,
    gid: Option<u32>,
    size: Option<u64>,
    atime: Option<TimeOrNow>,
    mtime: Option<TimeOrNow>,
) -> (r: SetAttrReq)
    ensures
        r == (SetAttrReq {
            ino,
            size,
            mode,
            uid,
            gid,
            atime_s: asked_time(atime).0,
            atime_ns: asked_time(atime).1,
            mtime_s: asked_time(mtime).0,
            mtime_ns: asked_time(mtime).1,
        }),
{
    let (atime_s, atime_ns) = ask_time(atime);
    let (mtime_s, mtime_ns) = ask_time(mtime);
    SetAttrReq { ino, size, mode, uid, gid, atime_s, atime_ns, mtime_s, mtime_ns }
}

/// Whether the kernel is told the number `n` for a call that failed with `s`.
pub open spec fn told_failure(s: Status, n: int) -> bool {
    is_errno(error_of_status(s@, None), n)
}

/// The number that the kernel is told for a call that failed.
fn failure(s: Status) -> (n: i32)
    ensures
        told_failure(s, n as int),
{
    i32::from(DtmpfsError::from_status(s, None))
}

/// What the kernel is told of a call that gives nothing back.
pub fn empty_reply(resp: Result<Empty, Status>) -> (r: Result<(), i32>)
    ensures
        match (resp, r) {
            (Ok(_), Ok(_)) => true,
            (Err(s), Err(n)) => told_failure(s, n as int),
            _ => false,
        },
{
    match resp {
        Ok(_) => Ok(()),
        Err(s) => Err(failure(s)),
    }
}

/// How full the filesystem is.
#[derive(Copy, Clone, Debug, PartialEq, Eq, Structural)]
pub struct StatFs {
    pub blocks: u64,
    pub bfree: u64,
    pub bavail: u64,
    pub files: u64,
    pub ffree: u64,
    pub bsize: u32,
    pub namelen: u32,
    pub frsize: u32,
}

/// The bytes that nodes have in all.
pub open spec fn capacity_sum(nodes: Seq<ProtoNodeView>) -> nat
    decreases nodes.len(),
{
    if nodes.len() == 0 {
        0
    } else {
        capacity_sum(nodes.drop_last()) + nodes.last().capacity_bytes as nat
    }
}

/// The bytes that nodes have in use.
pub open spec fn used_sum(nodes: Seq<ProtoNodeView>) -> nat
    decreases nodes.len(),
{
    if nodes.len() == 0 {
        0
    } else {
        used_sum(nodes.drop_last()) + nodes.last().used_bytes as nat
    }
}

proof fn lemma_sums_monotone(nodes: Seq<ProtoNodeView>, i: int)
    requires
        0 <= i <= nodes.len(),
    ensures
        capacity_sum(nodes.take(i)) <= capacity_sum(nodes),
        used_sum(nodes.take(i)) <= used_sum(nodes),
    decreases nodes.len(),
{
    if i == nodes.len() {
        assert(nodes.take(i) =~= nodes);
    } else {
        assert(nodes.drop_last().take(i) =~= nodes.take(i));
        lemma_sums_monotone(nodes.drop_last(), i);
    }
}

/// How full the filesystem is, in blocks of `bs` bytes.
pub open spec fn fullness(nodes: Seq<ProtoNodeView>, bs: u64) -> StatFs {
    let total = capacity_sum(nodes);
    let used = used_sum(nodes);
    let free = if used <= total {
        total - used
    } else {
        0
    };
    StatFs {
        blocks: (total / bs as nat) as u64,
        bfree: (free / bs as int) as u64,
        bavail: (free / bs as int) as u64,
        files: 0,
        ffree: 0,
        bsize: bs as u32,
        namelen: 255,
        frsize: 0,
    }
}

/// One line of a directory as the kernel is told it.
#[derive(Debug, PartialEq, Eq)]
pub struct DirLine {
    pub ino: u64,
    pub offset: i64,
    pub kind: FileType,
    pub name: String,
}

/// What a [`DirLine`] says, as mathematical values.
pub struct DirLineView {
    pub ino: u64,
    pub offset: i64,
    pub kind: FileType,
    pub name: Seq<char>,
}

impl View for DirLine {
    type V = DirLineView;

    open spec fn view(&self) -> DirLineView {
        DirLineView {
            ino: self.ino,
            offset: self.offset,
            kind: self.kind,
            name: self.name@,
        }
    }
}

/// What a list of lines says.
pub open spec fn lines_view(v: Seq<DirLine>) -> Seq<DirLineView> {
    Seq::new(v.len(), |i: int| v[i]@)
}

/// The lines of a directory behind the first `skip`; each is told the number of
/// the next one.
pub open spec fn dir_lines_from(entries: Seq<DirEntryView>, skip: nat) -> Seq<DirLineView> {
    Seq::new(
        if skip < entries.len() {
            (entries.len() - skip) as nat
        } else {
            0
        },
        |i: int|
            DirLineView {
                ino: entries[skip + i].ino,
                offset: (skip + i + 1) as i64,
                kind: number_type(entries[skip + i].kind),
                name: entries[skip + i].name,
            },
    )
}

/// The number of entries that are asked for with one request.
pub const DIR_PAGE: u32 = 256;

/// The reading of a directory, page by page.
pub struct DirReader {
    pub ino: u64,
    pub cookie: Bytes,
    pub entries: Vec<DirEntry>,
}

impl DirReader {
    pub fn new(ino: u64) -> (r: DirReader)
        ensures
            r.ino == ino,
            bytes_view(r.cookie) == Seq::<u8>::empty(),
            entries_view(r.entries@) == Seq::<DirEntryView>::empty(),
    {
        let r = DirReader { ino, cookie: bytes_from_vec(Vec::new()), entries: Vec::new() };
        assert(entries_view(r.entries@) =~= Seq::<DirEntryView>::empty());
        r
    }

    /// The request for the next page.
    pub fn request(&self) -> (r: ReadDirReq)
        ensures
            r.ino == self.ino,
            bytes_view(r.cookie) == bytes_view(self.cookie),
            r.max_entries == DIR_PAGE,
            r.max_entries == 256,
    {
        ReadDirReq { ino: self.ino, cookie: bytes_clone(&self.cookie), max_entries: DIR_PAGE }
    }

    /// Takes a page, and tells whether it is the last one.
    pub fn accept(&mut self, resp: Result<ReadDirResp, Status>) -> (r: Result<bool, DtmpfsError>)
        ensures
            final(self).ino == old(self).ino,
            match (resp, r) {
                (Ok(page), Ok(last)) => {
                    &&& last == page.eof
                    &&& entries_view(final(self).entries@) == entries_view(old(self).entries@)
                        + entries_view(page.entries@)
                    &&& bytes_view(final(self).cookie) == if page.eof {
                        bytes_view(old(self).cookie)
                    } else {
                        bytes_view(page.next_cookie)
                    }
                },
                (Err(s), Err(e)) => {
                    &&& e@ == error_of_status(s@, None)
                    &&& entries_view(final(self).entries@) == entries_view(old(self).entries@)
                    &&& bytes_view(final(self).cookie) == bytes_view(old(self).cookie)
                },
                _ => false,
            },
    {
        match resp {
            Err(s) => Err(DtmpfsError::from_status(s, None)),
            Ok(page) => {
                let ghost before = self.entries@;
                let ghost more = page.entries@;
                let mut entries = page.entries;
                self.entries.append(&mut entries);
                assert(entries_view(self.entries@) =~= entries_view(before) + entries_view(more));
                if !page.eof {
                    self.cookie = page.next_cookie;
                }
                Ok(page.eof)
            },
        }
    }

    /// The lines that the kernel is told, behind the first `offset`.
    pub fn lines(&self, offset: i64) -> (r: Vec<DirLine>)
        requires
            self.entries@.len() <= i64::MAX,
        ensures
            lines_view(r@) == if offset < 0 {
                Seq::<DirLineView>::empty()
            } else {
                dir_lines_from(entries_view(self.entries@), offset as nat)
            },
    {
        let mut out: Vec<DirLine> = Vec::new();
        let ghost all = entries_view(self.entries@);
        let len: usize = self.entries.len();
        if offset < 0 || offset as u64 >= len as u64 {
            assert(lines_view(out@) =~= Seq::<DirLineView>::empty());
            assert(offset >= 0 ==> dir_lines_from(all, offset as nat) =~= Seq::<
                DirLineView,
            >::empty());
            return out;
        }
        let skip: usize = offset as usize;
        let ghost want = dir_lines_from(all, skip as nat);
        let mut i: usize = skip;
        while i < len
            invariant
                skip <= i <= len,
                len == self.entries@.len(),
                len <= i64::MAX,
                all == entries_view(self.entries@),
                want == dir_lines_from(all, skip as nat),
                lines_view(out@) == want.take(i - skip),
            decreases len - i,
        {
            let e = &self.entries[i];
            let ghost before = out@;
            out.push(
                DirLine {
                    ino: e.ino,
                    offset: (i + 1) as i64,
                    kind: proto_kind_to_fuse(e.kind),
                    name: e.name.clone(),
                },
            );
            assert(all[i as int] == e@);
            assert(lines_view(out@) =~= lines_view(before).push(want[i - skip]));
            assert(lines_view(out@) =~= want.take(i + 1 - skip));
            i += 1;
        }
        assert(want.take(len - skip) =~= want);
        out
    }
}

impl DtmpfsFs {
    /// Every open file keeps whole blocks, and blocks that are out of date can
    /// be discarded from the cache.
    pub open spec fn wf(&self) -> bool {
        &&& block_cache_prunes(self.block_cache)
        &&& forall|fh: u64| #[trigger]
            kept_files(self.open_files).contains_key(fh) ==> kept_files(
                self.open_files,
            )[fh]@.wf(self.block_size as nat)
    }

    /// Whether two states differ at most in what is known of attributes.
    pub open spec fn same_but_attrs(&self, other: &DtmpfsFs) -> bool {
        &&& self.stores == other.stores
        &&& self.block_cache == other.block_cache
        &&& self.open_files == other.open_files
        &&& self.same_setup(other)
    }

    /// Whether two states are of mounts set up alike.
    pub open spec fn same_setup(&self, other: &DtmpfsFs) -> bool {
        &&& self.block_size == other.block_size
        &&& self.replication_factor == other.replication_factor
        &&& self.token == other.token
    }

    /// A mount without open files.
    pub fn new(
        block_size: usize,
        replication_factor: usize,
        token: String,
        attr_cache_ttl_ms: u64,
        block_cache_capacity_mb: u64,
    ) -> (fs: DtmpfsFs)
        requires
            attr_cache_ttl_ms <= 31_536_000_000_000,
            block_cache_capacity_mb * 1024 * 1024 <= u64::MAX,
        ensures
            fs.wf(),
            fs.block_size == block_size,
            fs.replication_factor == replication_factor,
            fs.token == token,
            fs.stores@ == Map::<Seq<char>, Seq<char>>::empty(),
            kept_files(fs.open_files) == Map::<u64, OpenFile>::empty(),
            cached_attrs(fs.attr_cache) == Map::<u64, CachedAttr>::empty(),
            attr_cache_capacity(fs.attr_cache) == ATTR_CACHE_ENTRIES,
            attr_cache_capacity(fs.attr_cache) == 100_000,
            crate::outside::cache::attr_cache_ttl_ms(fs.attr_cache) == attr_cache_ttl_ms,
            cached_blocks(fs.block_cache) == Map::<(u64, u64, u64), Seq<u8>>::empty(),
            block_cache_capacity(fs.block_cache) == block_cache_capacity_mb * 1024 * 1024,
    {
        DtmpfsFs {
            stores: StoreClientPool::new(),
            attr_cache: build_attr_cache(attr_cache_ttl_ms),
            block_cache: build_block_cache(block_cache_capacity_mb),
            open_files: files_new(),
            block_size,
            replication_factor,
            token,
        }
    }

    fn remember(&mut self, ino: u64, attr: FileAttr, at: u128)
        ensures
            final(self).same_but_attrs(old(self)),
            cached_attrs(final(self).attr_cache) == cached_attrs(old(self).attr_cache).insert(
                ino,
                CachedAttr { attr, fetched: at },
            ),
    {
        attr_cache_insert(&mut self.attr_cache, ino, CachedAttr { attr, fetched: at });
    }

    /// What the kernel is told of an entry that was looked up at the time `at`.
    pub fn lookup(&mut self, resp: Result<LookupResp, Status>, at: u128) -> (r: Result<
        FileAttr,
        i32,
    >)
        requires
            resp matches Ok(x) ==> (x.attr matches Some(a) ==> times_tellable(a)),
        ensures
            final(self).same_but_attrs(old(self)),
            match resp {
                Ok(x) => match x.attr {
                    Some(a) => {
                        &&& r == Ok::<FileAttr, i32>(kernel_attr(a))
                        &&& cached_attrs(final(self).attr_cache) == cached_attrs(
                            old(self).attr_cache,
                        ).insert(a.ino, CachedAttr { attr: kernel_attr(a), fetched: at })
                    },
                    None => r == Err::<FileAttr, i32>(2) && final(self).attr_cache == old(self).attr_cache,
                },
                Err(s) => (r matches Err(n) && told_failure(s, n as int)) && final(self).attr_cache
                    == old(self).attr_cache,
            },
    {
        match resp {
            Ok(x) => match x.attr {
                Some(a) => {
                    let fa = proto_attr_to_fuse(&a);
                    self.remember(fa.ino, fa, at);
                    Ok(fa)
                },
                None => Err(enoent()),
            },
            Err(s) => Err(failure(s)),
        }
    }

    /// Attributes that are remembered.
    pub fn cached_attr(&self, ino: u64) -> (r: Option<FileAttr>)
        ensures
            r matches Some(a) ==> cached_attrs(self.attr_cache).contains_key(ino) && a
                == cached_attrs(self.attr_cache)[ino].attr,
    {
        attr_of_cached(attr_cache_get(&self.attr_cache, ino))
    }

    /// What the kernel is told of attributes that were asked for at the time
    /// `at`.
    pub fn getattr(&mut self, ino: u64, resp: Result<Attr, Status>, at: u128) -> (r: Result<
        FileAttr,
        i32,
    >)
        requires
            resp matches Ok(a) ==> times_tellable(a),
        ensures
            final(self).same_but_attrs(old(self)),
            match resp {
                Ok(a) => {
                    &&& r == Ok::<FileAttr, i32>(kernel_attr(a))
                    &&& cached_attrs(final(self).attr_cache) == cached_attrs(
                        old(self).attr_cache,
                    ).insert(ino, CachedAttr { attr: kernel_attr(a), fetched: at })
                },
                Err(s) => (r matches Err(n) && told_failure(s, n as int)) && final(self).attr_cache
                    == old(self).attr_cache,
            },
    {
        match resp {
            Ok(a) => {
                let fa = proto_attr_to_fuse(&a);
                self.remember(ino, fa, at);
                Ok(fa)
            },
            Err(s) => Err(failure(s)),
        }
    }

    /// What the kernel is told of attributes that were changed at the time
    /// `at`.
    pub fn setattr(&mut self, ino: u64, resp: Result<SetAttrResp, Status>, at: u128) -> (r: Result<
        FileAttr,
        i32,
    >)
        requires
            resp matches Ok(x) ==> (x.attr matches Some(a) ==> times_tellable(a)),
        ensures
            final(self).same_but_attrs(old(self)),
            match resp {
                Ok(x) => match x.attr {
                    Some(a) => {
                        &&& r == Ok::<FileAttr, i32>(kernel_attr(a))
                        &&& cached_attrs(final(self).attr_cache) == cached_attrs(
                            old(self).attr_cache,
                        ).insert(ino, CachedAttr { attr: kernel_attr(a), fetched: at })
                    },
                    None => r == Err::<FileAttr, i32>(5) && final(self).attr_cache == old(self).attr_cache,
                },
                Err(s) => (r matches Err(n) && told_failure(s, n as int)) && final(self).attr_cache
                    == old(self).attr_cache,
            },
    {
        match resp {
            Ok(x) => match x.attr {
                Some(a) => {
                    let fa = proto_attr_to_fuse(&a);
                    self.remember(ino, fa, at);
                    Ok(fa)
                },
                None => Err(eio()),
            },
            Err(s) => Err(failure(s)),
        }
    }

    /// Opens a file that was made at the time `at`; the kernel is told its
    /// attributes and its handle.
    pub fn create(&mut self, flags: i32, resp: Result<CreateResp, Status>, at: u128) -> (r: Result<
        (FileAttr, u64),
        i32,
    >)
        requires
            old(self).wf(),
            resp matches Ok(x) ==> (x.attr matches Some(a) ==> times_tellable(a)),
        ensures
            final(self).wf(),
            final(self).same_setup(old(self)),
            final(self).stores == old(self).stores,
            final(self).block_cache == old(self).block_cache,
            match resp {
                Ok(x) => match x.attr {
                    Some(a) => {
                        &&& r == Ok::<(FileAttr, u64), i32>((kernel_attr(a), x.fh))
                        &&& cached_attrs(final(self).attr_cache) == cached_attrs(
                            old(self).attr_cache,
                        ).insert(a.ino, CachedAttr { attr: kernel_attr(a), fetched: at })
                        &&& opened(
                            old(self),
                            final(self),
                            x.fh,
                            opened_view(a.ino, a, block_map_view(x.block_map@), flags),
                        )
                    },
                    None => r == Err::<(FileAttr, u64), i32>(5) && final(self).attr_cache == old(self).attr_cache && final(self).open_files == old(self).open_files,
                },
                Err(s) => (r matches Err(n) && told_failure(s, n as int)) && final(self).attr_cache
                    == old(self).attr_cache && final(self).open_files == old(self).open_files,
            },
    {
        match resp {
            Ok(x) => match x.attr {
                Some(a) => {
                    let fa = proto_attr_to_fuse(&a);
                    let (fh, of) = Self::build_open_file(
                        InodeId(a.ino),
                        x.fh,
                        &a,
                        x.block_map,
                        flags,
                    );
                    files_insert(&mut self.open_files, fh, of);
                    self.remember(fa.ino, fa, at);
                    Ok((fa, fh))
                },
                None => Err(eio()),
            },
            Err(s) => Err(failure(s)),
        }
    }

    /// Opens a file; the kernel is told its handle.
    pub fn open(&mut self, ino: u64, flags: i32, resp: Result<OpenResp, Status>) -> (r: Result<
        u64,
        i32,
    >)
        requires
            old(self).wf(),
        ensures
            final(self).wf(),
            final(self).same_setup(old(self)),
            final(self).stores == old(self).stores,
            final(self).block_cache == old(self).block_cache,
            final(self).attr_cache == old(self).attr_cache,
            match resp {
                Ok(x) => match x.attr {
                    Some(a) => {
                        &&& r == Ok::<u64, i32>(x.fh)
                        &&& opened(
                            old(self),
                            final(self),
                            x.fh,
                            opened_view(ino, a, block_map_view(x.block_map@), flags),
                        )
                    },
                    None => r == Err::<u64, i32>(5) && final(self).open_files == old(self).open_files,
                },
                Err(s) => (r matches Err(n) && told_failure(s, n as int)) && final(self).open_files
                    == old(self).open_files,
            },
    {
        match resp {
            Ok(x) => match x.attr {
                Some(a) => {
                    let (fh, of) = Self::build_open_file(
                        InodeId(ino),
                        x.fh,
                        &a,
                        x.block_map,
                        flags,
                    );
                    files_insert(&mut self.open_files, fh, of);
                    Ok(fh)
                },
                None => Err(eio()),
            },
            Err(s) => Err(failure(s)),
        }
    }

    /// What the kernel is told of a directory that was made at the time `at`.
    pub fn mkdir(&mut self, resp: Result<Attr, Status>, at: u128) -> (r: Result<FileAttr, i32>)
        requires
            resp matches Ok(a) ==> times_tellable(a),
        ensures
            final(self).same_but_attrs(old(self)),
            match resp {
                Ok(a) => {
                    &&& r == Ok::<FileAttr, i32>(kernel_attr(a))
                    &&& cached_attrs(final(self).attr_cache) == cached_attrs(
                        old(self).attr_cache,
                    ).insert(a.ino, CachedAttr { attr: kernel_attr(a), fetched: at })
                },
                Err(s) => (r matches Err(n) && told_failure(s, n as int)) && final(self).attr_cache
                    == old(self).attr_cache,
            },
    {
        match resp {
            Ok(a) => {
                let fa = proto_attr_to_fuse(&a);
                self.remember(fa.ino, fa, at);
                Ok(fa)
            },
            Err(s) => Err(failure(s)),
        }
    }

    /// Takes an open file to work on it.
    pub fn take_file(&mut self, fh: u64) -> (r: Result<OpenFile, DtmpfsError>)
        requires
            old(self).wf(),
        ensures
            final(self).wf(),
            final(self).same_setup(old(self)),
            final(self).stores == old(self).stores,
            final(self).block_cache == old(self).block_cache,
            final(self).attr_cache == old(self).attr_cache,
            kept_files(final(self).open_files) == kept_files(old(self).open_files).remove(fh),
            match r {
                Ok(of) => kept_files(old(self).open_files).contains_key(fh) && of == kept_files(
                    old(self).open_files,
                )[fh] && of@.wf(old(self).block_size as nat),
                Err(e) => !kept_files(old(self).open_files).contains_key(fh) && e@
                    == ErrorView::NotFound,
            },
    {
        let ghost before = kept_files(self.open_files);
        let r = files_remove(&mut self.open_files, fh);
        assert forall|h: u64| #[trigger]
            kept_files(self.open_files).contains_key(h) implies kept_files(
            self.open_files,
        )[h]@.wf(self.block_size as nat) by {
            assert(before.contains_key(h));
        }
        match r {
            Some(of) => Ok(of),
            None => Err(DtmpfsError::NotFound),
        }
    }

    /// Puts an open file back.
    pub fn put_file(&mut self, fh: u64, of: OpenFile)
        requires
            old(self).wf(),
            of@.wf(old(self).block_size as nat),
        ensures
            final(self).wf(),
            final(self).same_setup(old(self)),
            final(self).stores == old(self).stores,
            final(self).block_cache == old(self).block_cache,
            final(self).attr_cache == old(self).attr_cache,
            kept_files(final(self).open_files) == kept_files(old(self).open_files).insert(fh, of),
    {
        let ghost before = kept_files(self.open_files);
        files_insert(&mut self.open_files, fh, of);
        assert forall|h: u64| #[trigger]
            kept_files(self.open_files).contains_key(h) implies kept_files(
            self.open_files,
        )[h]@.wf(self.block_size as nat) by {
            assert(h == fh || before.contains_key(h));
        }
    }

    /// Gives a handle up, once what was written under it has been published;
    /// where that failed, the handle stays.
    pub fn release(&mut self, fh: u64, published: Result<(), DtmpfsError>) -> (r: Result<(), i32>)
        requires
            old(self).wf(),
        ensures
            final(self).wf(),
            final(self).same_setup(old(self)),
            final(self).stores == old(self).stores,
            final(self).block_cache == old(self).block_cache,
            final(self).attr_cache == old(self).attr_cache,
            match (published, r) {
                (Ok(_), Ok(_)) => kept_files(final(self).open_files) == kept_files(
                    old(self).open_files,
                ).remove(fh),
                (Err(e), Err(n)) => is_errno(e@, n as int) && final(self).open_files == old(self).open_files,
                _ => false,
            },
    {
        match published {
            Ok(_) => {
                let ghost before = kept_files(self.open_files);
                let _gone = files_remove(&mut self.open_files, fh);
                assert forall|h: u64| #[trigger]
                    kept_files(self.open_files).contains_key(h) implies kept_files(
                    self.open_files,
                )[h]@.wf(self.block_size as nat) by {
                    assert(before.contains_key(h));
                }
                Ok(())
            },
            Err(e) => Err(i32::from(e)),
        }
    }

    /// How full the filesystem is, by what the storage nodes told.
    pub fn statfs(&self, resp: Result<NodeList, Status>) -> (r: StatFs)
        requires
            resp matches Ok(list) ==> self.block_size > 0 && capacity_sum(
                node_list_view(list.nodes@),
            ) <= u64::MAX
                && used_sum(node_list_view(list.nodes@)) <= u64::MAX,
        ensures
            r == match resp {
                Ok(list) => fullness(node_list_view(list.nodes@), self.block_size as u64),
                Err(_) => StatFs {
                    blocks: 0,
                    bfree: 0,
                    bavail: 0,
                    files: 0,
                    ffree: 0,
                    bsize: self.block_size as u32,
                    namelen: 255,
                    frsize: 0,
                },
            },
    {
        let bs: u64 = self.block_size as u64;
        let bsize: u32 = #[verifier::truncate]
        (self.block_size as u32);
        match resp {
            Ok(list) => {
                let mut total: u64 = 0;
                let mut used: u64 = 0;
                let mut i: usize = 0;
                let ghost all = node_list_view(list.nodes@);
                while i < list.nodes.len()
                    invariant
                        i <= list.nodes@.len(),
                        all == node_list_view(list.nodes@),
                        total == capacity_sum(all.take(i as int)),
                        used == used_sum(all.take(i as int)),
                        capacity_sum(all) <= u64::MAX,
                        used_sum(all) <= u64::MAX,
                    decreases list.nodes.len() - i,
                {
                    proof {
                        assert(all.take(i + 1).drop_last() =~= all.take(i as int));
                        assert(all.take(i + 1).last() == list.nodes@[i as int]@);
                        lemma_sums_monotone(all, i + 1);
                    }
                    total = total + list.nodes[i].capacity_bytes;
                    used = used + list.nodes[i].used_bytes;
                    i += 1;
                }
                assert(all.take(i as int) =~= all);
                let free: u64 = total.saturating_sub(used);
                StatFs {
                    blocks: total / bs,
                    bfree: free / bs,
                    bavail: free / bs,
                    files: 0,
                    ffree: 0,
                    bsize,
                    namelen: 255,
                    frsize: 0,
                }
            },
            Err(_) => StatFs {
                blocks: 0,
                bfree: 0,
                bavail: 0,
                files: 0,
                ffree: 0,
                bsize,
                namelen: 255,
                frsize: 0,
            },
        }
    }
}

/// The attributes that a cache gave.
pub fn attr_of_cached(cached: Option<CachedAttr>) -> (r: Option<FileAttr>)
    ensures
        r == match cached {
            Some(c) => Some(c.attr),
            None => None,
        },
{
    match cached {
        Some(c) => Some(c.attr),
        None => None,
    }
}

/// A file as it is when it was just opened.
pub open spec fn opened_view(
    ino: u64,
    a: Attr,
    locs: Seq<(u64, crate::id::PlacementView)>,
    flags: i32,
) -> OpenView {
    OpenView {
        ino,
        generation: a.generation,
        block_map: with_locations(Map::empty(), locs),
        dirty: Map::empty(),
        size_hint: a.size,
        flags,
    }
}

/// Whether the handle `fh` was given to a file that is as `v` says.
pub open spec fn opened(before: &DtmpfsFs, after: &DtmpfsFs, fh: u64, v: OpenView) -> bool {
    let files = kept_files(after.open_files);
    files.contains_key(fh) && files[fh]@ == v && files == kept_files(before.open_files).insert(
        fh,
        files[fh],
    )
}

} // verus!
