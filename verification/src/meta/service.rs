//! The requests that the metadata server answers.

use bytes::Bytes;
use std::collections::BTreeMap;
use vstd::prelude::*;
use vstd::utf8::*;

use crate::error::{Code, Status};
use crate::id::{BlockIdx, BlockPlacement, Generation, InodeId, InodeKind, NodeId};
use crate::meta::directory::{listing, names_up_to, Directory};
use crate::meta::edits::{
    cut_blocks, deletes_view, list_blocks, placed_view, BlockDelete,
};
use crate::meta::model::{
    block_list, blocks_past, changed_inode, clamp, kind_number, last_kept, proto_node, shrinks,
    times_representable, up_nodes, CloseArgs, InodeView, MakeArgs, MetaView, MoveArgs, NodeView,
    OpenHandleSt,
};
use crate::meta::state::{build_attr, Inode, MetaState, NodeInfo};
use crate::ordered::{map_get, map_insert};
use crate::outside::blob::{bytes_from_slice, bytes_from_vec, bytes_slice, bytes_view};
use crate::outside::text::text_from_utf8;
use crate::proto::{
    block_map_view, entries_view, node_list_view, texts, AllocReq, AllocResp, Attr, BlockLoc,
    CloseReq, CloseResp, CreateReq, CreateResp, DirEntry, DirEntryView, Empty, GetAttrReq,
    HeartbeatReq, HeartbeatResp, LookupReq, LookupResp, MkdirReq, NodeList, NodeStatus, OpenReq,
    OpenResp, ProtoNodeInfo, ReadDirReq, ReadDirResp, RenameReq, RmdirReq, SetAttrReq, SetAttrResp,
    UnlinkReq,
};
use crate::time::Timestamp;

verus! {

/// The metadata server.
pub struct MetaService {
    pub state: MetaState,
    pub token: String,
}

fn not_found() -> (s: Status)
    ensures
        s@ == crate::meta::model::not_found(),
{
    Status::new(Code::NotFound, "inode not found")
}

/// The number that stands for a kind of inode in a directory listing.
pub fn kind_u32(k: InodeKind) -> (n: u32)
    ensures
        n == kind_number(k),
{
    match k {
        InodeKind::File => 1,
        InodeKind::Dir => 2,
        InodeKind::Symlink => 3,
    }
}

/// Where a block lies, as it is told.
pub fn placement_to_block_loc(idx: BlockIdx, p: &BlockPlacement) -> (l: BlockLoc)
    ensures
        l@ == (idx.0, p@),
{
    let mut replicas: Vec<String> = Vec::new();
    let mut i: usize = 0;
    while i < p.replicas.len()
        invariant
            i <= p.replicas@.len(),
            texts(replicas@) == p@.replicas.take(i as int),
        decreases p.replicas.len() - i,
    {
        let ghost before = replicas@;
        replicas.push(p.replicas[i].as_str().to_owned());
        assert(texts(replicas@) =~= texts(before).push(p@.replicas[i as int]));
        assert(texts(replicas@) =~= p@.replicas.take(i + 1));
        i += 1;
    }
    assert(p@.replicas.take(i as int) =~= p@.replicas);
    BlockLoc { block_idx: idx.0, primary: p.primary.as_str().to_owned(), replicas }
}

/// A storage node as it is told to others.
pub fn node_info_to_proto(ni: &NodeInfo) -> (p: ProtoNodeInfo)
    ensures
        p@ == proto_node(ni@),
{
    ProtoNodeInfo {
        node_id: ni.node_id.as_str().to_owned(),
        addr: ni.addr.clone(),
        status: ni.status,
        used_bytes: ni.ram_used,
        capacity_bytes: ni.ram_total,
        last_heartbeat_s: 0,
    }
}

/// The name behind which a page starts: none for an empty cookie, nor for one
/// that is not UTF-8.
pub open spec fn cookie_name(cookie: Seq<u8>) -> Option<Seq<char>> {
    if valid_utf8(cookie) && cookie.len() > 0 {
        Some(decode_utf8(cookie))
    } else {
        None
    }
}

/// The most entries that a page may have.
pub open spec fn page_limit(max_entries: u32) -> nat {
    if max_entries == 0 {
        usize::MAX as nat
    } else {
        max_entries as nat
    }
}

/// The cookie that asks for what follows `entries`.
pub open spec fn next_cookie(entries: Seq<DirEntryView>) -> Seq<u8> {
    if entries.len() == 0 {
        Seq::empty()
    } else {
        encode_utf8(entries.last().name)
    }
}

pub open spec fn create_args(r: CreateReq) -> MakeArgs {
    MakeArgs { parent: r.parent_ino, name: r.name@, mode: r.mode, uid: r.uid, gid: r.gid }
}

pub open spec fn mkdir_args(r: MkdirReq) -> MakeArgs {
    MakeArgs { parent: r.parent_ino, name: r.name@, mode: r.mode, uid: r.uid, gid: r.gid }
}

pub open spec fn move_args(r: RenameReq) -> MoveArgs {
    MoveArgs {
        src_parent: r.src_parent_ino,
        src_name: r.src_name@,
        dst_parent: r.dst_parent_ino,
        dst_name: r.dst_name@,
    }
}

pub open spec fn close_args(r: CloseReq) -> CloseArgs {
    CloseArgs {
        fh: r.fh,
        expected_generation: r.expected_generation,
        new_size: r.new_size,
        mtime_s: r.mtime_s,
        mtime_ns: r.mtime_ns,
        written: r.written_block_idxs@,
    }
}

/// Seconds before the epoch count as the epoch.
fn clamp_secs(secs: i64) -> (r: u64)
    ensures
        r == clamp(secs),
{
    if secs < 0 {
        0
    } else {
        secs as u64
    }
}

/// Makes the changes that a request asks for, and returns the blocks that it
/// cuts off.
fn change_inode(inode: &mut Inode, r: &SetAttrReq, now: Timestamp) -> (dropped: Vec<
    (u64, BlockPlacement),
>)
    requires
        times_representable(*r),
    ensures
        final(inode)@ == changed_inode(old(inode)@, *r, now),
        placed_view(dropped@) == if shrinks(old(inode)@, *r) {
            block_list(
                blocks_past(old(inode)@.blocks, last_kept(r.size->0)),
            )
        } else {
            Seq::empty()
        },
{
    if let Some(mode) = r.mode {
        inode.mode = mode;
    }
    if let Some(uid) = r.uid {
        inode.uid = uid;
    }
    if let Some(gid) = r.gid {
        inode.gid = gid;
    }
    if let Some(s) = r.atime_s {
        let ns: u32 = match r.atime_ns {
            Some(n) => n,
            None => 0,
        };
        inode.atime = Timestamp::after_epoch(clamp_secs(s), ns);
    }
    if let Some(s) = r.mtime_s {
        let ns: u32 = match r.mtime_ns {
            Some(n) => n,
            None => 0,
        };
        inode.mtime = Timestamp::after_epoch(clamp_secs(s), ns);
    }
    let mut dropped: Vec<(u64, BlockPlacement)> = Vec::new();
    assert(placed_view(dropped@) =~= Seq::empty());
    if let Some(new_size) = r.size {
        if new_size < inode.size {
            let block_size: u64 = 0x10_0000;
            let last_idx: u64 = if new_size == 0 {
                0
            } else {
                (new_size - 1) / block_size
            };
            dropped = cut_blocks(&mut inode.blocks, last_idx);
        }
        inode.size = new_size;
    }
    inode.ctime = now;
    dropped
}

impl MetaService {
    pub open spec fn wf(&self) -> bool {
        self.state.wf()
    }

    pub fn lookup(&self, r: LookupReq) -> (resp: Result<LookupResp, Status>)
        requires
            self.wf(),
        ensures
            match (resp, self.state@.lookup(r.parent_ino, r.name@)) {
                (Ok(x), Ok(attr)) => x.attr == Some(attr),
                (Err(e), Err(s)) => e@ == s,
                _ => false,
            },
    {
        broadcast use vstd::std_specs::hash::group_hash_axioms;

        match self.state.entry(r.parent_ino, &r.name) {
            Some(child_ino) => match self.state.inodes.get(&child_ino) {
                Some(inode) => Ok(LookupResp { attr: Some(build_attr(inode)) }),
                None => Err(not_found()),
            },
            None => Err(not_found()),
        }
    }

    pub fn get_attr(&self, r: GetAttrReq) -> (resp: Result<Attr, Status>)
        requires
            self.wf(),
        ensures
            match (resp, self.state@.get_attr(r.ino)) {
                (Ok(x), Ok(attr)) => x == attr,
                (Err(e), Err(s)) => e@ == s,
                _ => false,
            },
    {
        broadcast use vstd::std_specs::hash::group_hash_axioms;

        match self.state.inodes.get(&r.ino) {
            Some(inode) => Ok(build_attr(inode)),
            None => Err(not_found()),
        }
    }

    /// Changes attributes. Beside the answer come the requests that delete
    /// what was cut off.
    pub fn set_attr(&mut self, r: SetAttrReq, now: Timestamp) -> (resp: Result<
        (SetAttrResp, Vec<BlockDelete>),
        Status,
    >)
        requires
            old(self).wf(),
            old(self).state@.inodes.contains_key(r.ino) ==> times_representable(r),
        ensures
            final(self).wf(),
            final(self).token == old(self).token,
            final(self).state@ == old(self).state@.set_attr(r, now).0,
            match (resp, old(self).state@.set_attr(r, now).1) {
                (Ok(x), Ok(y)) => x.0.attr == Some(y.0) && deletes_view(x.1@) == y.1,
                (Err(e), Err(s)) => e@ == s,
                _ => false,
            },
    {
        let ghost before = self.state@;
        match self.state.take_inode(r.ino) {
            None => {
                assert(self.state@ =~= before);
                Err(not_found())
            },
            Some(mut inode) => {
                let dropped = change_inode(&mut inode, &r, now);
                let attr = build_attr(&inode);
                let ghost changed = inode@;
                self.state.put_inode(r.ino, inode);
                assert(self.state@ =~= before.with_inode(r.ino, changed));
                let deletes = self.state.fire_delete_blocks(&dropped, InodeId(r.ino));
                Ok((SetAttrResp { attr: Some(attr) }, deletes))
            },
        }
    }

    /// Makes a file, and opens it.
    pub fn create(&mut self, r: CreateReq, now: Timestamp) -> (resp: Result<CreateResp, Status>)
        requires
            old(self).wf(),
        ensures
            final(self).wf(),
            final(self).token == old(self).token,
            final(self).state@ == old(self).state@.create(create_args(r), now).0,
            match (resp, old(self).state@.create(create_args(r), now).1) {
                (Ok(x), Ok(y)) => x.attr == Some(y.0) && x.fh == y.1 && x.block_map@.len() == 0,
                (Err(e), Err(s)) => e@ == s,
                _ => false,
            },
    {
        broadcast use vstd::std_specs::hash::group_hash_axioms;

        let ghost before = self.state@;
        match self.state.dirs.get(&r.parent_ino) {
            None => {
                return Err(Status::new(Code::NotFound, "parent not found"));
            },
            Some(dir) => {
                if dir.contains(&r.name) {
                    return Err(Status::new(Code::AlreadyExists, "entry already exists"));
                }
            },
        }
        let ino = self.state.alloc_ino();
        let inode = Inode {
            ino,
            kind: InodeKind::File,
            mode: 0o100000 | (r.mode & 0o7777),
            uid: r.uid,
            gid: r.gid,
            size: 0,
            nlink: 1,
            atime: now,
            mtime: now,
            ctime: now,
            generation: Generation(0),
            blocks: BTreeMap::new(),
            symlink_target: None,
        };
        assert(inode@.blocks =~= Map::empty());
        let attr = build_attr(&inode);
        self.state.put_inode(ino.0, inode);
        self.state.put_entry(r.parent_ino, r.name, ino.0);
        let fh: u64 = self.state.alloc_fh();
        self.state.open_handles.insert(
            fh,
            OpenHandleSt { fh, ino, flags: 0, generation_at_open: Generation(0) },
        );
        assert(self.state@ =~= before.create(create_args(r), now).0);
        Ok(CreateResp { attr: Some(attr), fh, block_map: Vec::new() })
    }

    /// Makes a directory.
    pub fn mkdir(&mut self, r: MkdirReq, now: Timestamp) -> (resp: Result<Attr, Status>)
        requires
            old(self).wf(),
            old(self).state@.make_refusal(r.parent_ino, r.name@) is None ==> old(self).state@.dir_made(mkdir_args(r), now).link_fits(r.parent_ino),
        ensures
            final(self).wf(),
            final(self).token == old(self).token,
            final(self).state@ == old(self).state@.mkdir(mkdir_args(r), now).0,
            match (resp, old(self).state@.mkdir(mkdir_args(r), now).1) {
                (Ok(x), Ok(attr)) => x == attr,
                (Err(e), Err(s)) => e@ == s,
                _ => false,
            },
    {
        broadcast use vstd::std_specs::hash::group_hash_axioms;

        let ghost before = self.state@;
        match self.state.dirs.get(&r.parent_ino) {
            None => {
                return Err(Status::new(Code::NotFound, "parent not found"));
            },
            Some(dir) => {
                if dir.contains(&r.name) {
                    return Err(Status::new(Code::AlreadyExists, "entry already exists"));
                }
            },
        }
        let ino = self.state.alloc_ino();
        let inode = Inode {
            ino,
            kind: InodeKind::Dir,
            mode: 0o040000 | (r.mode & 0o7777),
            uid: r.uid,
            gid: r.gid,
            size: 4096,
            nlink: 2,
            atime: now,
            mtime: now,
            ctime: now,
            generation: Generation(0),
            blocks: BTreeMap::new(),
            symlink_target: None,
        };
        assert(inode@.blocks =~= Map::empty());
        let attr = build_attr(&inode);
        self.state.put_inode(ino.0, inode);
        self.state.put_dir(ino.0);
        self.state.put_entry(r.parent_ino, r.name, ino.0);
        assert(self.state@ =~= before.dir_made(mkdir_args(r), now));
        self.state.add_link(r.parent_ino);
        Ok(attr)
    }

    /// Removes a file. Beside the answer come the requests that delete its
    /// blocks.
    pub fn unlink(&mut self, r: UnlinkReq) -> (resp: Result<(Empty, Vec<BlockDelete>), Status>)
        requires
            old(self).wf(),
        ensures
            final(self).wf(),
            final(self).token == old(self).token,
            final(self).state@ == old(self).state@.unlink(r.parent_ino, r.name@).0,
            match (resp, old(self).state@.unlink(r.parent_ino, r.name@).1) {
                (Ok(x), Ok(y)) => deletes_view(x.1@) == y,
                (Err(e), Err(s)) => e@ == s,
                _ => false,
            },
    {
        let ghost before = self.state@;
        let child_ino: u64 = match self.state.entry(r.parent_ino, &r.name) {
            Some(ino) => ino,
            None => {
                return Err(not_found());
            },
        };
        match self.state.kind_of(child_ino) {
            None => {
                return Err(not_found());
            },
            Some(kind) => {
                if kind == InodeKind::Dir {
                    return Err(Status::new(Code::InvalidArgument, "is a directory"));
                }
            },
        }
        self.state.drop_entry(r.parent_ino, &r.name);
        let inode = self.state.take_inode(child_ino).unwrap();
        let file_blocks = list_blocks(&inode.blocks);
        assert(self.state@ =~= before.unlink(r.parent_ino, r.name@).0);
        let deletes = self.state.fire_delete_blocks(&file_blocks, InodeId(child_ino));
        Ok((Empty {  }, deletes))
    }

    /// Removes an empty directory.
    pub fn rmdir(&mut self, r: RmdirReq) -> (resp: Result<Empty, Status>)
        requires
            old(self).wf(),
        ensures
            final(self).wf(),
            final(self).token == old(self).token,
            final(self).state@ == old(self).state@.rmdir(r.parent_ino, r.name@).0,
            match (resp, old(self).state@.rmdir(r.parent_ino, r.name@).1) {
                (Ok(_), Ok(_)) => true,
                (Err(e), Err(s)) => e@ == s,
                _ => false,
            },
    {
        let ghost before = self.state@;
        let child_ino: u64 = match self.state.entry(r.parent_ino, &r.name) {
            Some(ino) => ino,
            None => {
                return Err(not_found());
            },
        };
        match self.state.dir_emptiness(child_ino) {
            None => {
                return Err(Status::new(Code::InvalidArgument, "not a directory"));
            },
            Some(empty) => {
                if !empty {
                    return Err(Status::new(Code::FailedPrecondition, "directory not empty"));
                }
            },
        }
        assert(child_ino != r.parent_ino);
        self.state.drop_dir(child_ino);
        let _gone = self.state.take_inode(child_ino);
        self.state.drop_entry(r.parent_ino, &r.name);
        self.state.drop_link(r.parent_ino);
        Ok(Empty {  })
    }

    /// Moves an entry. Beside the answer come the requests that delete the
    /// blocks of a file that stood in its place. A move of an entry to where it
    /// is does nothing.
    pub fn rename(&mut self, r: RenameReq) -> (resp: Result<(Empty, Vec<BlockDelete>), Status>)
        requires
            old(self).wf(),
            old(self).state@.rename_fits(move_args(r)),
        ensures
            final(self).wf(),
            final(self).token == old(self).token,
            final(self).state@ == old(self).state@.rename(move_args(r)).0,
            match (resp, old(self).state@.rename(move_args(r)).1) {
                (Ok(x), Ok(y)) => deletes_view(x.1@) == y,
                (Err(e), Err(s)) => e@ == s,
                _ => false,
            },
    {
        broadcast use vstd::std_specs::hash::group_hash_axioms;

        let ghost before = self.state@;
        let ghost a = move_args(r);
        let src_ino: u64 = match self.state.entry(r.src_parent_ino, &r.src_name) {
            Some(ino) => ino,
            None => {
                return Err(not_found());
            },
        };
        if r.src_parent_ino == r.dst_parent_ino && r.src_name == r.dst_name {
            let none: Vec<BlockDelete> = Vec::new();
            assert(deletes_view(none@) =~= Seq::empty());
            return Ok((Empty {  }, none));
        }
        if !self.state.dirs.contains_key(&r.dst_parent_ino) {
            return Err(Status::new(Code::NotFound, "dst parent not found"));
        }
        let mut dst_blocks: Vec<(u64, BlockPlacement)> = Vec::new();
        let mut dst_ino: u64 = 0;
        assert(placed_view(dst_blocks@) =~= Seq::empty());
        if let Some(ino) = self.state.entry(r.dst_parent_ino, &r.dst_name) {
            dst_ino = ino;
            let dst_kind = match self.state.kind_of(ino) {
                Some(k) => k,
                None => {
                    return Err(not_found());
                },
            };
            if dst_kind == InodeKind::Dir {
                let empty = match self.state.dir_emptiness(ino) {
                    Some(e) => e,
                    None => true,
                };
                if !empty {
                    return Err(
                        Status::new(Code::FailedPrecondition, "destination directory not empty"),
                    );
                }
                assert(ino != r.src_parent_ino && ino != r.dst_parent_ino);
                self.state.drop_dir(ino);
                self.state.drop_link(r.dst_parent_ino);
            }
            let inode = self.state.take_inode(ino);
            if dst_kind == InodeKind::File {
                if let Some(i) = inode {
                    dst_blocks = list_blocks(&i.blocks);
                }
            }
            self.state.drop_entry(r.dst_parent_ino, &r.dst_name);
        }
        assert(self.state@ =~= before.destination_cleared(a));
        self.state.drop_entry(r.src_parent_ino, &r.src_name);
        assert(self.state@ =~= before.source_taken(a));
        let moved_kind = self.state.kind_of(src_ino);
        self.state.put_entry(r.dst_parent_ino, r.dst_name, src_ino);
        if let Some(k) = moved_kind {
            if k == InodeKind::Dir && r.src_parent_ino != r.dst_parent_ino {
                self.state.drop_link(r.src_parent_ino);
                self.state.add_link(r.dst_parent_ino);
            }
        }
        let deletes = self.state.fire_delete_blocks(&dst_blocks, InodeId(dst_ino));
        Ok((Empty {  }, deletes))
    }

    /// One page of a directory.
    pub fn read_dir(&self, r: ReadDirReq) -> (resp: Result<ReadDirResp, Status>)
        requires
            self.wf(),
        ensures
            match (
                resp,
                self.state@.read_dir(
                    r.ino,
                    cookie_name(bytes_view(r.cookie)),
                    page_limit(r.max_entries),
                ),
            ) {
                (Ok(x), Ok(page)) => entries_view(x.entries@) == page.entries && x.eof == page.eof
                    && bytes_view(x.next_cookie) == next_cookie(page.entries),
                (Err(e), Err(s)) => e@ == s,
                _ => false,
            },
    {
        broadcast use vstd::std_specs::hash::group_hash_axioms;

        let dir = match self.state.dirs.get(&r.ino) {
            Some(d) => d,
            None => {
                return Err(Status::new(Code::NotFound, "directory not found"));
            },
        };
        let ghost all = listing(dir@);
        let from: usize = page_start(dir, &r.cookie);
        let max: usize = if r.max_entries == 0 {
            usize::MAX
        } else {
            r.max_entries as usize
        };
        let len: usize = dir.len();
        let count: usize = if len - from < max {
            len - from
        } else {
            max
        };
        let ghost page = self.state@.page(all, cookie_name(bytes_view(r.cookie)), max as nat);
        let mut entries: Vec<DirEntry> = Vec::new();
        let mut i: usize = 0;
        while i < count
            invariant
                i <= count,
                dir.wf(),
                all == listing(dir@),
                from + count <= all.len() <= usize::MAX,
                page.entries == Seq::new(
                    count as nat,
                    |i: int| self.state@.told_entry(all[from + i]),
                ),
                entries_view(entries@) == page.entries.take(i as int),
            decreases count - i,
        {
            let (name, child_ino) = dir.entry(from + i);
            let kind = match self.state.kind_of(child_ino) {
                Some(k) => k,
                None => InodeKind::File,
            };
            let ghost shown = entries@;
            entries.push(DirEntry { name: name.to_owned(), ino: child_ino, kind: kind_u32(kind) });
            assert(entries_view(entries@) =~= entries_view(shown).push(page.entries[i as int]));
            assert(entries_view(entries@) =~= page.entries.take(i + 1));
            i += 1;
        }
        assert(page.entries.take(i as int) =~= page.entries);
        let eof = entries.len() < max;
        let next_cookie = if entries.len() == 0 {
            bytes_from_vec(Vec::new())
        } else {
            let last = &entries[entries.len() - 1];
            assert(entries_view(entries@).last() == last@);
            bytes_from_slice(last.name.as_str().as_bytes())
        };
        Ok(ReadDirResp { entries, next_cookie, eof })
    }

    /// Opens a file.
    pub fn open(&mut self, r: OpenReq) -> (resp: Result<OpenResp, Status>)
        requires
            old(self).wf(),
        ensures
            final(self).wf(),
            final(self).token == old(self).token,
            final(self).state@ == old(self).state@.open(r.ino, r.flags as i32).0,
            match (resp, old(self).state@.open(r.ino, r.flags as i32).1) {
                (Ok(x), Ok(y)) => x.attr == Some(y.0) && x.fh == y.1 && block_map_view(x.block_map@)
                    == y.2,
                (Err(e), Err(s)) => e@ == s,
                _ => false,
            },
    {
        broadcast use vstd::std_specs::hash::group_hash_axioms;

        let ghost before = self.state@;
        let inode = match self.state.inodes.get(&r.ino) {
            Some(i) => i,
            None => {
                return Err(not_found());
            },
        };
        if inode.kind != InodeKind::File {
            return Err(Status::new(Code::InvalidArgument, "not a file"));
        }
        let listed = list_blocks(&inode.blocks);
        let block_map = told_blocks(&listed);
        let attr = build_attr(inode);
        let generation = inode.generation;
        let fh: u64 = self.state.alloc_fh();
        let flags: i32 = #[verifier::truncate]
        (r.flags as i32);
        self.state.open_handles.insert(
            fh,
            OpenHandleSt { fh, ino: InodeId(r.ino), flags, generation_at_open: generation },
        );
        assert(self.state@ =~= before.open(r.ino, r.flags as i32).0);
        Ok(OpenResp { attr: Some(attr), fh, block_map })
    }

    /// Closes a file, and publishes what was written to it.
    pub fn close(&mut self, r: CloseReq, now: Timestamp) -> (resp: Result<CloseResp, Status>)
        requires
            old(self).wf(),
            now.wf(),
            old(self).state@.publishes(close_args(r)) ==> Timestamp::representable(
                clamp(r.mtime_s),
                r.mtime_ns,
            ) && now.secs - 60 >= i64::MIN && r.expected_generation < u64::MAX,
        ensures
            final(self).wf(),
            final(self).token == old(self).token,
            final(self).state@ == old(self).state@.close(close_args(r), now).0,
            match (resp, old(self).state@.close(close_args(r), now).1) {
                (Ok(x), Ok(attr)) => x.attr == Some(attr),
                (Err(e), Err(s)) => e@ == s,
                _ => false,
            },
    {
        broadcast use vstd::std_specs::hash::group_hash_axioms;

        let ghost before = self.state@;
        let handle = match self.state.open_handles.remove(&r.fh) {
            Some(h) => h,
            None => {
                assert(self.state@ =~= before);
                return Err(Status::new(Code::NotFound, "file handle not found"));
            },
        };
        let ghost closed = MetaView {
            open_handles: before.open_handles.remove(r.fh),
            ..before
        };
        assert(self.state@ =~= closed);
        let ino: u64 = handle.ino.0;
        let mut inode = match self.state.take_inode(ino) {
            Some(i) => i,
            None => {
                assert(self.state@ =~= closed);
                return Err(not_found());
            },
        };
        let ghost was = inode@;
        if r.written_block_idxs.len() > 0 {
            if inode.generation.0 != r.expected_generation {
                self.state.put_inode(ino, inode);
                assert(self.state@ =~= closed);
                return Err(Status::new(Code::FailedPrecondition, "generation mismatch"));
            }
            let req_mtime = Timestamp::after_epoch(clamp_secs(r.mtime_s), r.mtime_ns);
            inode.generation = inode.generation.bump();
            inode.size = r.new_size;
            inode.mtime = req_mtime.no_earlier_than(now, 60);
            inode.ctime = now;
        }
        let attr = build_attr(&inode);
        let ghost view = inode@;
        self.state.put_inode(ino, inode);
        assert(self.state@ =~= closed.with_inode(ino, view));
        assert(closed.with_inode(ino, was) =~= closed);
        Ok(CloseResp { attr: Some(attr) })
    }

    /// Finds places for blocks; those that have one keep it.
    pub fn allocate_blocks(&mut self, r: AllocReq) -> (resp: Result<AllocResp, Status>)
        requires
            old(self).wf(),
        ensures
            final(self).wf(),
            final(self).token == old(self).token,
            final(self).state@ == old(self).state@.allocate_blocks(r.ino, r.block_idxs@).0,
            match (resp, old(self).state@.allocate_blocks(r.ino, r.block_idxs@).1) {
                (Ok(x), Ok(y)) => block_map_view(x.block_map@) == y,
                (Err(e), Err(s)) => e@ == s,
                _ => false,
            },
    {
        let ghost before = self.state@;
        let mut inode = match self.state.take_inode(r.ino) {
            Some(i) => i,
            None => {
                assert(self.state@ =~= before);
                return Err(not_found());
            },
        };
        let ghost was = inode@;
        let mut block_map: Vec<BlockLoc> = Vec::new();
        let mut i: usize = 0;
        let ghost idxs = r.block_idxs@;
        let ghost told = before.allocate_blocks(r.ino, idxs).1->Ok_0;
        while i < r.block_idxs.len()
            invariant
                i <= idxs.len(),
                idxs == r.block_idxs@,
                before.inodes.contains_key(r.ino),
                was == before.inodes[r.ino],
                told == before.allocate_blocks(r.ino, idxs).1->Ok_0,
                self.state@ == (MetaView { inodes: before.inodes.remove(r.ino), ..before }),
                self.state.wf(),
                self.token == old(self).token,
                inode@ == (InodeView { blocks: inode@.blocks, ..was }),
                forall|k: u64|
                    #![trigger inode@.blocks.contains_key(k)]
                    inode@.blocks.contains_key(k) <==> was.blocks.contains_key(k) || idxs.take(
                        i as int,
                    ).contains(k),
                forall|k: u64|
                    #![trigger inode@.blocks[k]]
                    inode@.blocks.contains_key(k) ==> inode@.blocks[k] == before.placement(
                        r.ino,
                        k,
                    ),
                block_map_view(block_map@) == told.take(i as int),
            decreases r.block_idxs.len() - i,
        {
            let idx: u64 = r.block_idxs[i];
            let ghost shown = block_map@;
            let ghost blocks = inode@.blocks;
            proof {
                assert(idxs.take(i + 1) =~= idxs.take(i as int).push(idx));
                assert forall|k: u64| idxs.take(i + 1).contains(k) <==> idxs.take(
                    i as int,
                ).contains(k) || k == idx by {
                    if idxs.take(i as int).contains(k) {
                        let j = choose|j: int| 0 <= j < i && idxs.take(i as int)[j] == k;
                        assert(idxs.take(i + 1)[j] == k);
                    }
                    if k == idx {
                        assert(idxs.take(i + 1)[i as int] == k);
                    }
                }
                assert(blocks.contains_key(idx) || !was.blocks.contains_key(idx));
            }
            let known = match map_get(&inode.blocks, idx) {
                Some(p) => Some(placement_to_block_loc(BlockIdx(idx), p)),
                None => None,
            };
            match known {
                Some(loc) => {
                    assert(loc@ == (idx, blocks[idx]));
                    block_map.push(loc);
                },
                None => {
                    let one: Vec<BlockIdx> = vec![BlockIdx(idx)];
                    let mut placed = self.state.allocate_blocks(InodeId(r.ino), one.as_slice());
                    assert(placed@[0].0 == BlockIdx(idx));
                    let (new_idx, placement) = placed.remove(0);
                    let ghost view = placement@;
                    block_map.push(placement_to_block_loc(new_idx, &placement));
                    map_insert(&mut inode.blocks, new_idx.0, placement);
                    assert(inode@.blocks =~= blocks.insert(idx, view));
                },
            }
            assert(block_map_view(block_map@) =~= block_map_view(shown).push(told[i as int]));
            assert(block_map_view(block_map@) =~= told.take(i + 1));
            i += 1;
        }
        proof {
            assert(idxs.take(i as int) =~= idxs);
            assert(told.take(i as int) =~= told);
        }
        let ghost view = inode@;
        self.state.put_inode(r.ino, inode);
        proof {
            assert(view =~= before.blocks_placed(r.ino, idxs).inodes[r.ino]);
            assert(self.state@ =~= before.blocks_placed(r.ino, idxs));
        }
        Ok(AllocResp { block_map })
    }

    /// Takes word from a storage node, at the time `at`.
    pub fn heartbeat_node(&mut self, r: HeartbeatReq, at: u128) -> (resp: HeartbeatResp)
        requires
            old(self).wf(),
        ensures
            final(self).wf(),
            final(self).token == old(self).token,
            final(self).state@ == old(self).state@.heartbeat(
                (NodeView {
                    node_id: r.node_id@,
                    addr: r.addr@,
                    ram_used: r.used_bytes,
                    ram_total: r.capacity_bytes,
                    status: NodeStatus::Up,
                }),
                at,
            ),
            resp.cluster matches Some(list) && node_list_view(list.nodes@) == final(self).state@.nodes.map_values(|n: NodeView| proto_node(n)),
    {
        let node = NodeInfo {
            node_id: NodeId::new(r.node_id),
            addr: r.addr,
            ram_used: r.used_bytes,
            ram_total: r.capacity_bytes,
            status: NodeStatus::Up,
        };
        self.state.record_heartbeat(node, at);
        let mut nodes: Vec<ProtoNodeInfo> = Vec::new();
        let mut i: usize = 0;
        let ghost all = self.state@.nodes.map_values(|n: NodeView| proto_node(n));
        while i < self.state.nodes.len()
            invariant
                i <= self.state.nodes@.len(),
                all == self.state@.nodes.map_values(|n: NodeView| proto_node(n)),
                node_list_view(nodes@) == all.take(i as int),
            decreases self.state.nodes.len() - i,
        {
            let ghost before = nodes@;
            nodes.push(node_info_to_proto(&self.state.nodes[i]));
            assert(node_list_view(nodes@) =~= node_list_view(before).push(all[i as int]));
            assert(node_list_view(nodes@) =~= all.take(i + 1));
            i += 1;
        }
        assert(all.take(i as int) =~= all);
        HeartbeatResp { cluster: Some(NodeList { nodes }) }
    }

    /// The storage nodes in service.
    pub fn list_nodes(&self) -> (resp: NodeList)
        ensures
            node_list_view(resp.nodes@) == up_nodes(self.state@.nodes).map_values(
                |n: NodeView| proto_node(n),
            ),
    {
        let mut nodes: Vec<ProtoNodeInfo> = Vec::new();
        let mut i: usize = 0;
        let ghost all = self.state@.nodes;
        let ghost told = |n: NodeView| proto_node(n);
        let ghost is_up = |n: NodeView| n.status == NodeStatus::Up;
        assert(up_nodes(all.take(0)) =~= Seq::<NodeView>::empty());
        assert(node_list_view(nodes@) =~= up_nodes(all.take(0)).map_values(told));
        while i < self.state.nodes.len()
            invariant
                i <= self.state.nodes@.len(),
                all == self.state@.nodes,
                told == (|n: NodeView| proto_node(n)),
                is_up == (|n: NodeView| n.status == NodeStatus::Up),
                node_list_view(nodes@) == up_nodes(all.take(i as int)).map_values(told),
            decreases self.state.nodes.len() - i,
        {
            let ghost before = nodes@;
            let ghost shown = all.take(i as int);
            proof {
                shown.lemma_filter_push(all[i as int], is_up);
                assert(all.take(i + 1) =~= shown.push(all[i as int]));
            }
            if self.state.nodes[i].status == NodeStatus::Up {
                nodes.push(node_info_to_proto(&self.state.nodes[i]));
                assert(node_list_view(nodes@) =~= node_list_view(before).push(
                    proto_node(all[i as int]),
                ));
                assert(up_nodes(all.take(i + 1)).map_values(told) =~= up_nodes(shown).map_values(
                    told,
                ).push(proto_node(all[i as int])));
            }
            i += 1;
        }
        assert(all.take(i as int) =~= all);
        NodeList { nodes }
    }
}

/// How many entries of a directory stand before the page that a cookie asks for.
fn page_start(dir: &Directory, cookie: &Bytes) -> (p: usize)
    requires
        dir.wf(),
    ensures
        p == match cookie_name(bytes_view(*cookie)) {
            Some(n) => names_up_to(listing(dir@), n),
            None => 0,
        },
        p <= listing(dir@).len(),
{
    let bytes = bytes_slice(cookie);
    if bytes.len() == 0 {
        return 0;
    }
    match text_from_utf8(vstd::slice::slice_to_vec(bytes)) {
        Some(s) => {
            proof {
                encode_utf8_decode_utf8(s@);
            }
            dir.count_up_to(&s)
        },
        None => 0,
    }
}

/// Blocks with their places, as they are told.
fn told_blocks(blocks: &Vec<(u64, BlockPlacement)>) -> (r: Vec<BlockLoc>)
    ensures
        block_map_view(r@) == placed_view(blocks@),
{
    let mut out: Vec<BlockLoc> = Vec::new();
    let mut i: usize = 0;
    let ghost all = placed_view(blocks@);
    while i < blocks.len()
        invariant
            i <= blocks@.len(),
            all == placed_view(blocks@),
            block_map_view(out@) == all.take(i as int),
        decreases blocks.len() - i,
    {
        let ghost before = out@;
        out.push(placement_to_block_loc(BlockIdx(blocks[i].0), &blocks[i].1));
        assert(block_map_view(out@) =~= block_map_view(before).push(all[i as int]));
        assert(block_map_view(out@) =~= all.take(i + 1));
        i += 1;
    }
    assert(all.take(i as int) =~= all);
    out
}

} // verus!
