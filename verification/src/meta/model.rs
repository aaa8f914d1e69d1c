//! What the metadata server knows, and what each request makes of it.

use vstd::prelude::*;

use crate::error::{Code, StatusView};
use crate::hash::picked;
use crate::id::{holders, BlockIdx, BlockKey, Generation, InodeId, InodeKind, PlacementView};
use crate::meta::directory::{listing, names_up_to, Listing};
use crate::ordered::ascending;
use crate::proto::{Attr, DirEntryView, NodeStatus, ProtoNodeView, SetAttrReq};
use crate::time::Timestamp;

verus! {

/// What is known of one file or directory.
#[verifier::ext_equal]
pub struct InodeView {
    pub ino: u64,
    pub kind: InodeKind,
    pub mode: u32,
    pub uid: u32,
    pub gid: u32,
    pub size: u64,
    pub nlink: u32,
    pub atime: Timestamp,
    pub mtime: Timestamp,
    pub ctime: Timestamp,
    pub generation: u64,
    pub blocks: Map<u64, PlacementView>,
    pub symlink_target: Option<Seq<char>>,
}

/// An open file as the server remembers it.
#[derive(Copy, Clone, Debug, PartialEq, Eq, Structural)]
pub struct OpenHandleSt {
    pub fh: u64,
    pub ino: InodeId,
    pub flags: i32,
    pub generation_at_open: Generation,
}

/// What is known of one storage node.
#[verifier::ext_equal]
pub struct NodeView {
    pub node_id: Seq<char>,
    pub addr: Seq<char>,
    pub ram_used: u64,
    pub ram_total: u64,
    pub status: NodeStatus,
}

/// Everything that the server knows.
#[verifier::ext_equal]
pub struct MetaView {
    pub inodes: Map<u64, InodeView>,
    pub dirs: Map<u64, Map<Seq<char>, u64>>,
    pub next_ino: u64,
    pub open_handles: Map<u64, OpenHandleSt>,
    pub next_fh: u64,
    pub nodes: Seq<NodeView>,
    pub last_heartbeat: Seq<(Seq<char>, u128)>,
    pub replication_factor: nat,
}

/// The number after `n`, as a counter of 64 bits counts.
pub open spec fn next(n: u64) -> u64 {
    if n == u64::MAX {
        0
    } else {
        (n + 1) as u64
    }
}

pub open spec fn not_found() -> StatusView {
    StatusView { code: Code::NotFound, message: "inode not found"@ }
}

/// What is told of an inode.
pub open spec fn attr_of(i: InodeView) -> Attr {
    Attr {
        ino: i.ino,
        size: i.size,
        blocks: i.blocks.dom().len() as u64,
        generation: i.generation,
        mode: i.mode,
        nlink: i.nlink,
        uid: i.uid,
        gid: i.gid,
        atime_s: i.atime.spec_since_epoch().0,
        atime_ns: i.atime.spec_since_epoch().1,
        mtime_s: i.mtime.spec_since_epoch().0,
        mtime_ns: i.mtime.spec_since_epoch().1,
        ctime_s: i.ctime.spec_since_epoch().0,
        ctime_ns: i.ctime.spec_since_epoch().1,
    }
}

/// The number that stands for a kind of inode in a directory listing.
pub open spec fn kind_number(k: InodeKind) -> u32 {
    match k {
        InodeKind::File => 1,
        InodeKind::Dir => 2,
        InodeKind::Symlink => 3,
    }
}

/// The blocks of a file in the order of their positions.
pub open spec fn block_list(blocks: Map<u64, PlacementView>) -> Seq<(u64, PlacementView)> {
    Seq::new(
        ascending(blocks.dom()).len(),
        |i: int| (ascending(blocks.dom())[i], blocks[ascending(blocks.dom())[i]]),
    )
}

/// The position of the node named `id`, if it is listed.
pub open spec fn node_index(nodes: Seq<NodeView>, id: Seq<char>) -> Option<int>
    decreases nodes.len(),
{
    if nodes.len() == 0 {
        None
    } else {
        match node_index(nodes.drop_last(), id) {
            Some(i) => Some(i),
            None => if nodes.last().node_id == id {
                Some(nodes.len() - 1)
            } else {
                None
            },
        }
    }
}

/// The request to delete a block from one node: where to send it, and the
/// block.
pub type DeleteView = (Seq<char>, BlockKey);

/// The requests that delete the block `idx` of `ino` from those of `holders`
/// whose address is known.
pub open spec fn node_deletes(
    nodes: Seq<NodeView>,
    ino: u64,
    idx: u64,
    holders: Seq<Seq<char>>,
) -> Seq<DeleteView>
    decreases holders.len(),
{
    if holders.len() == 0 {
        Seq::empty()
    } else {
        let rest = node_deletes(nodes, ino, idx, holders.drop_last());
        match node_index(nodes, holders.last()) {
            Some(i) => rest.push(
                (
                    "http://"@ + nodes[i].addr,
                    BlockKey {
                        ino: InodeId(ino),
                        block_idx: BlockIdx(idx),
                        generation: Generation(0),
                    },
                ),
            ),
            None => rest,
        }
    }
}

/// The requests that delete `blocks` of `ino` from the nodes that hold them.
pub open spec fn block_deletes(
    nodes: Seq<NodeView>,
    ino: u64,
    blocks: Seq<(u64, PlacementView)>,
) -> Seq<DeleteView>
    decreases blocks.len(),
{
    if blocks.len() == 0 {
        Seq::empty()
    } else {
        block_deletes(nodes, ino, blocks.drop_last()) + node_deletes(
            nodes,
            ino,
            blocks.last().0,
            holders(blocks.last().1),
        )
    }
}

/// A node as it is told to others.
pub open spec fn proto_node(n: NodeView) -> ProtoNodeView {
    ProtoNodeView {
        node_id: n.node_id,
        addr: n.addr,
        status: n.status,
        used_bytes: n.ram_used,
        capacity_bytes: n.ram_total,
        last_heartbeat_s: 0,
    }
}

/// The nodes in service.
pub open spec fn up_nodes(nodes: Seq<NodeView>) -> Seq<NodeView> {
    nodes.filter(|n: NodeView| n.status == NodeStatus::Up)
}

/// The names of the nodes in service.
pub open spec fn live(nodes: Seq<NodeView>) -> Seq<Seq<char>> {
    up_nodes(nodes).map_values(|n: NodeView| n.node_id)
}

/// The placement on the nodes that were chosen: the first is the primary. With
/// none chosen a name that no node has takes its place.
pub open spec fn placement_on(chosen: Seq<Seq<char>>) -> PlacementView {
    if chosen.len() == 0 {
        PlacementView { primary: "?"@, replicas: Seq::empty() }
    } else {
        PlacementView { primary: chosen[0], replicas: chosen.skip(1) }
    }
}

/// Where a new block goes: to the nodes in service that are picked for it.
pub open spec fn new_placement(nodes: Seq<NodeView>, r: nat, ino: u64, idx: u64) -> PlacementView {
    placement_on(
        picked(
            BlockKey { ino: InodeId(ino), block_idx: BlockIdx(idx), generation: Generation(0) },
            live(nodes),
            r,
        ),
    )
}

/// Seconds of a request that lie before the epoch count as the epoch.
pub open spec fn clamp(secs: i64) -> int {
    if secs < 0 {
        0
    } else {
        secs as int
    }
}

pub open spec fn or_zero(ns: Option<u32>) -> u32 {
    match ns {
        Some(n) => n,
        None => 0,
    }
}

/// The highest block position that a file cut to `size` bytes keeps.
pub open spec fn last_kept(size: u64) -> u64 {
    if size == 0 {
        0
    } else {
        ((size - 1) / 0x10_0000) as u64
    }
}

/// The blocks up to `last`.
pub open spec fn blocks_up_to(blocks: Map<u64, PlacementView>, last: u64) -> Map<
    u64,
    PlacementView,
> {
    Map::new(|k: u64| blocks.contains_key(k) && k <= last, |k: u64| blocks[k])
}

/// The blocks past `last`.
pub open spec fn blocks_past(blocks: Map<u64, PlacementView>, last: u64) -> Map<
    u64,
    PlacementView,
> {
    Map::new(|k: u64| blocks.contains_key(k) && k > last, |k: u64| blocks[k])
}

/// Whether a change of attributes makes a file shorter.
pub open spec fn shrinks(i: InodeView, r: SetAttrReq) -> bool {
    r.size matches Some(n) && n < i.size
}

/// Whether the times of a request can be held.
pub open spec fn times_representable(r: SetAttrReq) -> bool {
    &&& (r.atime_s matches Some(s) ==> Timestamp::representable(clamp(s), or_zero(r.atime_ns)))
    &&& (r.mtime_s matches Some(s) ==> Timestamp::representable(clamp(s), or_zero(r.mtime_ns)))
}

/// An inode after a change of attributes.
pub open spec fn changed_inode(i: InodeView, r: SetAttrReq, now: Timestamp) -> InodeView {
    InodeView {
        mode: match r.mode {
            Some(m) => m,
            None => i.mode,
        },
        uid: match r.uid {
            Some(u) => u,
            None => i.uid,
        },
        gid: match r.gid {
            Some(g) => g,
            None => i.gid,
        },
        atime: match r.atime_s {
            Some(s) => Timestamp::at(clamp(s), or_zero(r.atime_ns)),
            None => i.atime,
        },
        mtime: match r.mtime_s {
            Some(s) => Timestamp::at(clamp(s), or_zero(r.mtime_ns)),
            None => i.mtime,
        },
        size: match r.size {
            Some(n) => n,
            None => i.size,
        },
        blocks: if shrinks(i, r) {
            blocks_up_to(i.blocks, last_kept(r.size->0))
        } else {
            i.blocks
        },
        ctime: now,
        ..i
    }
}

/// A file that was just made.
pub open spec fn new_file(ino: u64, mode: u32, uid: u32, gid: u32, now: Timestamp) -> InodeView {
    InodeView {
        ino,
        kind: InodeKind::File,
        mode: 0o100000 | (mode & 0o7777),
        uid,
        gid,
        size: 0,
        nlink: 1,
        atime: now,
        mtime: now,
        ctime: now,
        generation: 0,
        blocks: Map::empty(),
        symlink_target: None,
    }
}

/// A directory that was just made.
pub open spec fn new_dir(ino: u64, mode: u32, uid: u32, gid: u32, now: Timestamp) -> InodeView {
    InodeView {
        ino,
        kind: InodeKind::Dir,
        mode: 0o040000 | (mode & 0o7777),
        uid,
        gid,
        size: 4096,
        nlink: 2,
        atime: now,
        mtime: now,
        ctime: now,
        generation: 0,
        blocks: Map::empty(),
        symlink_target: None,
    }
}

/// The arguments of a request to make a file or a directory.
pub struct MakeArgs {
    pub parent: u64,
    pub name: Seq<char>,
    pub mode: u32,
    pub uid: u32,
    pub gid: u32,
}

/// The arguments of a request to close a file.
pub struct CloseArgs {
    pub fh: u64,
    pub expected_generation: u64,
    pub new_size: u64,
    pub mtime_s: i64,
    pub mtime_ns: u32,
    pub written: Seq<u64>,
}

/// The arguments of a request to move an entry.
pub struct MoveArgs {
    pub src_parent: u64,
    pub src_name: Seq<char>,
    pub dst_parent: u64,
    pub dst_name: Seq<char>,
}

impl MoveArgs {
    /// Whether the old place is the new one.
    pub open spec fn stays(self) -> bool {
        self.src_parent == self.dst_parent && self.src_name == self.dst_name
    }
}

/// A file after its new contents were published.
pub open spec fn published_inode(i: InodeView, a: CloseArgs, now: Timestamp) -> InodeView {
    InodeView {
        generation: (i.generation + 1) as u64,
        size: a.new_size,
        mtime: Timestamp::at(clamp(a.mtime_s), a.mtime_ns).spec_no_earlier_than(now, 60),
        ctime: now,
        ..i
    }
}

/// One page of a directory listing.
pub struct PageView {
    pub entries: Seq<DirEntryView>,
    pub eof: bool,
}

impl MetaView {
    /// The inode under a name in a directory.
    pub open spec fn entry(self, parent: u64, name: Seq<char>) -> Option<u64> {
        if self.dirs.contains_key(parent) && self.dirs[parent].contains_key(name) {
            Some(self.dirs[parent][name])
        } else {
            None
        }
    }

    pub open spec fn kind_of(self, ino: u64) -> Option<InodeKind> {
        if self.inodes.contains_key(ino) {
            Some(self.inodes[ino].kind)
        } else {
            None
        }
    }

    pub open spec fn with_inode(self, ino: u64, i: InodeView) -> MetaView {
        MetaView { inodes: self.inodes.insert(ino, i), ..self }
    }

    pub open spec fn with_entry(self, parent: u64, name: Seq<char>, ino: u64) -> MetaView {
        MetaView {
            dirs: self.dirs.insert(parent, self.dirs[parent].insert(name, ino)),
            ..self
        }
    }

    pub open spec fn without_entry(self, parent: u64, name: Seq<char>) -> MetaView {
        MetaView { dirs: self.dirs.insert(parent, self.dirs[parent].remove(name)), ..self }
    }

    /// One link to `ino` less, down to none.
    pub open spec fn link_dropped(self, ino: u64) -> MetaView {
        if self.inodes.contains_key(ino) {
            let i = self.inodes[ino];
            let nlink = if i.nlink == 0 {
                0u32
            } else {
                (i.nlink - 1) as u32
            };
            self.with_inode(ino, (InodeView { nlink, ..i }))
        } else {
            self
        }
    }

    /// One link to `ino` more.
    pub open spec fn link_added(self, ino: u64) -> MetaView {
        if self.inodes.contains_key(ino) {
            let i = self.inodes[ino];
            self.with_inode(ino, (InodeView { nlink: (i.nlink + 1) as u32, ..i }))
        } else {
            self
        }
    }

    /// Whether `ino` can take one link more.
    pub open spec fn link_fits(self, ino: u64) -> bool {
        self.inodes.contains_key(ino) ==> self.inodes[ino].nlink < u32::MAX
    }

    /// The server when it starts: an empty root directory.
    pub open spec fn initial(replication_factor: nat, now: Timestamp) -> MetaView {
        MetaView {
            inodes: Map::empty().insert(
                1,
                InodeView {
                    ino: 1,
                    kind: InodeKind::Dir,
                    mode: 0o40755,
                    uid: 0,
                    gid: 0,
                    size: 4096,
                    nlink: 2,
                    atime: now,
                    mtime: now,
                    ctime: now,
                    generation: 0,
                    blocks: Map::empty(),
                    symlink_target: None,
                },
            ),
            dirs: Map::empty().insert(1, Map::empty()),
            next_ino: 2,
            open_handles: Map::empty(),
            next_fh: 1,
            nodes: Seq::empty(),
            last_heartbeat: Seq::empty(),
            replication_factor,
        }
    }

    pub open spec fn lookup(self, parent: u64, name: Seq<char>) -> Result<Attr, StatusView> {
        match self.entry(parent, name) {
            Some(ino) => self.get_attr(ino),
            None => Err(not_found()),
        }
    }

    pub open spec fn get_attr(self, ino: u64) -> Result<Attr, StatusView> {
        if self.inodes.contains_key(ino) {
            Ok(attr_of(self.inodes[ino]))
        } else {
            Err(not_found())
        }
    }

    pub open spec fn set_attr(self, r: SetAttrReq, now: Timestamp) -> (
        MetaView,
        Result<(Attr, Seq<DeleteView>), StatusView>,
    ) {
        if self.inodes.contains_key(r.ino) {
            let i = self.inodes[r.ino];
            let changed = changed_inode(i, r, now);
            let dropped = if shrinks(i, r) {
                block_list(blocks_past(i.blocks, last_kept(r.size->0)))
            } else {
                Seq::empty()
            };
            (
                self.with_inode(r.ino, changed),
                Ok((attr_of(changed), block_deletes(self.nodes, r.ino, dropped))),
            )
        } else {
            (self, Err(not_found()))
        }
    }

    /// Why a file or directory cannot be made, if it cannot.
    pub open spec fn make_refusal(self, parent: u64, name: Seq<char>) -> Option<StatusView> {
        if !self.dirs.contains_key(parent) {
            Some(StatusView { code: Code::NotFound, message: "parent not found"@ })
        } else if self.dirs[parent].contains_key(name) {
            Some(StatusView { code: Code::AlreadyExists, message: "entry already exists"@ })
        } else {
            None
        }
    }

    /// A new file with an open handle on it.
    pub open spec fn create(self, a: MakeArgs, now: Timestamp) -> (
        MetaView,
        Result<(Attr, u64), StatusView>,
    ) {
        match self.make_refusal(a.parent, a.name) {
            Some(e) => (self, Err(e)),
            None => {
                let ino = self.next_ino;
                let fh = self.next_fh;
                let i = new_file(ino, a.mode, a.uid, a.gid, now);
                let s = self.with_inode(ino, i).with_entry(a.parent, a.name, ino);
                (
                    MetaView {
                        next_ino: next(ino),
                        next_fh: next(fh),
                        open_handles: s.open_handles.insert(
                            fh,
                            OpenHandleSt {
                                fh,
                                ino: InodeId(ino),
                                flags: 0,
                                generation_at_open: Generation(0),
                            },
                        ),
                        ..s
                    },
                    Ok((attr_of(i), fh)),
                )
            },
        }
    }

    /// The state with a new directory in it, before its parent counts the link.
    pub open spec fn dir_made(self, a: MakeArgs, now: Timestamp) -> MetaView {
        let ino = self.next_ino;
        let s = self.with_inode(ino, new_dir(ino, a.mode, a.uid, a.gid, now));
        let s = MetaView { dirs: s.dirs.insert(ino, Map::empty()), next_ino: next(ino), ..s };
        s.with_entry(a.parent, a.name, ino)
    }

    pub open spec fn mkdir(self, a: MakeArgs, now: Timestamp) -> (
        MetaView,
        Result<Attr, StatusView>,
    ) {
        match self.make_refusal(a.parent, a.name) {
            Some(e) => (self, Err(e)),
            None => (
                self.dir_made(a, now).link_added(a.parent),
                Ok(attr_of(new_dir(self.next_ino, a.mode, a.uid, a.gid, now))),
            ),
        }
    }

    pub open spec fn unlink(self, parent: u64, name: Seq<char>) -> (
        MetaView,
        Result<Seq<DeleteView>, StatusView>,
    ) {
        match self.entry(parent, name) {
            None => (self, Err(not_found())),
            Some(ino) => match self.kind_of(ino) {
                None => (self, Err(not_found())),
                Some(InodeKind::Dir) => (
                    self,
                    Err(StatusView { code: Code::InvalidArgument, message: "is a directory"@ }),
                ),
                Some(_) => {
                    let s = self.without_entry(parent, name);
                    (
                        MetaView { inodes: s.inodes.remove(ino), ..s },
                        Ok(block_deletes(self.nodes, ino, block_list(self.inodes[ino].blocks))),
                    )
                },
            },
        }
    }

    pub open spec fn rmdir(self, parent: u64, name: Seq<char>) -> (
        MetaView,
        Result<(), StatusView>,
    ) {
        match self.entry(parent, name) {
            None => (self, Err(not_found())),
            Some(ino) => if !self.dirs.contains_key(ino) {
                (
                    self,
                    Err(StatusView { code: Code::InvalidArgument, message: "not a directory"@ }),
                )
            } else if self.dirs[ino] != Map::<Seq<char>, u64>::empty() {
                (
                    self,
                    Err(
                        StatusView {
                            code: Code::FailedPrecondition,
                            message: "directory not empty"@,
                        },
                    ),
                )
            } else {
                let s = MetaView {
                    dirs: self.dirs.remove(ino),
                    inodes: self.inodes.remove(ino),
                    ..self
                };
                (s.without_entry(parent, name).link_dropped(parent), Ok(()))
            },
        }
    }

    /// Why an entry cannot be moved, if it cannot. One that stays where it is
    /// can always be moved.
    pub open spec fn rename_refusal(self, a: MoveArgs) -> Option<StatusView> {
        if self.entry(a.src_parent, a.src_name) is None {
            Some(not_found())
        } else if a.stays() {
            None
        } else if !self.dirs.contains_key(a.dst_parent) {
            Some(StatusView { code: Code::NotFound, message: "dst parent not found"@ })
        } else {
            match self.entry(a.dst_parent, a.dst_name) {
                None => None,
                Some(dst) => match self.kind_of(dst) {
                    None => Some(not_found()),
                    Some(InodeKind::Dir) => if self.dirs.contains_key(dst) && self.dirs[dst]
                        != Map::<Seq<char>, u64>::empty() {
                        Some(
                            StatusView {
                                code: Code::FailedPrecondition,
                                message: "destination directory not empty"@,
                            },
                        )
                    } else {
                        None
                    },
                    Some(_) => None,
                },
            }
        }
    }

    /// The state with the destination of a move out of the way.
    pub open spec fn destination_cleared(self, a: MoveArgs) -> MetaView {
        match self.entry(a.dst_parent, a.dst_name) {
            None => self,
            Some(dst) => {
                let s = if self.kind_of(dst) == Some(InodeKind::Dir) {
                    MetaView { dirs: self.dirs.remove(dst), ..self }.link_dropped(a.dst_parent)
                } else {
                    self
                };
                MetaView { inodes: s.inodes.remove(dst), ..s }.without_entry(
                    a.dst_parent,
                    a.dst_name,
                )
            },
        }
    }

    /// The state after the entry was taken from its old place.
    pub open spec fn source_taken(self, a: MoveArgs) -> MetaView {
        self.destination_cleared(a).without_entry(a.src_parent, a.src_name)
    }

    /// Whether a move carries a directory from one parent to another.
    pub open spec fn moves_dir(self, a: MoveArgs) -> bool {
        self.source_taken(a).kind_of(self.entry(a.src_parent, a.src_name)->0) == Some(
            InodeKind::Dir,
        ) && a.src_parent != a.dst_parent
    }

    /// Whether the new parent can count the links of a move.
    pub open spec fn rename_fits(self, a: MoveArgs) -> bool {
        self.rename_refusal(a) is None && self.moves_dir(a) ==> self.source_taken(a).link_fits(
            a.dst_parent,
        )
    }

    /// An entry in another place, and the requests that delete the blocks of a
    /// file that stood there. A move of an entry to where it is does nothing.
    pub open spec fn rename(self, a: MoveArgs) -> (MetaView, Result<Seq<DeleteView>, StatusView>) {
        match self.rename_refusal(a) {
            Some(e) => (self, Err(e)),
            None => if a.stays() {
                (self, Ok(Seq::empty()))
            } else {
                let src = self.entry(a.src_parent, a.src_name)->0;
                let moved = self.source_taken(a).with_entry(a.dst_parent, a.dst_name, src);
                (
                    if self.moves_dir(a) {
                        moved.link_dropped(a.src_parent).link_added(a.dst_parent)
                    } else {
                        moved
                    },
                    Ok(
                        match self.entry(a.dst_parent, a.dst_name) {
                            Some(dst) => if self.kind_of(dst) == Some(InodeKind::File) {
                                block_deletes(
                                    self.nodes,
                                    dst,
                                    block_list(self.inodes[dst].blocks),
                                )
                            } else {
                                Seq::empty()
                            },
                            None => Seq::empty(),
                        },
                    ),
                )
            },
        }
    }

    /// An entry of a listing as it is told.
    pub open spec fn told_entry(self, e: (Seq<char>, u64)) -> DirEntryView {
        DirEntryView {
            name: e.0,
            ino: e.1,
            kind: kind_number(
                match self.kind_of(e.1) {
                    Some(k) => k,
                    None => InodeKind::File,
                },
            ),
        }
    }

    /// The page of a listing that starts behind the name `after`, with at most
    /// `max` entries.
    pub open spec fn page(self, all: Listing, after: Option<Seq<char>>, max: nat) -> PageView {
        let from = match after {
            Some(n) => names_up_to(all, n),
            None => 0,
        };
        let count = if all.len() - from < max {
            all.len() - from
        } else {
            max as int
        };
        PageView {
            entries: Seq::new(count as nat, |i: int| self.told_entry(all[from + i])),
            eof: count < max,
        }
    }

    pub open spec fn read_dir(self, ino: u64, after: Option<Seq<char>>, max: nat) -> Result<
        PageView,
        StatusView,
    > {
        if self.dirs.contains_key(ino) {
            Ok(self.page(listing(self.dirs[ino]), after, max))
        } else {
            Err(StatusView { code: Code::NotFound, message: "directory not found"@ })
        }
    }

    pub open spec fn open(self, ino: u64, flags: i32) -> (
        MetaView,
        Result<(Attr, u64, Seq<(u64, PlacementView)>), StatusView>,
    ) {
        if !self.inodes.contains_key(ino) {
            (self, Err(not_found()))
        } else if self.inodes[ino].kind != InodeKind::File {
            (self, Err(StatusView { code: Code::InvalidArgument, message: "not a file"@ }))
        } else {
            let i = self.inodes[ino];
            let fh = self.next_fh;
            (
                MetaView {
                    next_fh: next(fh),
                    open_handles: self.open_handles.insert(
                        fh,
                        OpenHandleSt {
                            fh,
                            ino: InodeId(ino),
                            flags,
                            generation_at_open: Generation(i.generation),
                        },
                    ),
                    ..self
                },
                Ok((attr_of(i), fh, block_list(i.blocks))),
            )
        }
    }

    /// Whether a close makes its blocks the contents of the file.
    pub open spec fn publishes(self, a: CloseArgs) -> bool {
        &&& a.written.len() > 0
        &&& self.open_handles.contains_key(a.fh)
        &&& self.inodes.contains_key(self.open_handles[a.fh].ino.0)
        &&& self.inodes[self.open_handles[a.fh].ino.0].generation == a.expected_generation
    }

    pub open spec fn close(self, a: CloseArgs, now: Timestamp) -> (
        MetaView,
        Result<Attr, StatusView>,
    ) {
        if !self.open_handles.contains_key(a.fh) {
            (self, Err(StatusView { code: Code::NotFound, message: "file handle not found"@ }))
        } else {
            let ino = self.open_handles[a.fh].ino.0;
            let s = MetaView { open_handles: self.open_handles.remove(a.fh), ..self };
            if !s.inodes.contains_key(ino) {
                (s, Err(not_found()))
            } else if a.written.len() == 0 {
                (s, Ok(attr_of(s.inodes[ino])))
            } else if s.inodes[ino].generation != a.expected_generation {
                (
                    s,
                    Err(
                        StatusView {
                            code: Code::FailedPrecondition,
                            message: "generation mismatch"@,
                        },
                    ),
                )
            } else {
                let i = published_inode(s.inodes[ino], a, now);
                (s.with_inode(ino, i), Ok(attr_of(i)))
            }
        }
    }

    /// Where the block `idx` of `ino` lies, or would be put.
    pub open spec fn placement(self, ino: u64, idx: u64) -> PlacementView {
        if self.inodes[ino].blocks.contains_key(idx) {
            self.inodes[ino].blocks[idx]
        } else {
            new_placement(self.nodes, self.replication_factor, ino, idx)
        }
    }

    /// The state with places for the blocks `idxs` of `ino`.
    pub open spec fn blocks_placed(self, ino: u64, idxs: Seq<u64>) -> MetaView {
        let i = self.inodes[ino];
        self.with_inode(
            ino,
            (InodeView {
                blocks: Map::new(
                    |k: u64| i.blocks.contains_key(k) || idxs.contains(k),
                    |k: u64| self.placement(ino, k),
                ),
                ..i
            }),
        )
    }

    pub open spec fn allocate_blocks(self, ino: u64, idxs: Seq<u64>) -> (
        MetaView,
        Result<Seq<(u64, PlacementView)>, StatusView>,
    ) {
        if !self.inodes.contains_key(ino) {
            (self, Err(not_found()))
        } else {
            (
                self.blocks_placed(ino, idxs),
                Ok(Seq::new(idxs.len(), |i: int| (idxs[i], self.placement(ino, idxs[i])))),
            )
        }
    }

    /// The state after word from a storage node at the time `at`.
    pub open spec fn heartbeat(self, n: NodeView, at: u128) -> MetaView {
        MetaView {
            nodes: with_node(self.nodes, n),
            last_heartbeat: with_beat(self.last_heartbeat, n.node_id, at),
            ..self
        }
    }

    /// Whether the last word from the node `id` is older than `dead_after`.
    pub open spec fn silent(self, id: Seq<char>, now: u128, dead_after: u128) -> bool {
        exists|i: int|
            0 <= i < self.last_heartbeat.len() && (#[trigger] self.last_heartbeat[i]).0 == id
                && now - self.last_heartbeat[i].1 > dead_after
    }

    /// The state with the nodes that fell silent out of service.
    pub open spec fn silent_marked(self, now: u128, dead_after: u128) -> MetaView {
        MetaView {
            nodes: Seq::new(
                self.nodes.len(),
                |i: int|
                    if self.silent(self.nodes[i].node_id, now, dead_after) {
                        NodeView { status: NodeStatus::Down, ..self.nodes[i] }
                    } else {
                        self.nodes[i]
                    },
            ),
            ..self
        }
    }
}

/// The nodes with `n` in the place of the node of that name, or at the end.
pub open spec fn with_node(nodes: Seq<NodeView>, n: NodeView) -> Seq<NodeView> {
    match node_index(nodes, n.node_id) {
        Some(i) => nodes.update(i, n),
        None => nodes.push(n),
    }
}

/// The times of the last heartbeats with `at` for the node `id`.
pub open spec fn with_beat(beats: Seq<(Seq<char>, u128)>, id: Seq<char>, at: u128) -> Seq<
    (Seq<char>, u128),
>
    decreases beats.len(),
{
    if beats.len() == 0 {
        seq![(id, at)]
    } else if beats[0].0 == id {
        beats.update(0, (id, at))
    } else {
        seq![beats[0]] + with_beat(beats.drop_first(), id, at)
    }
}

} // verus!
