//! The messages that the roles of the cluster exchange.

use bytes::Bytes;
use vstd::prelude::*;

use crate::id::PlacementView;

verus! {

/// What is known of a file or directory without its contents.
#[derive(Copy, Clone, Debug, PartialEq, Eq, Structural)]
pub struct Attr {
    pub ino: u64,
    pub size: u64,
    pub blocks: u64,
    pub generation: u64,
    pub mode: u32,
    pub nlink: u32,
    pub uid: u32,
    pub gid: u32,
    pub atime_s: i64,
    pub atime_ns: u32,
    pub mtime_s: i64,
    pub mtime_ns: u32,
    pub ctime_s: i64,
    pub ctime_ns: u32,
}

/// Where one block of a file lies.
#[derive(Debug, PartialEq, Eq)]
pub struct BlockLoc {
    pub block_idx: u64,
    pub primary: String,
    pub replicas: Vec<String>,
}

/// The texts of a list of strings.
pub open spec fn texts(v: Seq<String>) -> Seq<Seq<char>> {
    Seq::new(v.len(), |i: int| v[i]@)
}

impl View for BlockLoc {
    type V = (u64, PlacementView);

    open spec fn view(&self) -> (u64, PlacementView) {
        (
            self.block_idx,
            PlacementView { primary: self.primary@, replicas: texts(self.replicas@) },
        )
    }
}

/// What a list of block locations says.
pub open spec fn block_map_view(v: Seq<BlockLoc>) -> Seq<(u64, PlacementView)> {
    Seq::new(v.len(), |i: int| v[i]@)
}

#[derive(Debug, PartialEq, Eq)]
pub struct Empty {}

#[derive(Debug, PartialEq, Eq)]
pub struct LookupReq {
    pub parent_ino: u64,
    pub name: String,
}

#[derive(Debug, PartialEq, Eq)]
pub struct LookupResp {
    pub attr: Option<Attr>,
}

#[derive(Debug, PartialEq, Eq)]
pub struct GetAttrReq {
    pub ino: u64,
}

#[derive(Copy, Clone, Debug, PartialEq, Eq)]
pub struct SetAttrReq {
    pub ino: u64,
    pub size: Option<u64>,
    pub mode: Option<u32>,
    pub uid: Option<u32>,
    pub gid: Option<u32>,
    pub atime_s: Option<i64>,
    pub atime_ns: Option<u32>,
    pub mtime_s: Option<i64>,
    pub mtime_ns: Option<u32>,
}

#[derive(Debug, PartialEq, Eq)]
pub struct SetAttrResp {
    pub attr: Option<Attr>,
}

#[derive(Debug, PartialEq, Eq)]
pub struct CreateReq {
    pub parent_ino: u64,
    pub name: String,
    pub mode: u32,
    pub uid: u32,
    pub gid: u32,
}

#[derive(Debug, PartialEq, Eq)]
pub struct CreateResp {
    pub attr: Option<Attr>,
    pub fh: u64,
    pub block_map: Vec<BlockLoc>,
}

#[derive(Debug, PartialEq, Eq)]
pub struct MkdirReq {
    pub parent_ino: u64,
    pub name: String,
    pub mode: u32,
    pub uid: u32,
    pub gid: u32,
}

#[derive(Debug, PartialEq, Eq)]
pub struct UnlinkReq {
    pub parent_ino: u64,
    pub name: String,
}

#[derive(Debug, PartialEq, Eq)]
pub struct RmdirReq {
    pub parent_ino: u64,
    pub name: String,
}

#[derive(Debug, PartialEq, Eq)]
pub struct RenameReq {
    pub src_parent_ino: u64,
    pub src_name: String,
    pub dst_parent_ino: u64,
    pub dst_name: String,
}

#[derive(Debug, PartialEq, Eq)]
pub struct ReadDirReq {
    pub ino: u64,
    pub cookie: Bytes,
    pub max_entries: u32,
}

/// What a [`DirEntry`] says, as mathematical values.
pub struct DirEntryView {
    pub name: Seq<char>,
    pub ino: u64,
    pub kind: u32,
}

#[derive(Debug, PartialEq, Eq)]
pub struct DirEntry {
    pub name: String,
    pub ino: u64,
    pub kind: u32,
}

impl View for DirEntry {
    type V = DirEntryView;

    open spec fn view(&self) -> DirEntryView {
        DirEntryView { name: self.name@, ino: self.ino, kind: self.kind }
    }
}

/// What a list of directory entries says.
pub open spec fn entries_view(v: Seq<DirEntry>) -> Seq<DirEntryView> {
    Seq::new(v.len(), |i: int| v[i]@)
}

#[derive(Debug, PartialEq, Eq)]
pub struct ReadDirResp {
    pub entries: Vec<DirEntry>,
    pub next_cookie: Bytes,
    pub eof: bool,
}

#[derive(Debug, PartialEq, Eq)]
pub struct OpenReq {
    pub ino: u64,
    pub flags: u32,
}

#[derive(Debug, PartialEq, Eq)]
pub struct OpenResp {
    pub attr: Option<Attr>,
    pub fh: u64,
    pub block_map: Vec<BlockLoc>,
}

#[derive(Debug, PartialEq, Eq)]
pub struct CloseReq {
    pub fh: u64,
    pub ino: u64,
    pub expected_generation: u64,
    pub new_size: u64,
    pub mtime_s: i64,
    pub mtime_ns: u32,
    pub written_block_idxs: Vec<u64>,
}

#[derive(Debug, PartialEq, Eq)]
pub struct CloseResp {
    pub attr: Option<Attr>,
}

#[derive(Debug, PartialEq, Eq)]
pub struct AllocReq {
    pub ino: u64,
    pub block_idxs: Vec<u64>,
}

#[derive(Debug, PartialEq, Eq)]
pub struct AllocResp {
    pub block_map: Vec<BlockLoc>,
}

#[derive(Debug, PartialEq, Eq)]
pub struct HeartbeatReq {
    pub node_id: String,
    pub addr: String,
    pub used_bytes: u64,
    pub capacity_bytes: u64,
    pub epoch_s: u64,
}

/// Whether a storage node is in service.
#[derive(Copy, Clone, Debug, PartialEq, Eq, Structural)]
pub enum NodeStatus {
    Up,
    Down,
}

/// What a [`ProtoNodeInfo`] says, as mathematical values.
pub struct ProtoNodeView {
    pub node_id: Seq<char>,
    pub addr: Seq<char>,
    pub status: NodeStatus,
    pub used_bytes: u64,
    pub capacity_bytes: u64,
    pub last_heartbeat_s: u64,
}

/// A storage node as it is told to others.
#[derive(Debug, PartialEq, Eq)]
pub struct ProtoNodeInfo {
    pub node_id: String,
    pub addr: String,
    pub status: NodeStatus,
    pub used_bytes: u64,
    pub capacity_bytes: u64,
    pub last_heartbeat_s: u64,
}

impl View for ProtoNodeInfo {
    type V = ProtoNodeView;

    open spec fn view(&self) -> ProtoNodeView {
        ProtoNodeView {
            node_id: self.node_id@,
            addr: self.addr@,
            status: self.status,
            used_bytes: self.used_bytes,
            capacity_bytes: self.capacity_bytes,
            last_heartbeat_s: self.last_heartbeat_s,
        }
    }
}

/// What a list of nodes says.
pub open spec fn node_list_view(v: Seq<ProtoNodeInfo>) -> Seq<ProtoNodeView> {
    Seq::new(v.len(), |i: int| v[i]@)
}

#[derive(Debug, PartialEq, Eq)]
pub struct NodeList {
    pub nodes: Vec<ProtoNodeInfo>,
}

#[derive(Debug, PartialEq, Eq)]
pub struct HeartbeatResp {
    pub cluster: Option<NodeList>,
}

/// A block as it is named on the wire.
#[derive(Copy, Clone, Debug, PartialEq, Eq, Structural)]
pub struct ProtoBlockKey {
    pub ino: u64,
    pub block_idx: u64,
    pub generation: u64,
}

#[derive(Debug, PartialEq, Eq)]
pub struct ReadBlockReq {
    pub key: Option<ProtoBlockKey>,
    pub offset: u64,
    pub len: u32,
}

#[derive(Debug, PartialEq, Eq)]
pub struct ReadBlockResp {
    pub data: Bytes,
    pub len: u32,
}

#[derive(Debug, PartialEq, Eq)]
pub struct WriteBlockReq {
    pub key: Option<ProtoBlockKey>,
    pub data: Bytes,
}

#[derive(Debug, PartialEq, Eq)]
pub struct WriteBlockResp {
    pub len: u32,
}

#[derive(Debug, PartialEq, Eq)]
pub struct DeleteBlockReq {
    pub key: Option<ProtoBlockKey>,
}

#[derive(Debug, PartialEq, Eq)]
pub struct ReplicateReq {
    pub key: Option<ProtoBlockKey>,
    pub source_addr: String,
}

#[derive(Debug, PartialEq, Eq)]
pub struct StoreStat {
    pub node_id: String,
    pub used_bytes: u64,
    pub capacity_bytes: u64,
    pub block_count: u64,
    pub read_bytes_total: u64,
    pub write_bytes_total: u64,
}

/// What a list says it says of each of its items, in their order.
pub proof fn law_lists_say_what_their_items_say(
    nodes: Seq<ProtoNodeInfo>,
    entries: Seq<DirEntry>,
    locs: Seq<BlockLoc>,
    i: int,
    j: int,
)
    ensures
        node_list_view(nodes).len() == nodes.len(),
        0 <= i < nodes.len() ==> {
            let n = node_list_view(nodes)[i];
            &&& n.node_id == nodes[i].node_id@ && n.addr == nodes[i].addr@
            &&& n.status == nodes[i].status && n.used_bytes == nodes[i].used_bytes
            &&& n.capacity_bytes == nodes[i].capacity_bytes
            &&& n.last_heartbeat_s == nodes[i].last_heartbeat_s
        },
        entries_view(entries).len() == entries.len(),
        0 <= i < entries.len() ==> {
            let e = entries_view(entries)[i];
            e.name == entries[i].name@ && e.ino == entries[i].ino && e.kind == entries[i].kind
        },
        block_map_view(locs).len() == locs.len(),
        0 <= i < locs.len() ==> {
            let l = block_map_view(locs)[i];
            &&& l.0 == locs[i].block_idx
            &&& l.1.primary == locs[i].primary@
            &&& l.1.replicas.len() == locs[i].replicas@.len()
            &&& 0 <= j < locs[i].replicas@.len() ==> l.1.replicas[j] == locs[i].replicas@[j]@
        },
{
}

} // verus!
