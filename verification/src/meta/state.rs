//! The state of the metadata server.

use std::collections::{BTreeMap, HashMap};
use vstd::prelude::*;

use crate::hash::pick_nodes;
use crate::id::{
    node_names, placements, BlockIdx, BlockKey, BlockPlacement, Generation, InodeId, InodeKind, NodeId,
    PlacementView, ROOT_INO,
};
use crate::meta::directory::Directory;
use crate::meta::model::{
    attr_of, live, new_placement, next, node_index, placement_on, up_nodes, with_beat, with_node, InodeView,
    MetaView, NodeView, OpenHandleSt,
};
use crate::proto::{Attr, NodeStatus};
use crate::time::Timestamp;

verus! {

/// A file or directory.
pub struct Inode {
    pub ino: InodeId,
    pub kind: InodeKind,
    pub mode: u32,
    pub uid: u32,
    pub gid: u32,
    pub size: u64,
    pub nlink: u32,
    pub atime: Timestamp,
    pub mtime: Timestamp,
    pub ctime: Timestamp,
    pub generation: Generation,
    pub blocks: BTreeMap<u64, BlockPlacement>,
    pub symlink_target: Option<String>,
}

impl View for Inode {
    type V = InodeView;

    open spec fn view(&self) -> InodeView {
        InodeView {
            ino: self.ino.0,
            kind: self.kind,
            mode: self.mode,
            uid: self.uid,
            gid: self.gid,
            size: self.size,
            nlink: self.nlink,
            atime: self.atime,
            mtime: self.mtime,
            ctime: self.ctime,
            generation: self.generation.0,
            blocks: placements(self.blocks@),
            symlink_target: match self.symlink_target {
                Some(t) => Some(t@),
                None => None,
            },
        }
    }
}

/// A storage node.
#[derive(Debug, PartialEq, Eq)]
pub struct NodeInfo {
    pub node_id: NodeId,
    pub addr: String,
    pub ram_used: u64,
    pub ram_total: u64,
    pub status: NodeStatus,
}

impl View for NodeInfo {
    type V = NodeView;

    open spec fn view(&self) -> NodeView {
        NodeView {
            node_id: self.node_id@,
            addr: self.addr@,
            ram_used: self.ram_used,
            ram_total: self.ram_total,
            status: self.status,
        }
    }
}

pub open spec fn inode_views(m: Map<u64, Inode>) -> Map<u64, InodeView> {
    m.map_values(|i: Inode| i@)
}

pub open spec fn dir_views(m: Map<u64, Directory>) -> Map<u64, Map<Seq<char>, u64>> {
    m.map_values(|d: Directory| d@)
}

pub open spec fn node_views(v: Seq<NodeInfo>) -> Seq<NodeView> {
    Seq::new(v.len(), |i: int| v[i]@)
}

pub open spec fn beat_views(v: Seq<(NodeId, u128)>) -> Seq<(Seq<char>, u128)> {
    Seq::new(v.len(), |i: int| (v[i].0@, v[i].1))
}

/// Everything that the metadata server knows.
pub struct MetaState {
    pub inodes: HashMap<u64, Inode>,
    pub dirs: HashMap<u64, Directory>,
    pub next_ino: u64,
    pub open_handles: HashMap<u64, OpenHandleSt>,
    pub next_fh: u64,
    pub nodes: Vec<NodeInfo>,
    pub last_heartbeat: Vec<(NodeId, u128)>,
    pub replication_factor: usize,
}

impl View for MetaState {
    type V = MetaView;

    open spec fn view(&self) -> MetaView {
        MetaView {
            inodes: inode_views(self.inodes@),
            dirs: dir_views(self.dirs@),
            next_ino: self.next_ino,
            open_handles: self.open_handles@,
            next_fh: self.next_fh,
            nodes: node_views(self.nodes@),
            last_heartbeat: beat_views(self.last_heartbeat@),
            replication_factor: self.replication_factor as nat,
        }
    }
}

/// What is told of an inode.
pub fn build_attr(inode: &Inode) -> (a: Attr)
    ensures
        a == attr_of(inode@),
{
    broadcast use vstd::std_specs::btree::group_btree_axioms;

    let (at_s, at_ns) = inode.atime.since_epoch();
    let (mt_s, mt_ns) = inode.mtime.since_epoch();
    let (ct_s, ct_ns) = inode.ctime.since_epoch();
    assert(inode@.blocks.dom() =~= inode.blocks@.dom());
    Attr {
        ino: inode.ino.0,
        size: inode.size,
        blocks: inode.blocks.len() as u64,
        generation: inode.generation.0,
        mode: inode.mode,
        nlink: inode.nlink,
        uid: inode.uid,
        gid: inode.gid,
        atime_s: at_s,
        atime_ns: at_ns,
        mtime_s: mt_s,
        mtime_ns: mt_ns,
        ctime_s: ct_s,
        ctime_ns: ct_ns,
    }
}

impl MetaState {
    /// Every directory is in order, and no node is listed twice.
    pub open spec fn wf(&self) -> bool {
        &&& forall|k: u64| self.dirs@.contains_key(k) ==> (#[trigger] self.dirs@[k]).wf()
        &&& distinct_ids(self@.nodes)
        &&& distinct_beats(self@.last_heartbeat)
    }

    pub fn new(replication_factor: usize, now: Timestamp) -> (s: MetaState)
        ensures
            s.wf(),
            s@ == MetaView::initial(replication_factor as nat, now),
    {
        broadcast use vstd::std_specs::hash::group_hash_axioms;

        let mut inodes: HashMap<u64, Inode> = HashMap::new();
        let mut dirs: HashMap<u64, Directory> = HashMap::new();
        let root = Inode {
            ino: InodeId::root(),
            kind: InodeKind::Dir,
            mode: 0o40755,
            uid: 0,
            gid: 0,
            size: 4096,
            nlink: 2,
            atime: now,
            mtime: now,
            ctime: now,
            generation: Generation(0),
            blocks: BTreeMap::new(),
            symlink_target: None,
        };
        assert(root@.blocks =~= Map::empty());
        inodes.insert(ROOT_INO, root);
        dirs.insert(ROOT_INO, Directory::new());
        let s = MetaState {
            inodes,
            dirs,
            next_ino: 2,
            open_handles: HashMap::new(),
            next_fh: 1,
            nodes: Vec::new(),
            last_heartbeat: Vec::new(),
            replication_factor,
        };
        assert(s@ =~= MetaView::initial(replication_factor as nat, now));
        s
    }

    /// A number for a new inode.
    pub fn alloc_ino(&mut self) -> (r: InodeId)
        ensures
            r.0 == old(self).next_ino,
            *final(self) == (MetaState { next_ino: next(old(self).next_ino), ..*old(self) }),
    {
        let n: u64 = self.next_ino;
        self.next_ino = n.wrapping_add(1);
        InodeId(n)
    }

    /// A number for a new handle.
    pub fn alloc_fh(&mut self) -> (r: u64)
        ensures
            r == old(self).next_fh,
            *final(self) == (MetaState { next_fh: next(old(self).next_fh), ..*old(self) }),
    {
        let n: u64 = self.next_fh;
        self.next_fh = n.wrapping_add(1);
        n
    }

    /// The names of the nodes in service, in the order in which they are listed.
    pub fn live_nodes(&self) -> (r: Vec<NodeId>)
        ensures
            node_names(r@) == live(self@.nodes),
    {
        let mut out: Vec<NodeId> = Vec::new();
        let mut i: usize = 0;
        let ghost all = self@.nodes;
        assert(all.take(0) =~= Seq::<NodeView>::empty());
        assert(node_names(out@) =~= live(all.take(0)));
        while i < self.nodes.len()
            invariant
                i <= self.nodes.len(),
                all == self@.nodes,
                node_names(out@) == live(all.take(i as int)),
            decreases self.nodes.len() - i,
        {
            let ghost before = out@;
            proof {
                assert(all.take(i + 1).drop_last() =~= all.take(i as int));
                lemma_live_push(all.take(i as int), all[i as int]);
                assert(all.take(i + 1) =~= all.take(i as int).push(all[i as int]));
            }
            if self.nodes[i].status == NodeStatus::Up {
                out.push(self.nodes[i].node_id.clone());
                assert(node_names(out@) =~= node_names(before).push(all[i as int].node_id));
            }
            i += 1;
        }
        assert(all.take(i as int) =~= all);
        out
    }

    /// Where new blocks of `ino` go.
    pub fn allocate_blocks(&self, ino: InodeId, idxs: &[BlockIdx]) -> (r: Vec<
        (BlockIdx, BlockPlacement),
    >)
        ensures
            r@.len() == idxs@.len(),
            forall|i: int|
                #![trigger r@[i]]
                0 <= i < r@.len() ==> r@[i].0 == idxs@[i] && r@[i].1@ == new_placement(
                    self@.nodes,
                    self.replication_factor as nat,
                    ino.0,
                    idxs@[i].0,
                ),
    {
        let live_ids = self.live_nodes();
        let r: usize = self.replication_factor;
        let mut out: Vec<(BlockIdx, BlockPlacement)> = Vec::new();
        let mut i: usize = 0;
        while i < idxs.len()
            invariant
                i <= idxs@.len(),
                out@.len() == i,
                r == self.replication_factor,
                node_names(live_ids@) == live(self@.nodes),
                forall|j: int|
                    #![trigger out@[j]]
                    0 <= j < i ==> out@[j].0 == idxs@[j] && out@[j].1@ == new_placement(
                        self@.nodes,
                        self.replication_factor as nat,
                        ino.0,
                        idxs@[j].0,
                    ),
            decreases idxs.len() - i,
        {
            let idx = idxs[i];
            let key = BlockKey { ino, block_idx: idx, generation: Generation(0) };
            let placement = place_on(pick_nodes(&key, live_ids.as_slice(), r));
            out.push((idx, placement));
            i += 1;
        }
        out
    }

    /// The position of the node named `id`.
    pub fn find_node(&self, id: &NodeId) -> (r: Option<usize>)
        ensures
            match r {
                Some(i) => node_index(self@.nodes, id@) == Some(i as int),
                None => node_index(self@.nodes, id@) is None,
            },
    {
        let ghost all = self@.nodes;
        let mut i: usize = 0;
        while i < self.nodes.len()
            invariant
                i <= self.nodes.len(),
                all == self@.nodes,
                node_index(all.take(i as int), id@) is None,
            decreases self.nodes.len() - i,
        {
            proof {
                assert(all.take(i + 1).drop_last() =~= all.take(i as int));
            }
            if self.nodes[i].node_id.0 == id.0 {
                proof {
                    lemma_node_index_prefix(all, id@, i + 1);
                }
                return Some(i);
            }
            i += 1;
        }
        assert(all.take(i as int) =~= all);
        None
    }

    /// Records word from a storage node at the time `at`.
    pub fn record_heartbeat(&mut self, node: NodeInfo, at: u128)
        requires
            old(self).wf(),
        ensures
            final(self).wf(),
            final(self)@ == old(self)@.heartbeat(node@, at),
    {
        let id = node.node_id.clone();
        let ghost view = node@;
        let ghost before = *self;
        proof {
            lemma_node_index(self@.nodes, id@);
            lemma_with_node_distinct(self@.nodes, view);
            lemma_with_beat_distinct(self@.last_heartbeat, id@, at);
        }
        match self.find_node(&id) {
            Some(i) => {
                self.nodes.remove(i);
                self.nodes.insert(i, node);
                assert(self@.nodes =~= before@.nodes.update(i as int, view));
            },
            None => {
                self.nodes.push(node);
                assert(self@.nodes =~= before@.nodes.push(view));
            },
        }
        record_beat(&mut self.last_heartbeat, id, at);
        assert(self@ =~= before@.heartbeat(view, at));
    }

    /// Takes the nodes out of service from which no word came for longer than
    /// `dead_after` before `now`, and returns the names of those that were in
    /// service until then.
    pub fn mark_silent(&mut self, now: u128, dead_after: u128) -> (r: Vec<NodeId>)
        requires
            old(self).wf(),
        ensures
            final(self).wf(),
            final(self)@ == old(self)@.silent_marked(now, dead_after),
            node_names(r@) == live(
                old(self)@.nodes.filter(
                    |n: NodeView| old(self)@.silent(n.node_id, now, dead_after),
                ),
            ),
    {
        let ghost before = *self;
        let ghost all = before@.nodes;
        let ghost is_silent = |n: NodeView| before@.silent(n.node_id, now, dead_after);
        let mut downs: Vec<NodeId> = Vec::new();
        let mut i: usize = 0;
        assert(all.take(0).filter(is_silent) =~= Seq::<NodeView>::empty());
        assert(up_nodes(all.take(0).filter(is_silent)) =~= Seq::<NodeView>::empty());
        assert(node_names(downs@) =~= live(all.take(0).filter(is_silent)));
        while i < self.nodes.len()
            invariant
                i <= self.nodes@.len(),
                self.nodes@.len() == all.len(),
                all == before@.nodes,
                is_silent == (|n: NodeView| before@.silent(n.node_id, now, dead_after)),
                self.inodes == before.inodes,
                self.dirs == before.dirs,
                self.next_ino == before.next_ino,
                self.open_handles == before.open_handles,
                self.next_fh == before.next_fh,
                self.last_heartbeat == before.last_heartbeat,
                self.replication_factor == before.replication_factor,
                forall|j: int|
                    #![trigger self.nodes@[j]]
                    0 <= j < i ==> self.nodes@[j]@ == before@.silent_marked(
                        now,
                        dead_after,
                    ).nodes[j],
                forall|j: int| #![trigger self.nodes@[j]] i <= j < all.len() ==> self.nodes@[j]@ == all[j],
                node_names(downs@) == live(all.take(i as int).filter(is_silent)),
            decreases self.nodes.len() - i,
        {
            let late = is_late(&self.last_heartbeat, &self.nodes[i].node_id, now, dead_after);
            let ghost names = node_names(downs@);
            let ghost shown = all.take(i as int);
            proof {
                assert(late == is_silent(all[i as int])) by {
                    if late {
                        let k = choose|k: int|
                            0 <= k < before@.last_heartbeat.len() && (
                            #[trigger] before@.last_heartbeat[k]).0 == all[i as int].node_id && now
                                - before@.last_heartbeat[k].1 > dead_after;
                        assert(before@.silent(all[i as int].node_id, now, dead_after));
                    }
                }
                assert(all.take(i + 1) =~= shown.push(all[i as int]));
                shown.lemma_filter_push(all[i as int], is_silent);
                lemma_live_push(shown.filter(is_silent), all[i as int]);
            }
            if late {
                if self.nodes[i].status != NodeStatus::Down {
                    downs.push(self.nodes[i].node_id.clone());
                    assert(node_names(downs@) =~= names.push(all[i as int].node_id));
                }
                let ghost was = self.nodes@;
                self.nodes[i].status = NodeStatus::Down;
                assert(forall|j: int| 0 <= j < was.len() && j != i ==> self.nodes@[j] == was[j]);
            }
            i += 1;
        }
        proof {
            assert(all.take(i as int) =~= all);
            assert(self@ =~= before@.silent_marked(now, dead_after));
            assert forall|a: int, b: int|
                #![trigger self@.nodes[a], self@.nodes[b]]
                0 <= a < b < self@.nodes.len() implies self@.nodes[a].node_id
                != self@.nodes[b].node_id by {
                assert(all[a].node_id != all[b].node_id);
            }
        }
        downs
    }
}

/// The placement on the nodes that were chosen.
pub fn place_on(chosen: Vec<NodeId>) -> (p: BlockPlacement)
    ensures
        p@ == placement_on(node_names(chosen@)),
{
    let ghost names = node_names(chosen@);
    if chosen.len() == 0 {
        let p = BlockPlacement { primary: NodeId::new("?".to_owned()), replicas: Vec::new() };
        assert(p@.replicas =~= Seq::<Seq<char>>::empty());
        p
    } else {
        let mut rest = chosen;
        let primary = rest.remove(0);
        let p = BlockPlacement { primary, replicas: rest };
        assert(p@.replicas =~= names.skip(1));
        p
    }
}

/// Whether the last word from `id` in `beats` is older than `dead_after`.
fn is_late(beats: &Vec<(NodeId, u128)>, id: &NodeId, now: u128, dead_after: u128) -> (r: bool)
    ensures
        r == exists|i: int|
            0 <= i < beat_views(beats@).len() && (#[trigger] beat_views(beats@)[i]).0 == id@ && now
                - beat_views(beats@)[i].1 > dead_after,
{
    let mut i: usize = 0;
    let ghost all = beat_views(beats@);
    while i < beats.len()
        invariant
            i <= beats@.len(),
            all == beat_views(beats@),
            forall|j: int|
                0 <= j < i ==> !((#[trigger] all[j]).0 == id@ && now - all[j].1 > dead_after),
        decreases beats.len() - i,
    {
        let last: u128 = beats[i].1;
        assert(all[i as int] == (beats@[i as int].0@, last));
        if beats[i].0.0 == id.0 && now > last && now - last > dead_after {
            return true;
        }
        i += 1;
    }
    false
}

/// Makes `at` the time of the last word from `id`.
fn record_beat(beats: &mut Vec<(NodeId, u128)>, id: NodeId, at: u128)
    ensures
        beat_views(final(beats)@) == with_beat(beat_views(old(beats)@), id@, at),
{
    let ghost all = beat_views(beats@);
    let ghost name = id@;
    let mut i: usize = 0;
    assert(all.skip(0) =~= all);
    assert(all.take(0) + with_beat(all.skip(0), name, at) =~= with_beat(all, name, at));
    while i < beats.len()
        invariant
            i <= beats@.len(),
            all == beat_views(beats@),
            name == id@,
            all.take(i as int) + with_beat(all.skip(i as int), name, at) == with_beat(
                all,
                name,
                at,
            ),
            beats@ == old(beats)@,
        decreases beats.len() - i,
    {
        let ghost rest = all.skip(i as int);
        assert(rest[0] == all[i as int]);
        if beats[i].0.0 == id.0 {
            beats.remove(i);
            beats.insert(i, (id, at));
            assert(beat_views(beats@) =~= all.take(i as int) + rest.update(0, (name, at)));
            return;
        }
        proof {
            assert(rest.drop_first() =~= all.skip(i + 1));
            assert(all.take(i + 1) =~= all.take(i as int).push(all[i as int]));
            assert(all.take(i as int) + (seq![rest[0]] + with_beat(rest.drop_first(), name, at))
                =~= all.take(i + 1) + with_beat(all.skip(i + 1), name, at));
        }
        i += 1;
    }
    beats.push((id, at));
    proof {
        assert(all.skip(i as int).len() == 0);
        assert(all.take(i as int) =~= all);
        assert(beat_views(beats@) =~= all.push((name, at)));
        assert(all + seq![(name, at)] =~= all.push((name, at)));
    }
}

/// Whether no two nodes have the same name.
pub open spec fn distinct_ids(nodes: Seq<NodeView>) -> bool {
    forall|a: int, b: int|
        #![trigger nodes[a], nodes[b]]
        0 <= a < b < nodes.len() ==> nodes[a].node_id != nodes[b].node_id
}

/// Whether no two heartbeats are of the same node.
pub open spec fn distinct_beats(beats: Seq<(Seq<char>, u128)>) -> bool {
    forall|a: int, b: int|
        #![trigger beats[a], beats[b]]
        0 <= a < b < beats.len() ==> beats[a].0 != beats[b].0
}

/// One node more in the list is one name more where the node is in service.
proof fn lemma_live_push(nodes: Seq<NodeView>, n: NodeView)
    ensures
        live(nodes.push(n)) == if n.status == NodeStatus::Up {
            live(nodes).push(n.node_id)
        } else {
            live(nodes)
        },
{
    nodes.lemma_filter_push(n, |n: NodeView| n.status == NodeStatus::Up);
    assert(live(nodes.push(n)) =~= if n.status == NodeStatus::Up {
        live(nodes).push(n.node_id)
    } else {
        live(nodes)
    });
}

/// A node found in the first `k` nodes is the one found in all.
proof fn lemma_node_index_prefix(nodes: Seq<NodeView>, id: Seq<char>, k: int)
    requires
        0 <= k <= nodes.len(),
        node_index(nodes.take(k), id) is Some,
    ensures
        node_index(nodes, id) == node_index(nodes.take(k), id),
    decreases nodes.len(),
{
    if k < nodes.len() {
        assert(nodes.drop_last().take(k) =~= nodes.take(k));
        lemma_node_index_prefix(nodes.drop_last(), id, k);
    } else {
        assert(nodes.take(k) =~= nodes);
    }
}

/// What is found under a name is the first node of that name.
pub proof fn lemma_node_index(nodes: Seq<NodeView>, id: Seq<char>)
    ensures
        match node_index(nodes, id) {
            Some(i) => 0 <= i < nodes.len() && nodes[i].node_id == id,
            None => forall|i: int| 0 <= i < nodes.len() ==> (#[trigger] nodes[i]).node_id != id,
        },
    decreases nodes.len(),
{
    if nodes.len() > 0 {
        lemma_node_index(nodes.drop_last(), id);
        if node_index(nodes, id) is None {
            assert forall|i: int| 0 <= i < nodes.len() implies (#[trigger] nodes[i]).node_id
                != id by {
                if i < nodes.len() - 1 {
                    assert(nodes.drop_last()[i] == nodes[i]);
                }
            }
        }
    }
}

proof fn lemma_with_node_distinct(nodes: Seq<NodeView>, n: NodeView)
    requires
        distinct_ids(nodes),
    ensures
        distinct_ids(with_node(nodes, n)),
{
    lemma_node_index(nodes, n.node_id);
    let t = with_node(nodes, n);
    assert forall|a: int, b: int|
        #![trigger t[a], t[b]]
        0 <= a < b < t.len() implies t[a].node_id != t[b].node_id by {
        match node_index(nodes, n.node_id) {
            Some(i) => {
                if a != i {
                    assert(t[a] == nodes[a]);
                }
                if b != i {
                    assert(t[b] == nodes[b]);
                }
                assert(nodes[a].node_id != nodes[b].node_id);
            },
            None => {
                assert(t[a] == nodes[a]);
                if b < nodes.len() {
                    assert(t[b] == nodes[b]);
                }
            },
        }
    }
}

proof fn lemma_with_beat_distinct(beats: Seq<(Seq<char>, u128)>, id: Seq<char>, at: u128)
    requires
        distinct_beats(beats),
    ensures
        distinct_beats(with_beat(beats, id, at)),
        forall|i: int|
            0 <= i < with_beat(beats, id, at).len() ==> {
                let x = (#[trigger] with_beat(beats, id, at)[i]).0;
                x == id || exists|j: int| 0 <= j < beats.len() && (#[trigger] beats[j]).0 == x
            },
    decreases beats.len(),
{
    let t = with_beat(beats, id, at);
    if beats.len() == 0 {
    } else if beats[0].0 == id {
        assert forall|a: int, b: int|
            #![trigger t[a], t[b]]
            0 <= a < b < t.len() implies t[a].0 != t[b].0 by {
            assert(beats[a].0 != beats[b].0);
        }
        assert forall|i: int| 0 <= i < t.len() implies {
            let x = (#[trigger] t[i]).0;
            x == id || exists|j: int| 0 <= j < beats.len() && (#[trigger] beats[j]).0 == x
        } by {
            assert(t[i].0 == beats[i].0);
        }
    } else {
        let rest = beats.drop_first();
        assert forall|a: int, b: int|
            #![trigger rest[a], rest[b]]
            0 <= a < b < rest.len() implies rest[a].0 != rest[b].0 by {
            assert(rest[a] == beats[a + 1]);
            assert(rest[b] == beats[b + 1]);
        }
        lemma_with_beat_distinct(rest, id, at);
        let u = with_beat(rest, id, at);
        assert forall|i: int| 0 <= i < u.len() implies {
            let x = (#[trigger] u[i]).0;
            x == id || exists|j: int| 1 <= j < beats.len() && (#[trigger] beats[j]).0 == x
        } by {
            let x = u[i].0;
            if x != id {
                let j = choose|j: int| 0 <= j < rest.len() && (#[trigger] rest[j]).0 == x;
                assert(beats[j + 1].0 == x);
            }
        }
        assert forall|a: int, b: int|
            #![trigger t[a], t[b]]
            0 <= a < b < t.len() implies t[a].0 != t[b].0 by {
            assert(t[b] == u[b - 1]);
            if a > 0 {
                assert(t[a] == u[a - 1]);
            } else {
                let x = u[b - 1].0;
                if x != id {
                    let j = choose|j: int| 1 <= j < beats.len() && (#[trigger] beats[j]).0 == x;
                    assert(beats[0].0 != beats[j].0);
                }
            }
        }
        assert forall|i: int| 0 <= i < t.len() implies {
            let x = (#[trigger] t[i]).0;
            x == id || exists|j: int| 0 <= j < beats.len() && (#[trigger] beats[j]).0 == x
        } by {
            if i == 0 {
                assert(t[0] == beats[0]);
            } else {
                assert(t[i] == u[i - 1]);
            }
        }
    }
}

} // verus!
