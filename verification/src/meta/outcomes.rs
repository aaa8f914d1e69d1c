//! What each request to the metadata server comes to, said of the inodes, the
//! directories, the handles and the nodes themselves.

use vstd::prelude::*;
use vstd::utf8::*;

use crate::error::{Code, StatusView};
use crate::hash::law_placement_follows_the_hashes;
use crate::id::{
    holders, BlockIdx, BlockKey, BlockPlacement, Generation, InodeId, InodeKind, PlacementView,
};
use crate::meta::directory::{
    law_listing_is_the_directory, lemma_names_up_to_splits, listing, names_up_to,
};
use crate::meta::edits::{deletes_view, placed_view, BlockDelete};
use crate::meta::laws::law_every_holder_is_told;
use crate::meta::model::{
    attr_of, block_deletes, block_list, blocks_past, last_kept, live, next, node_deletes,
    node_index, proto_node, times_representable, up_nodes, with_beat, CloseArgs, DeleteView,
    InodeView, MakeArgs, MetaView, MoveArgs, NodeView, OpenHandleSt,
};
use crate::meta::service::{
    close_args, cookie_name, create_args, mkdir_args, move_args, next_cookie, page_limit,
};
use crate::meta::state::{distinct_ids, lemma_node_index, Inode, MetaState};
use crate::names::{lemma_encoding_injective, name_before};
use crate::ordered::{ascending, lemma_ascending_of};
use crate::outside::xxh3::xxh3_64;
use crate::proto::{
    Attr, CloseReq, CreateReq, DirEntryView, MkdirReq, NodeStatus, RenameReq, SetAttrReq,
};
use crate::time::{law_instants_are_kept, law_later_instant_is_taken, Timestamp};

verus! {

/// Whether `s` and `n` tell the instant `t`: its distance from the epoch, or
/// nothing where it lies before.
pub open spec fn tells_instant(s: i64, n: u32, t: Timestamp) -> bool {
    if t.secs >= 0 {
        s == t.secs && n == t.nanos
    } else {
        s == 0 && n == 0
    }
}

/// Whether attributes are those of an inode.
pub open spec fn tells(a: Attr, i: InodeView) -> bool {
    &&& a.ino == i.ino
    &&& a.size == i.size
    &&& a.blocks == i.blocks.dom().len() as u64
    &&& a.generation == i.generation
    &&& a.mode == i.mode
    &&& a.nlink == i.nlink
    &&& a.uid == i.uid
    &&& a.gid == i.gid
    &&& tells_instant(a.atime_s, a.atime_ns, i.atime)
    &&& tells_instant(a.mtime_s, a.mtime_ns, i.mtime)
    &&& tells_instant(a.ctime_s, a.ctime_ns, i.ctime)
}

/// Whether an answer is the refusal with this code and these words.
pub open spec fn refused<T>(r: Result<T, StatusView>, code: Code, message: Seq<char>) -> bool {
    r == Err::<T, StatusView>(StatusView { code, message })
}

/// Whether the instant `t` is so many nanoseconds after the epoch.
pub open spec fn is_instant(t: Timestamp, nanos: int) -> bool {
    t.nanos < 1_000_000_000 && t.secs * 1_000_000_000 + t.nanos == nanos
}

/// The server knows at first of the root alone: an empty directory that all may
/// read and its owner may change, with a place for every number but its own.
pub proof fn law_the_server_starts_with_its_root(replication_factor: nat, now: Timestamp, k: u64)
    ensures
        ({
            let s = MetaView::initial(replication_factor, now);
            &&& s.inodes.contains_key(k) <==> k == 1
            &&& s.inodes[1].ino == 1
            &&& s.inodes[1].kind == InodeKind::Dir
            &&& s.inodes[1].mode == 0o40755
            &&& s.inodes[1].uid == 0 && s.inodes[1].gid == 0
            &&& s.inodes[1].size == 4096
            &&& s.inodes[1].nlink == 2
            &&& s.inodes[1].atime == now && s.inodes[1].mtime == now && s.inodes[1].ctime == now
            &&& s.inodes[1].generation == 0
            &&& s.inodes[1].blocks == Map::<u64, PlacementView>::empty()
            &&& s.inodes[1].symlink_target is None
            &&& s.dirs.contains_key(k) <==> k == 1
            &&& s.dirs[1] == Map::<Seq<char>, u64>::empty()
            &&& s.next_ino == 2
            &&& s.next_fh == 1
            &&& s.open_handles == Map::<u64, OpenHandleSt>::empty()
            &&& s.nodes.len() == 0
            &&& s.last_heartbeat.len() == 0
            &&& s.replication_factor == replication_factor
        }),
{
}

/// An inode is told of with every one of its attributes; and a number that is
/// given out is followed by the next one.
pub proof fn law_attributes_are_told(i: InodeView, n: u64)
    ensures
        tells(attr_of(i), i),
        n < u64::MAX ==> next(n) == n + 1,
        next(u64::MAX) == 0,
{
}

/// The attributes of an inode are told where there is one, and are its own.
pub proof fn law_get_attr_tells_the_inode(s: MetaView, ino: u64)
    ensures
        s.get_attr(ino) is Ok <==> s.inodes.contains_key(ino),
        s.get_attr(ino) is Ok ==> tells(s.get_attr(ino)->Ok_0, s.inodes[ino]),
        s.get_attr(ino) is Err ==> refused(s.get_attr(ino), Code::NotFound, "inode not found"@),
{
}

/// A name is found where the directory has it and the inode that it stands for
/// is there; what is told is that inode.
pub proof fn law_lookup_finds_the_entry(s: MetaView, parent: u64, name: Seq<char>)
    ensures
        s.lookup(parent, name) is Ok <==> s.has_entry(parent, name) && s.inodes.contains_key(
            s.dirs[parent][name],
        ),
        s.lookup(parent, name) is Ok ==> tells(
            s.lookup(parent, name)->Ok_0,
            s.inodes[s.dirs[parent][name]],
        ),
        s.lookup(parent, name) is Err ==> refused(
            s.lookup(parent, name),
            Code::NotFound,
            "inode not found"@,
        ),
{
}

/// A change of attributes changes exactly what it asks for. What is asked for
/// is what the inode has afterwards, for every value before; what is not asked
/// for stays.
pub proof fn law_set_attr_sets_what_is_asked(s: MetaView, r: SetAttrReq, now: Timestamp)
    requires
        s.inodes.contains_key(r.ino),
    ensures
        s.set_attr(r, now).1 is Ok,
        s.set_attr(r, now).0.inodes.contains_key(r.ino),
        tells(s.set_attr(r, now).1->Ok_0.0, s.set_attr(r, now).0.inodes[r.ino]),
        ({
            let i = s.inodes[r.ino];
            let t = s.set_attr(r, now).0.inodes[r.ino];
            &&& r.size is Some ==> t.size == r.size->0
            &&& r.size is None ==> t.size == i.size
            &&& r.mode is Some ==> t.mode == r.mode->0
            &&& r.mode is None ==> t.mode == i.mode
            &&& r.uid is Some ==> t.uid == r.uid->0
            &&& r.uid is None ==> t.uid == i.uid
            &&& r.gid is Some ==> t.gid == r.gid->0
            &&& r.gid is None ==> t.gid == i.gid
            &&& r.atime_s is None ==> t.atime == i.atime
            &&& r.mtime_s is None ==> t.mtime == i.mtime
            &&& t.ctime == now
            &&& t.ino == i.ino
            &&& t.kind == i.kind
            &&& t.nlink == i.nlink
            &&& t.generation == i.generation
            &&& t.symlink_target == i.symlink_target
        }),
{
}

/// The nanoseconds from the epoch to a time that a request asks for: seconds
/// before the epoch count as the epoch, and nanoseconds that are not given as
/// none.
pub open spec fn instant_asked_for(secs: i64, nanos: Option<u32>) -> int {
    (if secs < 0 {
        0
    } else {
        secs as int
    }) * 1_000_000_000 + (if nanos is Some {
        nanos->0 as int
    } else {
        0
    })
}

/// The times that are asked for are those that the inode has afterwards.
pub proof fn law_set_attr_sets_the_times(s: MetaView, r: SetAttrReq, now: Timestamp)
    requires
        s.inodes.contains_key(r.ino),
    ensures
        ({
            let t = s.set_attr(r, now).0.inodes[r.ino];
            let limit = (i64::MAX + 1) * 1_000_000_000;
            &&& r.atime_s matches Some(a) ==> (instant_asked_for(a, r.atime_ns) < limit
                ==> is_instant(t.atime, instant_asked_for(a, r.atime_ns)))
            &&& r.mtime_s matches Some(m) ==> (instant_asked_for(m, r.mtime_ns) < limit
                ==> is_instant(t.mtime, instant_asked_for(m, r.mtime_ns)))
        }),
{
    if let Some(a) = r.atime_s {
        law_instants_are_kept(
            if a < 0 {
                0
            } else {
                a as int
            },
            if r.atime_ns is Some {
                r.atime_ns->0
            } else {
                0
            },
        );
    }
    if let Some(m) = r.mtime_s {
        law_instants_are_kept(
            if m < 0 {
                0
            } else {
                m as int
            },
            if r.mtime_ns is Some {
                r.mtime_ns->0
            } else {
                0
            },
        );
    }
}

/// A file keeps all its blocks unless it is made shorter. One that is cut keeps
/// exactly the blocks in which bytes of its new length lie, with their places;
/// one that is cut to nothing keeps its first block.
pub proof fn law_set_attr_keeps_the_blocks_in_use(
    s: MetaView,
    r: SetAttrReq,
    now: Timestamp,
    k: u64,
)
    requires
        s.inodes.contains_key(r.ino),
    ensures
        ({
            let i = s.inodes[r.ino];
            let t = s.set_attr(r, now).0.inodes[r.ino];
            let cut = r.size is Some && r.size->0 < i.size;
            &&& !cut ==> t.blocks == i.blocks
            &&& cut ==> (t.blocks.contains_key(k) <==> i.blocks.contains_key(k) && (k * 0x10_0000
                < r.size->0 || (r.size->0 == 0 && k == 0)))
            &&& t.blocks.contains_key(k) ==> t.blocks[k] == i.blocks[k]
        }),
{
}

/// A change of attributes touches one inode; where there is none it is refused.
pub proof fn law_set_attr_touches_one_inode(s: MetaView, r: SetAttrReq, now: Timestamp, k: u64)
    ensures
        ({
            let t = s.set_attr(r, now).0;
            &&& s.set_attr(r, now).1 is Ok <==> s.inodes.contains_key(r.ino)
            &&& s.set_attr(r, now).1 is Err ==> refused(
                s.set_attr(r, now).1,
                Code::NotFound,
                "inode not found"@,
            ) && t == s
            &&& t.inodes.contains_key(k) <==> s.inodes.contains_key(k)
            &&& k != r.ino && s.inodes.contains_key(k) ==> t.inodes[k] == s.inodes[k]
            &&& t.dirs == s.dirs && t.open_handles == s.open_handles
            &&& t.next_ino == s.next_ino && t.next_fh == s.next_fh
            &&& t.nodes == s.nodes && t.last_heartbeat == s.last_heartbeat
            &&& t.replication_factor == s.replication_factor
        }),
{
    if s.inodes.contains_key(r.ino) {
        let t = s.set_attr(r, now).0;
        assert(t.inodes.contains_key(k) <==> s.inodes.contains_key(k));
    }
}

/// The times of a request can be held unless their seconds run out.
pub proof fn law_times_fit(r: SetAttrReq)
    ensures
        ({
            let limit = (i64::MAX + 1) * 1_000_000_000;
            times_representable(r) <==> (r.atime_s is Some ==> instant_asked_for(
                r.atime_s->0,
                r.atime_ns,
            ) < limit) && (r.mtime_s is Some ==> instant_asked_for(r.mtime_s->0, r.mtime_ns)
                < limit)
        }),
{
}

/// Why a name cannot be given to something new: the parent is no directory, or
/// has the name already.
pub proof fn law_making_is_refused_for_a_reason(s: MetaView, a: MakeArgs, now: Timestamp)
    ensures
        s.create(a, now).1 is Ok <==> s.dirs.contains_key(a.parent) && !s.dirs[a.parent].contains_key(a.name),
        s.mkdir(a, now).1 is Ok <==> s.dirs.contains_key(a.parent) && !s.dirs[a.parent].contains_key(a.name),
        !s.dirs.contains_key(a.parent) ==> refused(
            s.create(a, now).1,
            Code::NotFound,
            "parent not found"@,
        ) && refused(s.mkdir(a, now).1, Code::NotFound, "parent not found"@),
        s.dirs.contains_key(a.parent) && s.dirs[a.parent].contains_key(a.name) ==> refused(
            s.create(a, now).1,
            Code::AlreadyExists,
            "entry already exists"@,
        ) && refused(s.mkdir(a, now).1, Code::AlreadyExists, "entry already exists"@),
        s.create(a, now).1 is Err ==> s.create(a, now).0 == s,
        s.mkdir(a, now).1 is Err ==> s.mkdir(a, now).0 == s,
{
}

/// A new file is empty, has one link, belongs to those who asked for it, bears
/// the permissions that they asked for and the present time, and has a number
/// of its own. It is open under a new handle.
pub proof fn law_a_new_file_is_as_asked(s: MetaView, a: MakeArgs, now: Timestamp)
    requires
        s.create(a, now).1 is Ok,
    ensures
        ({
            let t = s.create(a, now).0;
            let (attr, fh) = s.create(a, now).1->Ok_0;
            let i = t.inodes[s.next_ino];
            &&& t.inodes.contains_key(s.next_ino)
            &&& i.ino == s.next_ino
            &&& i.kind == InodeKind::File
            &&& i.mode & 0o170000 == 0o100000
            &&& i.mode & 0o7777 == a.mode & 0o7777
            &&& i.mode <= 0o177777
            &&& i.uid == a.uid && i.gid == a.gid
            &&& i.size == 0 && i.nlink == 1 && i.generation == 0
            &&& i.atime == now && i.mtime == now && i.ctime == now
            &&& i.blocks == Map::<u64, PlacementView>::empty()
            &&& i.symlink_target is None
            &&& t.dirs[a.parent].contains_key(a.name)
            &&& t.dirs[a.parent][a.name] == s.next_ino
            &&& tells(attr, i)
            &&& fh == s.next_fh
            &&& t.open_handles.contains_key(fh)
            &&& t.open_handles[fh].fh == fh
            &&& t.open_handles[fh].ino.0 == s.next_ino
            &&& t.open_handles[fh].flags == 0
            &&& t.open_handles[fh].generation_at_open.0 == 0
            &&& s.next_ino < u64::MAX ==> t.next_ino == s.next_ino + 1
            &&& s.next_ino == u64::MAX ==> t.next_ino == 0
            &&& s.next_fh < u64::MAX ==> t.next_fh == s.next_fh + 1
            &&& s.next_fh == u64::MAX ==> t.next_fh == 0
        }),
{
    let mode = a.mode;
    assert((0o100000 | (mode & 0o7777)) & 0o170000 == 0o100000u32) by (bit_vector);
    assert((0o100000 | (mode & 0o7777)) & 0o7777 == mode & 0o7777u32) by (bit_vector);
    assert((0o100000 | (mode & 0o7777)) <= 0o177777u32) by (bit_vector);
}

/// Making a file changes nothing else.
pub proof fn law_a_new_file_touches_nothing_else(
    s: MetaView,
    a: MakeArgs,
    now: Timestamp,
    k: u64,
    n: Seq<char>,
)
    requires
        s.create(a, now).1 is Ok,
    ensures
        ({
            let t = s.create(a, now).0;
            &&& k != s.next_ino ==> (t.inodes.contains_key(k) <==> s.inodes.contains_key(k))
            &&& k != s.next_ino && s.inodes.contains_key(k) ==> t.inodes[k] == s.inodes[k]
            &&& t.dirs.contains_key(k) <==> s.dirs.contains_key(k)
            &&& !(k == a.parent && n == a.name) && s.dirs.contains_key(k) ==> (
            t.dirs[k].contains_key(n) <==> s.dirs[k].contains_key(n))
            &&& !(k == a.parent && n == a.name) && s.has_entry(k, n) ==> t.dirs[k][n]
                == s.dirs[k][n]
            &&& k != s.next_fh ==> (t.open_handles.contains_key(k)
                <==> s.open_handles.contains_key(k))
            &&& k != s.next_fh && s.open_handles.contains_key(k) ==> t.open_handles[k]
                == s.open_handles[k]
            &&& t.nodes == s.nodes && t.last_heartbeat == s.last_heartbeat
            &&& t.replication_factor == s.replication_factor
        }),
{
}

/// A new directory is empty, has two links, belongs to those who asked for it,
/// bears the permissions that they asked for and the present time, and has a
/// number of its own; its parent has one link more.
pub proof fn law_a_new_directory_is_as_asked(s: MetaView, a: MakeArgs, now: Timestamp)
    requires
        s.mkdir(a, now).1 is Ok,
        a.parent != s.next_ino,
    ensures
        ({
            let t = s.mkdir(a, now).0;
            let i = t.inodes[s.next_ino];
            &&& t.inodes.contains_key(s.next_ino)
            &&& i.ino == s.next_ino
            &&& i.kind == InodeKind::Dir
            &&& i.mode & 0o170000 == 0o040000
            &&& i.mode & 0o7777 == a.mode & 0o7777
            &&& i.mode <= 0o177777
            &&& i.uid == a.uid && i.gid == a.gid
            &&& i.size == 4096 && i.nlink == 2 && i.generation == 0
            &&& i.atime == now && i.mtime == now && i.ctime == now
            &&& i.blocks == Map::<u64, PlacementView>::empty()
            &&& i.symlink_target is None
            &&& t.dirs.contains_key(s.next_ino)
            &&& t.dirs[s.next_ino] == Map::<Seq<char>, u64>::empty()
            &&& t.dirs[a.parent].contains_key(a.name)
            &&& t.dirs[a.parent][a.name] == s.next_ino
            &&& tells(s.mkdir(a, now).1->Ok_0, i)
            &&& s.inodes.contains_key(a.parent) && s.inodes[a.parent].nlink < u32::MAX
                ==> t.inodes[a.parent] == (InodeView {
                nlink: (s.inodes[a.parent].nlink + 1) as u32,
                ..s.inodes[a.parent]
            })
            &&& s.next_ino < u64::MAX ==> t.next_ino == s.next_ino + 1
            &&& s.next_ino == u64::MAX ==> t.next_ino == 0
        }),
{
    let mode = a.mode;
    assert((0o040000 | (mode & 0o7777)) & 0o170000 == 0o040000u32) by (bit_vector);
    assert((0o040000 | (mode & 0o7777)) & 0o7777 == mode & 0o7777u32) by (bit_vector);
    assert((0o040000 | (mode & 0o7777)) <= 0o177777u32) by (bit_vector);
}

/// Making a directory changes nothing else.
pub proof fn law_a_new_directory_touches_nothing_else(
    s: MetaView,
    a: MakeArgs,
    now: Timestamp,
    k: u64,
    n: Seq<char>,
)
    requires
        s.mkdir(a, now).1 is Ok,
    ensures
        ({
            let t = s.mkdir(a, now).0;
            &&& k != s.next_ino ==> (t.inodes.contains_key(k) <==> s.inodes.contains_key(k))
            &&& k != s.next_ino && k != a.parent && s.inodes.contains_key(k) ==> t.inodes[k]
                == s.inodes[k]
            &&& k != s.next_ino ==> (t.dirs.contains_key(k) <==> s.dirs.contains_key(k))
            &&& k != s.next_ino && !(k == a.parent && n == a.name) && s.dirs.contains_key(k) ==> (
            t.dirs[k].contains_key(n) <==> s.dirs[k].contains_key(n))
            &&& k != s.next_ino && !(k == a.parent && n == a.name) && s.has_entry(k, n)
                ==> t.dirs[k][n] == s.dirs[k][n]
            &&& t.open_handles == s.open_handles && t.next_fh == s.next_fh
            &&& t.nodes == s.nodes && t.last_heartbeat == s.last_heartbeat
            &&& t.replication_factor == s.replication_factor
        }),
{
}

/// Whether `e` is the request that has the node at `j` give up the block `k` of
/// `ino`: the node holds the block, and the request goes to where it is reached.
pub open spec fn asks_holder(
    e: DeleteView,
    nodes: Seq<NodeView>,
    ino: u64,
    blocks: Map<u64, PlacementView>,
    k: u64,
    j: int,
) -> bool {
    &&& 0 <= j < nodes.len()
    &&& blocks.contains_key(k)
    &&& nodes[j].node_id == blocks[k].primary || blocks[k].replicas.contains(nodes[j].node_id)
    &&& e.0 == "http://"@ + nodes[j].addr
    &&& e.1.ino.0 == ino && e.1.block_idx.0 == k && e.1.generation.0 == 0
}

/// Whether `e` has one of the known holders of `blocks` give up what it holds.
pub open spec fn asks_some_holder(
    e: DeleteView,
    nodes: Seq<NodeView>,
    ino: u64,
    blocks: Map<u64, PlacementView>,
) -> bool {
    exists|k: u64, j: int| asks_holder(e, nodes, ino, blocks, k, j)
}

/// Whether `asked` are requests to the known holders of `blocks`, to all of
/// them, and to no one else.
pub open spec fn asks_all_holders(
    asked: Seq<DeleteView>,
    nodes: Seq<NodeView>,
    ino: u64,
    blocks: Map<u64, PlacementView>,
) -> bool {
    &&& forall|x: int|
        0 <= x < asked.len() ==> asks_some_holder(#[trigger] asked[x], nodes, ino, blocks)
    &&& forall|e: DeleteView, k: u64, j: int| #[trigger]
        asks_holder(e, nodes, ino, blocks, k, j) ==> asked.contains(e)
}

/// Every request to one of a list of holders is for one of them.
proof fn lemma_node_deletes_come_from(
    nodes: Seq<NodeView>,
    ino: u64,
    idx: u64,
    at: Seq<Seq<char>>,
    x: int,
) -> (h: int)
    requires
        0 <= x < node_deletes(nodes, ino, idx, at).len(),
    ensures
        0 <= h < at.len(),
        node_index(nodes, at[h]) is Some,
        node_deletes(nodes, ino, idx, at)[x] == (
            "http://"@ + nodes[node_index(nodes, at[h])->0].addr,
            BlockKey {
                ino: InodeId(ino),
                block_idx: BlockIdx(idx),
                generation: Generation(0),
            },
        ),
    decreases at.len(),
{
    let rest = node_deletes(nodes, ino, idx, at.drop_last());
    if x < rest.len() {
        let h = lemma_node_deletes_come_from(nodes, ino, idx, at.drop_last(), x);
        assert(at.drop_last()[h] == at[h]);
        h
    } else {
        at.len() - 1
    }
}

proof fn lemma_block_deletes_come_from(
    nodes: Seq<NodeView>,
    ino: u64,
    list: Seq<(u64, PlacementView)>,
    x: int,
) -> (r: (int, int))
    requires
        0 <= x < block_deletes(nodes, ino, list).len(),
    ensures
        0 <= r.0 < list.len(),
        0 <= r.1 < holders(list[r.0].1).len(),
        node_index(nodes, holders(list[r.0].1)[r.1]) is Some,
        block_deletes(nodes, ino, list)[x] == (
            "http://"@ + nodes[node_index(nodes, holders(list[r.0].1)[r.1])->0].addr,
            BlockKey {
                ino: InodeId(ino),
                block_idx: BlockIdx(list[r.0].0),
                generation: Generation(0),
            },
        ),
    decreases list.len(),
{
    let rest = block_deletes(nodes, ino, list.drop_last());
    if x < rest.len() {
        let r = lemma_block_deletes_come_from(nodes, ino, list.drop_last(), x);
        assert(list.drop_last()[r.0] == list[r.0]);
        r
    } else {
        let h = lemma_node_deletes_come_from(
            nodes,
            ino,
            list.last().0,
            holders(list.last().1),
            x - rest.len(),
        );
        (list.len() - 1, h)
    }
}

/// The requests that delete a set of blocks go to their known holders.
proof fn lemma_deletes_ask_all_holders(
    nodes: Seq<NodeView>,
    ino: u64,
    blocks: Map<u64, PlacementView>,
)
    requires
        distinct_ids(nodes),
        blocks.dom().finite(),
    ensures
        asks_all_holders(block_deletes(nodes, ino, block_list(blocks)), nodes, ino, blocks),
{
    let list = block_list(blocks);
    let asked = block_deletes(nodes, ino, list);
    let keys = ascending(blocks.dom());
    lemma_ascending_of(blocks.dom());
    assert forall|x: int| 0 <= x < asked.len() implies asks_some_holder(
        #[trigger] asked[x],
        nodes,
        ino,
        blocks,
    ) by {
        let (i, h) = lemma_block_deletes_come_from(nodes, ino, list, x);
        let k = list[i].0;
        assert(keys.to_set().contains(keys[i]));
        let id = holders(list[i].1)[h];
        lemma_node_index(nodes, id);
        let j = node_index(nodes, id)->0;
        assert(nodes[j].node_id == id);
        if h > 0 {
            assert(blocks[k].replicas[h - 1] == id);
        }
        assert(asks_holder(asked[x], nodes, ino, blocks, k, j));
    }
    assert forall|e: DeleteView, k: u64, j: int| #[trigger]
        asks_holder(e, nodes, ino, blocks, k, j) implies asked.contains(e) by {
        assert(keys.to_set().contains(k));
        let i = choose|i: int| 0 <= i < keys.len() && keys[i] == k;
        assert(list[i] == (k, blocks[k]));
        let id = nodes[j].node_id;
        let at = holders(blocks[k]);
        let h = if id == blocks[k].primary {
            0
        } else {
            choose|h: int| 0 <= h < blocks[k].replicas.len() && blocks[k].replicas[h] == id
        };
        let h = if id == blocks[k].primary {
            0
        } else {
            h + 1
        };
        assert(at[h] == id);
        lemma_node_index(nodes, id);
        if let Some(x) = node_index(nodes, id) {
            assert(nodes[x].node_id == nodes[j].node_id);
            assert(x == j);
        }
        law_every_holder_is_told(nodes, ino, list, i, h);
        assert(e == (
            "http://"@ + nodes[j].addr,
            BlockKey {
                ino: InodeId(ino),
                block_idx: BlockIdx(k),
                generation: Generation(0),
            },
        ));
    }
}

/// Every holder of a block that is known is asked once, in the order in which
/// the blocks and their holders are listed; one that is not known is passed over.
pub proof fn law_each_known_holder_is_asked_once(
    nodes: Seq<NodeView>,
    ino: u64,
    k: u64,
    at: Seq<Seq<char>>,
    h: Seq<char>,
    list: Seq<(u64, PlacementView)>,
    p: PlacementView,
    j: int,
)
    requires
        distinct_ids(nodes),
    ensures
        node_deletes(nodes, ino, k, Seq::empty()).len() == 0,
        block_deletes(nodes, ino, Seq::empty()).len() == 0,
        0 <= j < nodes.len() && nodes[j].node_id == h ==> node_deletes(nodes, ino, k, at.push(h))
            == node_deletes(nodes, ino, k, at).push(
            (
                "http://"@ + nodes[j].addr,
                BlockKey { ino: InodeId(ino), block_idx: BlockIdx(k), generation: Generation(0) },
            ),
        ),
        (forall|x: int| 0 <= x < nodes.len() ==> (#[trigger] nodes[x]).node_id != h)
            ==> node_deletes(nodes, ino, k, at.push(h)) == node_deletes(nodes, ino, k, at),
        block_deletes(nodes, ino, list.push((k, p))) == block_deletes(nodes, ino, list)
            + node_deletes(nodes, ino, k, seq![p.primary] + p.replicas),
{
    lemma_node_index(nodes, h);
    assert(at.push(h).drop_last() =~= at);
    assert(list.push((k, p)).drop_last() =~= list);
    if 0 <= j < nodes.len() && nodes[j].node_id == h {
        if let Some(x) = node_index(nodes, h) {
            assert(nodes[x].node_id == nodes[j].node_id);
            assert(x == j);
        }
    }
}

/// The blocks that a file loses when it is cut are deleted from all that hold
/// them, and no other blocks are.
pub proof fn law_cut_blocks_are_deleted(s: MetaView, r: SetAttrReq, now: Timestamp)
    requires
        s.inodes.contains_key(r.ino),
        distinct_ids(s.nodes),
        s.inodes[r.ino].blocks.dom().finite(),
    ensures
        asks_all_holders(
            s.set_attr(r, now).1->Ok_0.1,
            s.nodes,
            r.ino,
            Map::new(
                |k: u64|
                    s.inodes[r.ino].blocks.contains_key(k) && !s.set_attr(
                        r,
                        now,
                    ).0.inodes[r.ino].blocks.contains_key(k),
                |k: u64| s.inodes[r.ino].blocks[k],
            ),
        ),
{
    let i = s.inodes[r.ino];
    let t = s.set_attr(r, now).0.inodes[r.ino];
    let gone = Map::new(
        |k: u64| i.blocks.contains_key(k) && !t.blocks.contains_key(k),
        |k: u64| i.blocks[k],
    );
    assert(gone.dom().subset_of(i.blocks.dom()));
    vstd::set_lib::lemma_len_subset(gone.dom(), i.blocks.dom());
    lemma_deletes_ask_all_holders(s.nodes, r.ino, gone);
    if r.size is Some && r.size->0 < i.size {
        assert(blocks_past(i.blocks, last_kept(r.size->0)) =~= gone);
    } else {
        assert(gone =~= Map::<u64, PlacementView>::empty());
        let none = s.set_attr(r, now).1->Ok_0.1;
        assert(none.len() == 0);
    }
}

/// A file is removed where the name stands for one that is no directory; else
/// nothing is.
pub proof fn law_unlink_removes_files(s: MetaView, parent: u64, name: Seq<char>)
    ensures
        ({
            let answer = s.unlink(parent, name).1;
            let ino = s.dirs[parent][name];
            &&& answer is Ok <==> s.has_entry(parent, name) && s.inodes.contains_key(ino)
                && s.inodes[ino].kind != InodeKind::Dir
            &&& !s.has_entry(parent, name) || !s.inodes.contains_key(ino) ==> refused(
                answer,
                Code::NotFound,
                "inode not found"@,
            )
            &&& s.has_entry(parent, name) && s.inodes.contains_key(ino) && s.inodes[ino].kind
                == InodeKind::Dir ==> refused(answer, Code::InvalidArgument, "is a directory"@)
            &&& answer is Err ==> s.unlink(parent, name).0 == s
        }),
{
}

/// A removed file is gone, with its name and its number; nothing else is. Its
/// blocks are deleted from all that hold them.
pub proof fn law_a_removed_file_is_gone(
    s: MetaView,
    parent: u64,
    name: Seq<char>,
    k: u64,
    n: Seq<char>,
)
    requires
        s.unlink(parent, name).1 is Ok,
    ensures
        ({
            let t = s.unlink(parent, name).0;
            let ino = s.dirs[parent][name];
            &&& t.inodes.contains_key(k) <==> s.inodes.contains_key(k) && k != ino
            &&& t.inodes.contains_key(k) ==> t.inodes[k] == s.inodes[k]
            &&& t.dirs.contains_key(k) <==> s.dirs.contains_key(k)
            &&& t.has_entry(k, n) <==> s.has_entry(k, n) && !(k == parent && n == name)
            &&& t.has_entry(k, n) ==> t.dirs[k][n] == s.dirs[k][n]
            &&& t.open_handles == s.open_handles
            &&& t.next_ino == s.next_ino && t.next_fh == s.next_fh
            &&& t.nodes == s.nodes && t.last_heartbeat == s.last_heartbeat
            &&& t.replication_factor == s.replication_factor
            &&& distinct_ids(s.nodes) && s.inodes[ino].blocks.dom().finite() ==> asks_all_holders(
                s.unlink(parent, name).1->Ok_0,
                s.nodes,
                ino,
                s.inodes[ino].blocks,
            )
        }),
{
    let ino = s.dirs[parent][name];
    if distinct_ids(s.nodes) && s.inodes[ino].blocks.dom().finite() {
        lemma_deletes_ask_all_holders(s.nodes, ino, s.inodes[ino].blocks);
    }
}

/// A directory is removed where it is one and holds nothing; else nothing is.
pub proof fn law_rmdir_removes_empty_directories(s: MetaView, parent: u64, name: Seq<char>)
    ensures
        ({
            let answer = s.rmdir(parent, name).1;
            let ino = s.dirs[parent][name];
            &&& answer is Ok <==> s.has_entry(parent, name) && s.dirs.contains_key(ino)
                && s.dirs[ino] == Map::<Seq<char>, u64>::empty()
            &&& !s.has_entry(parent, name) ==> refused(
                answer,
                Code::NotFound,
                "inode not found"@,
            )
            &&& s.has_entry(parent, name) && !s.dirs.contains_key(ino) ==> refused(
                answer,
                Code::InvalidArgument,
                "not a directory"@,
            )
            &&& s.has_entry(parent, name) && s.dirs.contains_key(ino) && s.dirs[ino] != Map::<
                Seq<char>,
                u64,
            >::empty() ==> refused(answer, Code::FailedPrecondition, "directory not empty"@)
            &&& answer is Err ==> s.rmdir(parent, name).0 == s
        }),
{
}

/// A removed directory is gone, with its name and its number, and its parent
/// has one link less; nothing else changes.
pub proof fn law_a_removed_directory_is_gone(
    s: MetaView,
    parent: u64,
    name: Seq<char>,
    k: u64,
    n: Seq<char>,
)
    requires
        s.rmdir(parent, name).1 is Ok,
    ensures
        ({
            let t = s.rmdir(parent, name).0;
            let ino = s.dirs[parent][name];
            &&& t.inodes.contains_key(k) <==> s.inodes.contains_key(k) && k != ino
            &&& t.inodes.contains_key(k) && k != parent ==> t.inodes[k] == s.inodes[k]
            &&& s.inodes.contains_key(parent) && s.inodes[parent].nlink > 0 ==> t.inodes[parent]
                == (InodeView {
                nlink: (s.inodes[parent].nlink - 1) as u32,
                ..s.inodes[parent]
            })
            &&& s.inodes.contains_key(parent) && s.inodes[parent].nlink == 0 ==> t.inodes[parent]
                == s.inodes[parent]
            &&& t.dirs.contains_key(k) <==> s.dirs.contains_key(k) && k != ino
            &&& t.has_entry(k, n) <==> s.has_entry(k, n) && !(k == parent && n == name)
            &&& t.has_entry(k, n) ==> t.dirs[k][n] == s.dirs[k][n]
            &&& t.open_handles == s.open_handles
            &&& t.next_ino == s.next_ino && t.next_fh == s.next_fh
            &&& t.nodes == s.nodes && t.last_heartbeat == s.last_heartbeat
            &&& t.replication_factor == s.replication_factor
        }),
{
    let ino = s.dirs[parent][name];
    assert(s.dirs[parent].contains_key(name));
    assert(parent != ino);
    if s.has_entry(k, n) && k == ino {
        assert(s.dirs[ino].contains_key(n));
    }
}

/// A move is carried out where the entry is there, and either stays where it
/// is, or goes into a directory in which the name is free or stands for what is
/// no directory or an empty one, whatever the two parents are. Else it is
/// refused, and nothing changes.
pub proof fn law_moves_are_carried_out(s: MetaView, a: MoveArgs)
    ensures
        ({
            let answer = s.rename(a).1;
            let same = a.src_parent == a.dst_parent && a.src_name == a.dst_name;
            let taken = s.has_entry(a.dst_parent, a.dst_name);
            let dst = s.dirs[a.dst_parent][a.dst_name];
            let full = s.inodes.contains_key(dst) && s.inodes[dst].kind == InodeKind::Dir
                && s.dirs.contains_key(dst) && s.dirs[dst] != Map::<Seq<char>, u64>::empty();
            let there = s.has_entry(a.src_parent, a.src_name);
            &&& answer is Ok <==> there && (same || (s.dirs.contains_key(a.dst_parent) && (!taken
                || (s.inodes.contains_key(dst) && !full))))
            &&& !there ==> refused(answer, Code::NotFound, "inode not found"@)
            &&& there && !same && !s.dirs.contains_key(a.dst_parent) ==> refused(
                answer,
                Code::NotFound,
                "dst parent not found"@,
            )
            &&& there && !same && taken && !s.inodes.contains_key(dst) ==> refused(
                answer,
                Code::NotFound,
                "inode not found"@,
            )
            &&& there && !same && taken && full ==> refused(
                answer,
                Code::FailedPrecondition,
                "destination directory not empty"@,
            )
            &&& answer is Err ==> s.rename(a).0 == s
            &&& there && same ==> s.rename(a).0 == s && s.rename(a).1->Ok_0.len() == 0
        }),
{
}

/// A move that is carried out takes the entry to its new place. What stood
/// there is gone, with its number, and where it was a file its blocks are
/// deleted from all that hold them. Every other entry and every other inode
/// stays; only the links of the two parents may change.
pub proof fn law_a_move_touches_two_places(s: MetaView, a: MoveArgs, k: u64, n: Seq<char>)
    requires
        s.entries_sound(),
        s.rename(a).1 is Ok,
        !(a.src_parent == a.dst_parent && a.src_name == a.dst_name),
    ensures
        ({
            let t = s.rename(a).0;
            let taken = s.has_entry(a.dst_parent, a.dst_name);
            let dst = s.dirs[a.dst_parent][a.dst_name];
            let from = k == a.src_parent && n == a.src_name;
            let to = k == a.dst_parent && n == a.dst_name;
            &&& t.has_entry(k, n) <==> to || (s.has_entry(k, n) && !from)
            &&& to ==> t.dirs[k][n] == s.dirs[a.src_parent][a.src_name]
            &&& !to && t.has_entry(k, n) ==> t.dirs[k][n] == s.dirs[k][n]
            &&& t.inodes.contains_key(k) <==> s.inodes.contains_key(k) && !(taken && k == dst)
            &&& t.inodes.contains_key(k) && k != a.src_parent && k != a.dst_parent ==> t.inodes[k]
                == s.inodes[k]
            &&& t.inodes.contains_key(k) ==> t.inodes[k] == (InodeView {
                nlink: t.inodes[k].nlink,
                ..s.inodes[k]
            })
            &&& t.dirs.contains_key(k) <==> s.dirs.contains_key(k) && !(taken && k == dst)
            &&& t.open_handles == s.open_handles
            &&& t.next_ino == s.next_ino && t.next_fh == s.next_fh
            &&& t.nodes == s.nodes && t.last_heartbeat == s.last_heartbeat
            &&& t.replication_factor == s.replication_factor
            &&& !taken || s.inodes[dst].kind != InodeKind::File ==> s.rename(a).1->Ok_0.len() == 0
            &&& taken && s.inodes[dst].kind == InodeKind::File && distinct_ids(s.nodes)
                && s.inodes[dst].blocks.dom().finite() ==> asks_all_holders(
                s.rename(a).1->Ok_0,
                s.nodes,
                dst,
                s.inodes[dst].blocks,
            )
        }),
{
    let taken = s.has_entry(a.dst_parent, a.dst_name);
    let dst = s.dirs[a.dst_parent][a.dst_name];
    assert(s.has_entry(a.src_parent, a.src_name));
    assert(s.kind_of(a.src_parent) == Some(InodeKind::Dir));
    assert(s.kind_of(a.dst_parent) == Some(InodeKind::Dir));
    if taken {
        assert(s.dirs.contains_key(dst) <==> s.kind_of(dst) == Some(InodeKind::Dir));
        assert(s.dirs[a.src_parent].contains_key(a.src_name));
        assert(s.dirs[a.dst_parent].contains_key(a.dst_name));
        assert(dst != a.src_parent && dst != a.dst_parent);
        assert(s.dirs[a.src_parent][a.src_name] != dst);
        if s.has_entry(k, n) && k == dst {
            assert(s.dirs[dst].contains_key(n));
        }
        if s.kind_of(dst) == Some(InodeKind::File) && distinct_ids(s.nodes)
            && s.inodes[dst].blocks.dom().finite() {
            lemma_deletes_ask_all_holders(s.nodes, dst, s.inodes[dst].blocks);
        }
    }
}

/// A move counts the links anew: the new parent loses that of a directory that
/// was moved onto, and a directory that goes from one parent to another takes
/// its link along.
pub proof fn law_a_move_takes_links_along(s: MetaView, a: MoveArgs)
    requires
        s.entries_sound(),
        s.rename(a).1 is Ok,
        !(a.src_parent == a.dst_parent && a.src_name == a.dst_name),
        2 <= s.inodes[a.src_parent].nlink,
        2 <= s.inodes[a.dst_parent].nlink,
    ensures
        ({
            let t = s.rename(a).0;
            let src = s.inodes[s.dirs[a.src_parent][a.src_name]];
            let dst = s.inodes[s.dirs[a.dst_parent][a.dst_name]];
            let lost: int = if s.has_entry(a.dst_parent, a.dst_name) && dst.kind
                == InodeKind::Dir {
                1
            } else {
                0
            };
            let carried: int = if src.kind == InodeKind::Dir && a.src_parent != a.dst_parent {
                1
            } else {
                0
            };
            &&& a.src_parent != a.dst_parent ==> t.inodes[a.src_parent].nlink
                == s.inodes[a.src_parent].nlink - carried
            &&& s.inodes[a.dst_parent].nlink - lost + carried <= u32::MAX
                ==> t.inodes[a.dst_parent].nlink == s.inodes[a.dst_parent].nlink - lost + carried
        }),
{
    let dst = s.dirs[a.dst_parent][a.dst_name];
    assert(s.has_entry(a.src_parent, a.src_name));
    assert(s.kind_of(a.src_parent) == Some(InodeKind::Dir));
    assert(s.kind_of(a.dst_parent) == Some(InodeKind::Dir));
    assert(s.inodes.contains_key(s.dirs[a.src_parent][a.src_name]));
    if s.has_entry(a.dst_parent, a.dst_name) {
        assert(s.dirs.contains_key(dst) <==> s.kind_of(dst) == Some(InodeKind::Dir));
        assert(s.dirs[a.src_parent].contains_key(a.src_name));
        assert(s.dirs[a.dst_parent].contains_key(a.dst_name));
        assert(dst != a.src_parent && dst != a.dst_parent);
        assert(s.dirs[a.src_parent][a.src_name] != dst);
    }
}

/// A move can be counted where the new parent has room for one link more.
pub proof fn law_moves_fit(s: MetaView, a: MoveArgs, k: u64)
    ensures
        s.inodes.contains_key(k) ==> (s.link_fits(k) <==> s.inodes[k].nlink < u32::MAX),
        !s.inodes.contains_key(k) ==> s.link_fits(k),
        !s.inodes.contains_key(a.dst_parent) || s.inodes[a.dst_parent].nlink < u32::MAX
            ==> s.rename_fits(a),
        a.src_parent == a.dst_parent ==> s.rename_fits(a),
{
}

/// A directory is read where there is one.
pub proof fn law_directories_are_read(s: MetaView, ino: u64, after: Option<Seq<char>>, max: nat)
    ensures
        s.read_dir(ino, after, max) is Ok <==> s.dirs.contains_key(ino),
        !s.dirs.contains_key(ino) ==> refused(
            s.read_dir(ino, after, max),
            Code::NotFound,
            "directory not found"@,
        ),
{
}

/// Every entry of a page has the name and the number of an entry of the
/// directory, and its kind is 1 where the inode under that number is a file, or
/// is not there, 2 where it is a directory and 3 where it is a symlink. The
/// names follow `after` and one another, and a page holds no more than `max` of
/// them. It is the last one where it holds fewer, and a name that it should hold
/// is left out only where the page is full of names before it.
pub proof fn law_a_page_tells_the_directory(
    s: MetaView,
    ino: u64,
    after: Option<Seq<char>>,
    max: nat,
    n: Seq<char>,
    i: int,
    j: int,
)
    requires
        s.dirs.contains_key(ino),
        s.dirs[ino].dom().finite(),
    ensures
        ({
            let p = s.read_dir(ino, after, max)->Ok_0;
            let e = p.entries[i];
            &&& p.entries.len() <= max
            &&& p.eof <==> p.entries.len() < max
            &&& 0 <= i < p.entries.len() ==> {
                &&& s.dirs[ino].contains_key(e.name)
                &&& s.dirs[ino][e.name] == e.ino
                &&& after matches Some(a) ==> name_before(a, e.name)
                &&& s.inodes.contains_key(e.ino) && s.inodes[e.ino].kind == InodeKind::Dir
                    ==> e.kind == 2
                &&& s.inodes.contains_key(e.ino) && s.inodes[e.ino].kind == InodeKind::Symlink
                    ==> e.kind == 3
                &&& s.inodes.contains_key(e.ino) && s.inodes[e.ino].kind == InodeKind::File
                    ==> e.kind == 1
                &&& !s.inodes.contains_key(e.ino) ==> e.kind == 1
            }
            &&& 0 <= i < j < p.entries.len() ==> name_before(e.name, p.entries[j].name)
            &&& s.dirs[ino].contains_key(n) && (after matches Some(a) ==> name_before(a, n)) ==> {
                ||| exists|x: int| 0 <= x < p.entries.len() && (#[trigger] p.entries[x]).name == n
                ||| p.entries.len() == max && (0 <= i < max ==> name_before(e.name, n))
            }
        }),
{
    let all = listing(s.dirs[ino]);
    let p = s.read_dir(ino, after, max)->Ok_0;
    law_listing_is_the_directory(s.dirs[ino], n, 0, 0);
    let from = match after {
        Some(a) => {
            lemma_names_up_to_splits(all, a);
            names_up_to(all, a)
        },
        None => 0,
    };
    assert(0 <= from <= all.len());
    law_listing_is_the_directory(s.dirs[ino], n, from + i, from + j);
    if 0 <= i < p.entries.len() {
        assert(p.entries[i].name == all[from + i].0);
    }
    if s.dirs[ino].contains_key(n) && (after matches Some(a) ==> name_before(a, n)) {
        let x = choose|x: int| 0 <= x < all.len() && (#[trigger] all[x]).0 == n;
        assert(x >= from);
        if x - from < p.entries.len() {
            assert(p.entries[x - from].name == n);
        } else if 0 <= i < max {
            law_listing_is_the_directory(s.dirs[ino], n, from + i, x);
        }
    }
}

/// A page may start behind any name: what asks for it is the name itself.
/// What asks for nothing, and what is no text, asks for the first page.
pub proof fn law_cookies_are_names(n: Seq<char>, cookie: Seq<u8>)
    ensures
        n.len() > 0 ==> cookie_name(encode_utf8(n)) == Some(n),
        cookie.len() == 0 ==> cookie_name(cookie) is None,
        !valid_utf8(cookie) ==> cookie_name(cookie) is None,
        cookie_name(cookie) matches Some(m) ==> encode_utf8(m) == cookie,
        cookie.len() > 0 && valid_utf8(cookie) ==> cookie_name(cookie) is Some,
{
    encode_utf8_valid_utf8(n);
    encode_utf8_decode_utf8(n);
    if n.len() > 0 && encode_utf8(n).len() == 0 {
        lemma_encoding_injective(n, Seq::empty());
    }
    if valid_utf8(cookie) {
        decode_utf8_encode_utf8(cookie);
    }
}

/// What a page answers for the next one is the last name on it.
pub proof fn law_the_next_page_follows(entries: Seq<DirEntryView>)
    ensures
        entries.len() == 0 ==> next_cookie(entries).len() == 0,
        entries.len() > 0 ==> next_cookie(entries) == encode_utf8(
            entries[entries.len() - 1].name,
        ),
{
}

/// A page has no more entries than are asked for; nothing asks for all that
/// there are.
pub proof fn law_page_limits(n: u32)
    ensures
        n > 0 ==> page_limit(n) == n,
        page_limit(0) == usize::MAX,
{
}

/// What is done is done with what the request holds.
pub proof fn law_requests_are_taken_as_they_are(
    c: CreateReq,
    m: MkdirReq,
    r: RenameReq,
    d: CloseReq,
)
    ensures
        create_args(c).parent == c.parent_ino && create_args(c).name == c.name@,
        create_args(c).mode == c.mode && create_args(c).uid == c.uid && create_args(c).gid == c.gid,
        mkdir_args(m).parent == m.parent_ino && mkdir_args(m).name == m.name@,
        mkdir_args(m).mode == m.mode && mkdir_args(m).uid == m.uid && mkdir_args(m).gid == m.gid,
        move_args(r).src_parent == r.src_parent_ino && move_args(r).src_name == r.src_name@,
        move_args(r).dst_parent == r.dst_parent_ino && move_args(r).dst_name == r.dst_name@,
        close_args(d).fh == d.fh && close_args(d).expected_generation == d.expected_generation,
        close_args(d).new_size == d.new_size && close_args(d).mtime_s == d.mtime_s,
        close_args(d).mtime_ns == d.mtime_ns && close_args(d).written == d.written_block_idxs@,
{
}

/// A file is opened where it is one: the answer tells what it is, and under
/// which handle it is open.
pub proof fn law_open_tells_the_file(s: MetaView, ino: u64, flags: i32)
    ensures
        ({
            let answer = s.open(ino, flags).1;
            let file = s.inodes[ino];
            &&& answer is Ok <==> s.inodes.contains_key(ino) && file.kind == InodeKind::File
            &&& !s.inodes.contains_key(ino) ==> refused(
                answer,
                Code::NotFound,
                "inode not found"@,
            )
            &&& s.inodes.contains_key(ino) && file.kind != InodeKind::File ==> refused(
                answer,
                Code::InvalidArgument,
                "not a file"@,
            )
            &&& answer is Err ==> s.open(ino, flags).0 == s
            &&& answer is Ok ==> tells(answer->Ok_0.0, file) && answer->Ok_0.1 == s.next_fh
        }),
{
    if s.open(ino, flags).1 is Ok {
        law_attributes_are_told(s.inodes[ino], 0);
    }
}

/// An opened file tells where each of its blocks lies, in their order, and
/// nothing of others.
pub proof fn law_an_opened_file_tells_its_blocks(
    s: MetaView,
    ino: u64,
    flags: i32,
    k: u64,
    i: int,
    j: int,
)
    requires
        s.open(ino, flags).1 is Ok,
        s.inodes[ino].blocks.dom().finite(),
    ensures
        ({
            let blocks = s.inodes[ino].blocks;
            let list = s.open(ino, flags).1->Ok_0.2;
            &&& blocks.contains_key(k) ==> list.contains((k, blocks[k]))
            &&& 0 <= i < list.len() ==> blocks.contains_key(list[i].0) && list[i].1
                == blocks[list[i].0]
            &&& 0 <= i < j < list.len() ==> list[i].0 < list[j].0
        }),
{
    let blocks = s.inodes[ino].blocks;
    let keys = ascending(blocks.dom());
    let list = block_list(blocks);
    lemma_ascending_of(blocks.dom());
    if blocks.contains_key(k) {
        assert(keys.to_set().contains(k));
        let x = choose|x: int| 0 <= x < keys.len() && keys[x] == k;
        assert(list[x] == (k, blocks[k]));
    }
    if 0 <= i < list.len() {
        assert(keys.to_set().contains(keys[i]));
    }
    if 0 <= i < j < list.len() {
        assert(keys[i] < keys[j]);
    }
}

/// An opened file has a handle, which remembers the file, how it was opened and
/// its generation. Nothing else changes.
pub proof fn law_an_opened_file_has_a_handle(s: MetaView, ino: u64, flags: i32, k: u64)
    requires
        s.open(ino, flags).1 is Ok,
    ensures
        ({
            let t = s.open(ino, flags).0;
            let h = t.open_handles[s.next_fh];
            &&& t.open_handles.contains_key(s.next_fh)
            &&& h.fh == s.next_fh && h.ino.0 == ino && h.flags == flags
            &&& h.generation_at_open.0 == s.inodes[ino].generation
            &&& k != s.next_fh ==> (t.open_handles.contains_key(k)
                <==> s.open_handles.contains_key(k))
            &&& k != s.next_fh && s.open_handles.contains_key(k) ==> t.open_handles[k]
                == s.open_handles[k]
            &&& s.next_fh < u64::MAX ==> t.next_fh == s.next_fh + 1
            &&& s.next_fh == u64::MAX ==> t.next_fh == 0
            &&& t.inodes == s.inodes && t.dirs == s.dirs && t.next_ino == s.next_ino
            &&& t.nodes == s.nodes && t.last_heartbeat == s.last_heartbeat
            &&& t.replication_factor == s.replication_factor
        }),
{
}

/// A close gives up its handle, whatever is answered. It fails where there is no
/// such handle, where the file is gone, and where something was written and the
/// file has been published since.
pub proof fn law_close_is_refused_for_a_reason(s: MetaView, a: CloseArgs, now: Timestamp, k: u64)
    ensures
        ({
            let (t, answer) = s.close(a, now);
            let ino = s.open_handles[a.fh].ino.0;
            let held = s.open_handles.contains_key(a.fh);
            let there = s.inodes.contains_key(ino);
            let stale = s.inodes[ino].generation != a.expected_generation;
            &&& answer is Ok <==> held && there && (a.written.len() == 0 || !stale)
            &&& !held ==> refused(answer, Code::NotFound, "file handle not found"@)
            &&& held && !there ==> refused(answer, Code::NotFound, "inode not found"@)
            &&& held && there && a.written.len() > 0 && stale ==> refused(
                answer,
                Code::FailedPrecondition,
                "generation mismatch"@,
            )
            &&& !t.open_handles.contains_key(a.fh)
            &&& k != a.fh ==> (t.open_handles.contains_key(k) <==> s.open_handles.contains_key(k))
            &&& k != a.fh && s.open_handles.contains_key(k) ==> t.open_handles[k]
                == s.open_handles[k]
            &&& t.inodes.contains_key(k) <==> s.inodes.contains_key(k)
            &&& s.inodes.contains_key(k) && (k != ino || answer is Err || a.written.len() == 0)
                ==> t.inodes[k] == s.inodes[k]
            &&& answer is Ok ==> tells(answer->Ok_0, t.inodes[ino])
            &&& t.dirs == s.dirs && t.next_ino == s.next_ino && t.next_fh == s.next_fh
            &&& t.nodes == s.nodes && t.last_heartbeat == s.last_heartbeat
            &&& t.replication_factor == s.replication_factor
            &&& s.publishes(a) <==> answer is Ok && a.written.len() > 0
        }),
{
    if s.close(a, now).1 is Ok {
        law_attributes_are_told(s.close(a, now).0.inodes[s.open_handles[a.fh].ino.0], 0);
    }
}

/// A close that publishes gives the file the next generation and the new size.
/// It was then last changed at the instant that is asked for, or a minute ago
/// where that is later; everything else of the file stays.
pub proof fn law_a_close_publishes(s: MetaView, a: CloseArgs, now: Timestamp)
    requires
        s.close(a, now).1 is Ok,
        a.written.len() > 0,
        now.nanos < 1_000_000_000,
        now.secs - 60 >= i64::MIN,
        (if a.mtime_s < 0 {
            0
        } else {
            a.mtime_s as int
        }) * 1_000_000_000 + a.mtime_ns < (i64::MAX + 1) * 1_000_000_000,
        s.inodes[s.open_handles[a.fh].ino.0].generation < u64::MAX,
    ensures
        ({
            let ino = s.open_handles[a.fh].ino.0;
            let i = s.inodes[ino];
            let t = s.close(a, now).0.inodes[ino];
            let asked = (if a.mtime_s < 0 {
                0
            } else {
                a.mtime_s as int
            }) * 1_000_000_000 + a.mtime_ns;
            let floor = (now.secs - 60) * 1_000_000_000 + now.nanos;
            let taken = t.mtime.secs * 1_000_000_000 + t.mtime.nanos;
            &&& t.generation == i.generation + 1
            &&& t.size == a.new_size
            &&& t.mtime.nanos < 1_000_000_000
            &&& asked >= floor ==> taken == asked
            &&& asked < floor ==> taken == floor
            &&& t.ctime == now
            &&& t.ino == i.ino && t.kind == i.kind && t.mode == i.mode
            &&& t.uid == i.uid && t.gid == i.gid && t.nlink == i.nlink
            &&& t.atime == i.atime && t.blocks == i.blocks
            &&& t.symlink_target == i.symlink_target
        }),
{
    let secs = if a.mtime_s < 0 {
        0
    } else {
        a.mtime_s as int
    };
    law_instants_are_kept(secs, a.mtime_ns);
    law_later_instant_is_taken(Timestamp::at(secs, a.mtime_ns), now, 60);
}

/// Places are given where there is a file. The answer says of each position that
/// is asked for where its block lies. A block that has a place keeps it, and one
/// that gets one is remembered there; nothing else changes.
pub proof fn law_places_are_given_and_kept(s: MetaView, ino: u64, idxs: Seq<u64>, i: int, k: u64)
    ensures
        ({
            let (t, answer) = s.allocate_blocks(ino, idxs);
            let list = answer->Ok_0;
            &&& answer is Ok <==> s.inodes.contains_key(ino)
            &&& answer is Err ==> t == s && refused(answer, Code::NotFound, "inode not found"@)
            &&& answer is Ok ==> {
                &&& list.len() == idxs.len()
                &&& 0 <= i < idxs.len() ==> {
                    &&& list[i].0 == idxs[i]
                    &&& t.inodes[ino].blocks.contains_key(idxs[i])
                    &&& list[i].1 == t.inodes[ino].blocks[idxs[i]]
                }
                &&& t.inodes[ino].blocks.contains_key(k) <==> s.inodes[ino].blocks.contains_key(k)
                    || idxs.contains(k)
                &&& s.inodes[ino].blocks.contains_key(k) ==> t.inodes[ino].blocks[k]
                    == s.inodes[ino].blocks[k]
                &&& t.inodes[ino] == (InodeView {
                    blocks: t.inodes[ino].blocks,
                    ..s.inodes[ino]
                })
                &&& t.inodes.contains_key(k) <==> s.inodes.contains_key(k)
                &&& k != ino && s.inodes.contains_key(k) ==> t.inodes[k] == s.inodes[k]
                &&& t.dirs == s.dirs && t.open_handles == s.open_handles
                &&& t.next_ino == s.next_ino && t.next_fh == s.next_fh
                &&& t.nodes == s.nodes && t.last_heartbeat == s.last_heartbeat
                &&& t.replication_factor == s.replication_factor
            }
        }),
{
    if s.inodes.contains_key(ino) && 0 <= i < idxs.len() {
        assert(idxs.contains(idxs[i]));
    }
}

/// A block that had no place gets one on the nodes in service whose names bid
/// most for it, as many as are asked for or there are, and the one that bids
/// most is its primary. Where there is none, a name that stands for no node takes
/// its place.
pub proof fn law_new_places_follow_the_bids(s: MetaView, ino: u64, idxs: Seq<u64>, k: u64) -> (at:
    Seq<int>)
    requires
        s.inodes.contains_key(ino),
        idxs.contains(k),
        !s.inodes[ino].blocks.contains_key(k),
    ensures
        ({
            let p = s.allocate_blocks(ino, idxs).0.inodes[ino].blocks[k];
            let up = live(s.nodes);
            &&& at.len() <= s.replication_factor && at.len() <= up.len()
            &&& at.len() == s.replication_factor || at.len() == up.len()
            &&& at.len() == 0 ==> p.primary == "?"@ && p.replicas.len() == 0
            &&& at.len() > 0 ==> p.primary == up[at[0]] && p.replicas.len() == at.len() - 1
            &&& forall|i: int| 0 <= i < at.len() ==> 0 <= #[trigger] at[i] < up.len()
            &&& forall|i: int|
                0 <= i < p.replicas.len() ==> #[trigger] p.replicas[i] == up[at[i + 1]]
            &&& forall|i: int, j: int|
                #![trigger at[i], at[j]]
                0 <= i < j < at.len() ==> at[i] != at[j] && ({
                    let a = encode_utf8(up[at[i]]);
                    let b = encode_utf8(up[at[j]]);
                    let x = xxh3_64(a, k) ^ xxh3_64(a, ino);
                    let y = xxh3_64(b, k) ^ xxh3_64(b, ino);
                    x > y || (x == y && at[i] < at[j])
                })
            &&& forall|i: int, j: int|
                #![trigger at[i], up[j]]
                0 <= i < at.len() && 0 <= j < up.len() && !at.contains(j) ==> ({
                    let a = encode_utf8(up[at[i]]);
                    let b = encode_utf8(up[j]);
                    let x = xxh3_64(a, k) ^ xxh3_64(a, ino);
                    let y = xxh3_64(b, k) ^ xxh3_64(b, ino);
                    x > y || (x == y && at[i] < j)
                })
        }),
{
    let key = BlockKey { ino: InodeId(ino), block_idx: BlockIdx(k), generation: Generation(0) };
    law_placement_follows_the_hashes(key, live(s.nodes), s.replication_factor)
}

/// The nodes in service are those that are up, in the order in which they are
/// known.
pub proof fn law_nodes_in_service(nodes: Seq<NodeView>, n: NodeView)
    ensures
        live(Seq::<NodeView>::empty()).len() == 0,
        up_nodes(Seq::<NodeView>::empty()).len() == 0,
        n.status == NodeStatus::Up ==> live(nodes.push(n)) == live(nodes).push(n.node_id),
        n.status != NodeStatus::Up ==> live(nodes.push(n)) == live(nodes),
        n.status == NodeStatus::Up ==> up_nodes(nodes.push(n)) == up_nodes(nodes).push(n),
        n.status != NodeStatus::Up ==> up_nodes(nodes.push(n)) == up_nodes(nodes),
{
    let up = |m: NodeView| m.status == NodeStatus::Up;
    reveal(Seq::filter);
    assert(nodes.push(n).drop_last() =~= nodes);
    assert(up_nodes(nodes.push(n)) == if n.status == NodeStatus::Up {
        nodes.filter(up).push(n)
    } else {
        nodes.filter(up)
    });
    assert(n.status == NodeStatus::Up ==> live(nodes.push(n)) =~= live(nodes).push(n.node_id));
}

/// What is told of a node is what is known of it.
pub proof fn law_nodes_are_told(n: NodeView)
    ensures
        proto_node(n).node_id == n.node_id && proto_node(n).addr == n.addr,
        proto_node(n).status == n.status,
        proto_node(n).used_bytes == n.ram_used && proto_node(n).capacity_bytes == n.ram_total,
        proto_node(n).last_heartbeat_s == 0,
{
}

/// A node that sends word is known as it says from then on, once, and with the
/// time of its word; the other nodes and their times stay, in their places.
pub proof fn law_word_from_a_node_is_taken(s: MetaView, n: NodeView, at: u128, i: int)
    requires
        forall|x: int, y: int|
            #![trigger s.nodes[x], s.nodes[y]]
            0 <= x < y < s.nodes.len() ==> s.nodes[x].node_id != s.nodes[y].node_id,
        forall|x: int, y: int|
            #![trigger s.last_heartbeat[x], s.last_heartbeat[y]]
            0 <= x < y < s.last_heartbeat.len() ==> s.last_heartbeat[x].0
                != s.last_heartbeat[y].0,
    ensures
        ({
            let t = s.heartbeat(n, at);
            &&& t.nodes.contains(n)
            &&& t.last_heartbeat.contains((n.node_id, at))
            &&& s.nodes.len() <= t.nodes.len() <= s.nodes.len() + 1
            &&& 0 <= i < s.nodes.len() && s.nodes[i].node_id == n.node_id ==> t.nodes[i] == n
                && t.nodes.len() == s.nodes.len()
            &&& 0 <= i < s.nodes.len() && s.nodes[i].node_id != n.node_id ==> t.nodes[i]
                == s.nodes[i]
            &&& i == s.nodes.len() && i < t.nodes.len() ==> t.nodes[i] == n
            &&& 0 <= i < s.last_heartbeat.len() && s.last_heartbeat[i].0 != n.node_id
                ==> t.last_heartbeat[i] == s.last_heartbeat[i]
            &&& s.last_heartbeat.len() <= t.last_heartbeat.len() <= s.last_heartbeat.len() + 1
            &&& 0 <= i < s.last_heartbeat.len() && s.last_heartbeat[i].0 == n.node_id
                ==> t.last_heartbeat[i] == (n.node_id, at) && t.last_heartbeat.len()
                == s.last_heartbeat.len()
            &&& t.inodes == s.inodes && t.dirs == s.dirs && t.open_handles == s.open_handles
            &&& t.next_ino == s.next_ino && t.next_fh == s.next_fh
            &&& t.replication_factor == s.replication_factor
        }),
{
    lemma_node_index(s.nodes, n.node_id);
    let t = s.heartbeat(n, at);
    match node_index(s.nodes, n.node_id) {
        Some(x) => {
            assert(t.nodes[x] == n);
            if 0 <= i < s.nodes.len() && s.nodes[i].node_id == n.node_id {
                assert(s.nodes[x].node_id == s.nodes[i].node_id);
            }
        },
        None => {
            assert(t.nodes[s.nodes.len() as int] == n);
        },
    }
    let x = lemma_beat_is_taken(s.last_heartbeat, n.node_id, at);
    assert(t.last_heartbeat[x] == (n.node_id, at));
    if 0 <= i < s.last_heartbeat.len() && x < s.last_heartbeat.len() {
        assert(s.last_heartbeat[x].0 == n.node_id);
    }
}

/// Where the time of a word is kept: in the place of the last word from that
/// node, or behind all others.
proof fn lemma_beat_is_taken(beats: Seq<(Seq<char>, u128)>, id: Seq<char>, at: u128) -> (x: int)
    ensures
        ({
            let t = with_beat(beats, id, at);
            &&& 0 <= x <= beats.len()
            &&& x < beats.len() ==> beats[x].0 == id && t.len() == beats.len()
            &&& x == beats.len() ==> t.len() == beats.len() + 1
            &&& t[x] == (id, at)
            &&& forall|i: int| 0 <= i < x ==> (#[trigger] beats[i]).0 != id
            &&& forall|i: int| 0 <= i < beats.len() && i != x ==> t[i] == #[trigger] beats[i]
        }),
    decreases beats.len(),
{
    if beats.len() == 0 {
        0
    } else if beats[0].0 == id {
        0
    } else {
        let rest = beats.drop_first();
        let x = lemma_beat_is_taken(rest, id, at);
        let t = with_beat(beats, id, at);
        assert forall|i: int| 0 <= i < x + 1 implies (#[trigger] beats[i]).0 != id by {
            if i > 0 {
                assert(rest[i - 1] == beats[i]);
            }
        }
        assert forall|i: int| 0 <= i < beats.len() && i != x + 1 implies t[i]
            == #[trigger] beats[i] by {
            if i > 0 {
                assert(rest[i - 1] == beats[i]);
            }
        }
        x + 1
    }
}

/// A node is taken out of service where its last word is too old, and stays as
/// it is where it is not, or where there is no word from it.
pub proof fn law_silent_nodes_are_down(
    s: MetaView,
    now: u128,
    dead_after: u128,
    i: int,
    b: int,
)
    requires
        forall|x: int, y: int|
            #![trigger s.last_heartbeat[x], s.last_heartbeat[y]]
            0 <= x < y < s.last_heartbeat.len() ==> s.last_heartbeat[x].0
                != s.last_heartbeat[y].0,
    ensures
        ({
            let t = s.silent_marked(now, dead_after);
            let beat = s.last_heartbeat[b];
            &&& t.nodes.len() == s.nodes.len()
            &&& 0 <= i < s.nodes.len() ==> t.nodes[i] == (NodeView {
                status: t.nodes[i].status,
                ..s.nodes[i]
            })
            &&& 0 <= i < s.nodes.len() && 0 <= b < s.last_heartbeat.len() && beat.0
                == s.nodes[i].node_id ==> {
                &&& now - beat.1 > dead_after ==> t.nodes[i].status == NodeStatus::Down
                &&& now - beat.1 <= dead_after ==> t.nodes[i].status == s.nodes[i].status
            }
            &&& 0 <= i < s.nodes.len() && (forall|x: int|
                0 <= x < s.last_heartbeat.len() ==> (#[trigger] s.last_heartbeat[x]).0
                    != s.nodes[i].node_id) ==> t.nodes[i] == s.nodes[i]
            &&& t.inodes == s.inodes && t.dirs == s.dirs && t.open_handles == s.open_handles
            &&& t.next_ino == s.next_ino && t.next_fh == s.next_fh
            &&& t.last_heartbeat == s.last_heartbeat
            &&& t.replication_factor == s.replication_factor
        }),
{
    if 0 <= i < s.nodes.len() && s.silent(s.nodes[i].node_id, now, dead_after) {
        let x = choose|x: int|
            0 <= x < s.last_heartbeat.len() && (#[trigger] s.last_heartbeat[x]).0
                == s.nodes[i].node_id && now - s.last_heartbeat[x].1 > dead_after;
        if 0 <= b < s.last_heartbeat.len() && s.last_heartbeat[b].0 == s.nodes[i].node_id {
            assert(s.last_heartbeat[x].0 == s.last_heartbeat[b].0);
        }
    }
}

/// What is said of the server is what it holds.
pub proof fn law_the_server_is_as_it_is_held(s: MetaState, k: u64, i: int)
    ensures
        s@.inodes.contains_key(k) <==> s.inodes@.contains_key(k),
        s.inodes@.contains_key(k) ==> s@.inodes[k] == s.inodes@[k]@,
        s@.dirs.contains_key(k) <==> s.dirs@.contains_key(k),
        s.dirs@.contains_key(k) ==> s@.dirs[k] == s.dirs@[k]@,
        s@.open_handles == s.open_handles@,
        s@.next_ino == s.next_ino && s@.next_fh == s.next_fh,
        s@.replication_factor == s.replication_factor,
        s@.nodes.len() == s.nodes@.len(),
        0 <= i < s.nodes@.len() ==> {
            let n = s@.nodes[i];
            &&& n.node_id == s.nodes@[i].node_id@ && n.addr == s.nodes@[i].addr@
            &&& n.ram_used == s.nodes@[i].ram_used && n.ram_total == s.nodes@[i].ram_total
            &&& n.status == s.nodes@[i].status
        },
        s@.last_heartbeat.len() == s.last_heartbeat@.len(),
        0 <= i < s.last_heartbeat@.len() ==> s@.last_heartbeat[i].0 == s.last_heartbeat@[i].0@
            && s@.last_heartbeat[i].1 == s.last_heartbeat@[i].1,
{
}

/// What is said of an inode is what is held of it.
pub proof fn law_an_inode_is_as_it_is_held(n: Inode, k: u64, j: int)
    ensures
        n@.ino == n.ino.0 && n@.kind == n.kind && n@.mode == n.mode,
        n@.uid == n.uid && n@.gid == n.gid && n@.size == n.size && n@.nlink == n.nlink,
        n@.atime == n.atime && n@.mtime == n.mtime && n@.ctime == n.ctime,
        n@.generation == n.generation.0,
        n@.blocks.contains_key(k) <==> n.blocks@.contains_key(k),
        n.blocks@.contains_key(k) ==> {
            let p = n.blocks@[k];
            &&& n@.blocks[k].primary == p.primary@
            &&& n@.blocks[k].replicas.len() == p.replicas@.len()
            &&& 0 <= j < p.replicas@.len() ==> n@.blocks[k].replicas[j] == p.replicas@[j]@
        },
        n@.symlink_target is Some <==> n.symlink_target is Some,
        n.symlink_target matches Some(t) ==> n@.symlink_target == Some(t@),
{
}

/// What is said of requests to delete, and of placed blocks, is what the lists
/// hold.
pub proof fn law_lists_of_blocks_are_as_they_are_held(
    d: Seq<BlockDelete>,
    b: Seq<(u64, BlockPlacement)>,
    i: int,
)
    ensures
        deletes_view(d).len() == d.len(),
        0 <= i < d.len() ==> deletes_view(d)[i] == (d[i].addr@, d[i].key),
        placed_view(b).len() == b.len(),
        0 <= i < b.len() ==> placed_view(b)[i] == (b[i].0, b[i].1@),
{
}

} // verus!
