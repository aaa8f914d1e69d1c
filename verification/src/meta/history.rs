//! What holds of the metadata server over any course of requests.

use vstd::prelude::*;

use crate::id::{InodeKind, PlacementView};
use crate::meta::laws::{
    law_allocate_consistent, law_close_consistent, law_create_consistent, law_initial_consistent,
    law_mkdir_consistent, law_nodes_consistent, law_open_consistent, law_rename_consistent,
    law_rmdir_consistent, law_set_attr_consistent, law_unlink_consistent,
};
use crate::meta::model::{block_list, CloseArgs, MakeArgs, MetaView, MoveArgs, NodeView};
use crate::ordered::{ascending, is_ascending, lemma_ascending_of};
use crate::proto::SetAttrReq;
use crate::time::Timestamp;

verus! {

/// Whatever can change what the server knows.
pub enum MetaCall {
    SetAttr(SetAttrReq, Timestamp),
    Create(MakeArgs, Timestamp),
    Mkdir(MakeArgs, Timestamp),
    Unlink(u64, Seq<char>),
    Rmdir(u64, Seq<char>),
    Rename(MoveArgs),
    Open(u64, i32),
    Close(CloseArgs, Timestamp),
    Allocate(u64, Seq<u64>),
    Heartbeat(NodeView, u128),
    MarkSilent(u128, u128),
}

impl MetaView {
    /// The server after one call.
    pub open spec fn called(self, c: MetaCall) -> MetaView {
        match c {
            MetaCall::SetAttr(r, now) => self.set_attr(r, now).0,
            MetaCall::Create(a, now) => self.create(a, now).0,
            MetaCall::Mkdir(a, now) => self.mkdir(a, now).0,
            MetaCall::Unlink(parent, name) => self.unlink(parent, name).0,
            MetaCall::Rmdir(parent, name) => self.rmdir(parent, name).0,
            MetaCall::Rename(a) => self.rename(a).0,
            MetaCall::Open(ino, flags) => self.open(ino, flags).0,
            MetaCall::Close(a, now) => self.close(a, now).0,
            MetaCall::Allocate(ino, idxs) => self.allocate_blocks(ino, idxs).0,
            MetaCall::Heartbeat(n, at) => self.heartbeat(n, at),
            MetaCall::MarkSilent(now, dead_after) => self.silent_marked(now, dead_after),
        }
    }

    /// The server after the first `n` of `calls`.
    pub open spec fn after(self, calls: Seq<MetaCall>, n: nat) -> MetaView
        decreases n,
    {
        if n == 0 {
            self
        } else {
            self.after(calls, (n - 1) as nat).called(calls[n - 1])
        }
    }

    /// Whether numbers are left for a call, and links can be counted.
    pub open spec fn has_room(self, c: MetaCall) -> bool {
        match c {
            MetaCall::Create(_, _) => self.next_ino < u64::MAX && self.next_fh < u64::MAX,
            MetaCall::Mkdir(a, _) => self.next_ino < u64::MAX && self.link_fits(a.parent),
            MetaCall::Rename(a) => self.rename_fits(a),
            MetaCall::Open(_, _) => self.next_fh < u64::MAX,
            _ => true,
        }
    }

    /// The handle that a call gives out, if it gives one out.
    pub open spec fn given_handle(self, c: MetaCall) -> Option<u64> {
        match c {
            MetaCall::Create(a, now) => match self.create(a, now).1 {
                Ok(y) => Some(y.1),
                Err(_) => None,
            },
            MetaCall::Open(ino, flags) => match self.open(ino, flags).1 {
                Ok(y) => Some(y.1),
                Err(_) => None,
            },
            _ => None,
        }
    }

    /// Whether a call is none that changes, publishes, places, removes or
    /// replaces the file `ino`.
    pub open spec fn leaves_alone(self, c: MetaCall, ino: u64) -> bool {
        match c {
            MetaCall::SetAttr(r, _) => r.ino != ino,
            MetaCall::Unlink(parent, name) => self.entry(parent, name) != Some(ino),
            MetaCall::Rename(a) => self.entry(a.dst_parent, a.dst_name) != Some(ino),
            MetaCall::Close(a, _) => self.publishes(a) ==> self.open_handles[a.fh].ino.0 != ino,
            MetaCall::Allocate(i, _) => i != ino,
            _ => true,
        }
    }
}

/// One call keeps the server consistent, as long as there is room for it.
proof fn lemma_called_consistent(s: MetaView, c: MetaCall)
    requires
        s.consistent(),
        s.has_room(c),
    ensures
        s.called(c).consistent(),
{
    match c {
        MetaCall::SetAttr(r, now) => law_set_attr_consistent(s, r, now),
        MetaCall::Create(a, now) => law_create_consistent(s, a, now),
        MetaCall::Mkdir(a, now) => law_mkdir_consistent(s, a, now),
        MetaCall::Unlink(parent, name) => law_unlink_consistent(s, parent, name),
        MetaCall::Rmdir(parent, name) => law_rmdir_consistent(s, parent, name),
        MetaCall::Rename(a) => law_rename_consistent(s, a),
        MetaCall::Open(ino, flags) => law_open_consistent(s, ino, flags),
        MetaCall::Close(a, now) => law_close_consistent(s, a, now),
        MetaCall::Allocate(ino, idxs) => law_allocate_consistent(s, ino, idxs),
        MetaCall::Heartbeat(n, at) => law_nodes_consistent(s, n, at, 0),
        MetaCall::MarkSilent(now, dead_after) => law_nodes_consistent(
            s,
            arbitrary(),
            now,
            dead_after,
        ),
    }
}

proof fn lemma_after_consistent(s: MetaView, calls: Seq<MetaCall>, n: nat)
    requires
        s.consistent(),
        forall|i: nat| i < n ==> (#[trigger] s.after(calls, i)).has_room(calls[i as int]),
    ensures
        s.after(calls, n).consistent(),
    decreases n,
{
    if n > 0 {
        lemma_after_consistent(s, calls, (n - 1) as nat);
        let before = s.after(calls, (n - 1) as nat);
        assert(before.has_room(calls[n - 1]));
        lemma_called_consistent(before, calls[n - 1]);
    }
}

/// The server is consistent in every state that it comes to, as long as there
/// was room for every call.
pub proof fn law_always_consistent(
    replication_factor: nat,
    now: Timestamp,
    calls: Seq<MetaCall>,
    n: nat,
)
    requires
        n <= calls.len(),
        forall|i: nat|
            i < n ==> (#[trigger] MetaView::initial(replication_factor, now).after(
                calls,
                i,
            )).has_room(calls[i as int]),
    ensures
        MetaView::initial(replication_factor, now).after(calls, n).consistent(),
{
    law_initial_consistent(replication_factor, now);
    lemma_after_consistent(MetaView::initial(replication_factor, now), calls, n);
}

/// The next handle is never one before, as long as numbers are left.
proof fn lemma_next_handle_grows(s: MetaView, calls: Seq<MetaCall>, m: nat, n: nat)
    requires
        m <= n,
        forall|i: nat| m <= i < n ==> (#[trigger] s.after(calls, i)).has_room(calls[i as int]),
    ensures
        s.after(calls, m).next_fh <= s.after(calls, n).next_fh,
    decreases n,
{
    if m < n {
        lemma_next_handle_grows(s, calls, m, (n - 1) as nat);
        assert(s.after(calls, (n - 1) as nat).has_room(calls[n - 1]));
    }
}

/// A handle that an open or a create gives out was given out by none before it,
/// and is not in use, as long as numbers are left.
pub proof fn law_handles_are_new(s: MetaView, calls: Seq<MetaCall>, m: nat, n: nat)
    requires
        s.consistent(),
        m < n < calls.len(),
        forall|i: nat| i < n ==> (#[trigger] s.after(calls, i)).has_room(calls[i as int]),
    ensures
        ({
            let earlier = s.after(calls, m).given_handle(calls[m as int]);
            let later = s.after(calls, n).given_handle(calls[n as int]);
            &&& (later matches Some(h) ==> h == s.after(calls, n).next_fh)
            &&& (later matches Some(h) ==> !s.after(calls, n).open_handles.contains_key(h))
            &&& earlier is Some && later is Some ==> earlier->0 < later->0
        }),
{
    lemma_after_consistent(s, calls, n);
    assert(s.after(calls, m).has_room(calls[m as int]));
    lemma_next_handle_grows(s, calls, (m + 1) as nat, n);
    assert(s.after(calls, (m + 1) as nat) == s.after(calls, m).called(calls[m as int]));
}

/// A call that leaves a file alone leaves what is known of it as it was.
proof fn lemma_left_alone(s: MetaView, c: MetaCall, ino: u64)
    requires
        s.consistent(),
        s.kind_of(ino) == Some(InodeKind::File),
        s.leaves_alone(c, ino),
    ensures
        s.called(c).inodes.contains_key(ino),
        s.called(c).inodes[ino] == s.inodes[ino],
{
    assert(s.inodes.contains_key(ino));
    assert(!s.dirs.contains_key(ino));
    match c {
        MetaCall::Rmdir(parent, name) => {
            if s.rmdir(parent, name).1 is Ok {
                assert(s.dirs.contains_key(parent));
            }
        },
        MetaCall::Rename(a) => {
            if s.rename(a).1 is Ok {
                assert(s.dirs.contains_key(a.src_parent));
            }
        },
        _ => {},
    }
}

proof fn lemma_left_alone_after(s: MetaView, calls: Seq<MetaCall>, n: nat, ino: u64)
    requires
        s.consistent(),
        s.kind_of(ino) == Some(InodeKind::File),
        forall|i: nat| i < n ==> (#[trigger] s.after(calls, i)).has_room(calls[i as int]),
        forall|i: nat| i < n ==> (#[trigger] s.after(calls, i)).leaves_alone(calls[i as int], ino),
    ensures
        s.after(calls, n).inodes.contains_key(ino),
        s.after(calls, n).inodes[ino] == s.inodes[ino],
    decreases n,
{
    if n > 0 {
        let m = (n - 1) as nat;
        lemma_left_alone_after(s, calls, m, ino);
        lemma_after_consistent(s, calls, m);
        assert(s.after(calls, m).leaves_alone(calls[m as int], ino));
        lemma_left_alone(s.after(calls, m), calls[m as int], ino);
    }
}

/// What a close published is what every later open tells, whoever opens the
/// file and whatever else was done since, until the file itself is touched
/// again: the size and the generation of the close, and the places of all
/// blocks. The open changes no inode.
pub proof fn law_close_is_seen_by_later_opens(
    s: MetaView,
    a: CloseArgs,
    now: Timestamp,
    calls: Seq<MetaCall>,
    flags: i32,
)
    requires
        s.consistent(),
        s.publishes(a),
        s.kind_of(s.open_handles[a.fh].ino.0) == Some(InodeKind::File),
        a.expected_generation < u64::MAX,
        forall|i: nat|
            i < calls.len() ==> (#[trigger] s.close(a, now).0.after(calls, i)).has_room(
                calls[i as int],
            ),
        forall|i: nat|
            i < calls.len() ==> (#[trigger] s.close(a, now).0.after(calls, i)).leaves_alone(
                calls[i as int],
                s.open_handles[a.fh].ino.0,
            ),
    ensures
        ({
            let ino = s.open_handles[a.fh].ino.0;
            let later = s.close(a, now).0.after(calls, calls.len());
            let answer = later.open(ino, flags).1;
            &&& answer is Ok
            &&& answer->Ok_0.0.size == a.new_size
            &&& answer->Ok_0.0.generation == a.expected_generation + 1
            &&& answer->Ok_0.0.generation == s.close(a, now).1->Ok_0.generation
            &&& answer->Ok_0.2 == block_list(s.inodes[ino].blocks)
            &&& later.open(ino, flags).0.inodes == later.inodes
        }),
{
    let ino = s.open_handles[a.fh].ino.0;
    let closed = s.close(a, now).0;
    law_close_consistent(s, a, now);
    assert(closed.kind_of(ino) == s.kind_of(ino));
    lemma_left_alone_after(closed, calls, calls.len(), ino);
}

/// The blocks of a file are told in the order of their positions, each once
/// and with its place.
pub proof fn law_blocks_are_listed_in_order(blocks: Map<u64, PlacementView>, k: u64)
    requires
        blocks.dom().finite(),
    ensures
        forall|i: int, j: int|
            #![trigger block_list(blocks)[i], block_list(blocks)[j]]
            0 <= i < j < block_list(blocks).len() ==> block_list(blocks)[i].0 < block_list(
                blocks,
            )[j].0,
        blocks.contains_key(k) <==> block_list(blocks).contains((k, blocks[k])),
{
    lemma_ascending_of(blocks.dom());
    let keys = ascending(blocks.dom());
    assert(is_ascending(keys));
    let all = block_list(blocks);
    if blocks.contains_key(k) {
        assert(keys.to_set().contains(k));
        let i = choose|i: int| 0 <= i < keys.len() && keys[i] == k;
        assert(all[i] == (k, blocks[k]));
    }
    if all.contains((k, blocks[k])) {
        let i = choose|i: int| 0 <= i < all.len() && all[i] == (k, blocks[k]);
        assert(keys.to_set().contains(keys[i]));
    }
}

} // verus!
