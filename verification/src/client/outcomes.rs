//! What each operation of a mount comes to, said of blocks and bytes, of
//! attributes, and of the nodes that are asked.

use vstd::prelude::*;

use crate::client::attr::{kernel_attr, number_type, times_tellable, FileType};
use crate::client::fetch::{Fetch, FetchView, ReadReply, ReadReplyView};
use crate::client::flush::{
    jobs_view, BlockJob, JobStep, JobStepView, JobView, Publish, PublishAction, PublishActionView,
    PublishEvent, PublishEventView, PublishStage, PublishView, WaitPolicy,
};
use crate::client::fs::{
    asked_time, capacity_sum, dir_lines_from, fullness, lines_view, opened, opened_view,
    told_failure, used_sum, DirLine, DtmpfsFs, TimeOrNow,
};
use crate::client::open_file::{with_locations, OpenFile, OpenView};
use crate::client::pool::addr_map;
use crate::client::read::{block_piece, read_bytes, read_fits, want_at, ReadCursor};
use crate::client::write::{
    fills, lemma_block_of, padded, supplied, touches, write_fits, write_ran, written, WriteStep,
};
use crate::error::{
    error_of_status, law_errors_have_their_numbers, law_failures_keep_their_meaning, Code,
    ErrorView, Status,
};
use crate::id::PlacementView;
use crate::ordered::{ascending, is_ascending, lemma_ascending_of};
use crate::outside::blob::{buffer_view, bytes_view};
use crate::outside::cache::pruned;
use crate::outside::shards::kept_files;
use crate::proto::{block_map_view, node_list_view, Attr, DirEntryView, ProtoNodeView};
use crate::time::{law_instants_are_kept, law_instants_are_told, Timestamp};

verus! {

/// The kernel is told of an inode what the server tells: its type by the four
/// bits of the mode above the lowest twelve, its permissions by those twelve,
/// its times as instants.
pub proof fn law_the_kernel_is_told_the_attributes(a: Attr)
    ensures
        ({
            let k = kernel_attr(a);
            let kind = (a.mode / 4096) % 16;
            &&& k.ino == a.ino && k.size == a.size && k.blocks == a.blocks
            &&& k.nlink == a.nlink && k.uid == a.uid && k.gid == a.gid
            &&& k.kind == FileType::Directory <==> kind == 4
            &&& k.kind == FileType::Symlink <==> kind == 10
            &&& k.kind == FileType::RegularFile <==> kind != 4 && kind != 10
            &&& k.perm == a.mode % 4096
            &&& k.rdev == 0 && k.flags == 0 && k.blksize == 1024 * 1024
            &&& k.crtime.secs == 0 && k.crtime.nanos == 0
        }),
{
    let m: u32 = a.mode;
    assert((m & 0o170000 == 0o040000) == ((m / 4096) % 16 == 4)) by (bit_vector);
    assert((m & 0o170000 == 0o120000) == ((m / 4096) % 16 == 10)) by (bit_vector);
    assert(m & 0o7777 == m % 4096) by (bit_vector);
}

/// The times of an inode are told as the instants that they are. They can be
/// told where none lies before the epoch, nor too far behind it.
pub proof fn law_the_kernel_is_told_the_times(a: Attr)
    ensures
        ({
            let limit = (i64::MAX + 1) * 1_000_000_000;
            let k = kernel_attr(a);
            &&& times_tellable(a) <==> a.atime_s >= 0 && a.mtime_s >= 0 && a.ctime_s >= 0
                && a.atime_s * 1_000_000_000 + a.atime_ns < limit && a.mtime_s * 1_000_000_000
                + a.mtime_ns < limit && a.ctime_s * 1_000_000_000 + a.ctime_ns < limit
            &&& times_tellable(a) ==> {
                &&& k.atime.secs * 1_000_000_000 + k.atime.nanos == a.atime_s * 1_000_000_000
                    + a.atime_ns
                &&& k.mtime.secs * 1_000_000_000 + k.mtime.nanos == a.mtime_s * 1_000_000_000
                    + a.mtime_ns
                &&& k.ctime.secs * 1_000_000_000 + k.ctime.nanos == a.ctime_s * 1_000_000_000
                    + a.ctime_ns
                &&& k.atime.nanos < 1_000_000_000
                &&& k.mtime.nanos < 1_000_000_000
                &&& k.ctime.nanos < 1_000_000_000
            }
        }),
{
    law_instants_are_kept(a.atime_s as int, a.atime_ns);
    law_instants_are_kept(a.mtime_s as int, a.mtime_ns);
    law_instants_are_kept(a.ctime_s as int, a.ctime_ns);
}

/// A listing tells a directory by the number 2 and a symlink by 3; everything
/// else is a file.
pub proof fn law_listed_kinds(n: u32)
    ensures
        number_type(n) == FileType::Directory <==> n == 2,
        number_type(n) == FileType::Symlink <==> n == 3,
        number_type(n) == FileType::RegularFile <==> n != 2 && n != 3,
{
}

/// A time that is asked for is asked for as it is, one before the epoch as the
/// epoch. The present is not asked for.
pub proof fn law_times_asked_for(t: Timestamp)
    ensures
        t.secs >= 0 ==> asked_time(Some(TimeOrNow::SpecificTime(t))) == (
            Some(t.secs),
            Some(t.nanos),
        ),
        t.secs < 0 ==> asked_time(Some(TimeOrNow::SpecificTime(t))) == (Some(0i64), Some(0u32)),
        asked_time(Some(TimeOrNow::Now)) == (None::<i64>, None::<u32>),
        asked_time(None) == (None::<i64>, None::<u32>),
{
    law_instants_are_told(t);
}

/// The kernel is told of a failed call by its code: what there is none of, what
/// is there already, what is not allowed, what there is no room for and what
/// makes no sense have numbers of their own.
pub proof fn law_failures_have_their_numbers(s: Status, n: int)
    requires
        told_failure(s, n),
    ensures
        n == 2 <==> s@.code == Code::NotFound,
        n == 17 <==> s@.code == Code::AlreadyExists,
        n == 13 <==> s@.code == Code::PermissionDenied || s@.code == Code::Unauthenticated,
        n == 28 <==> s@.code == Code::ResourceExhausted,
        n == 22 <==> s@.code == Code::InvalidArgument || s@.code == Code::OutOfRange,
        n == 2 || n == 17 || n == 13 || n == 28 || n == 22 || n == 5,
        s@.code == s.code && s@.message == s.message@,
{
    law_failures_keep_their_meaning(s@, None);
    law_errors_have_their_numbers(error_of_status(s@, None), n);
}

/// What nodes have, and use, is what each of them has, and uses.
pub proof fn law_sums_count_every_node(nodes: Seq<ProtoNodeView>, n: ProtoNodeView)
    ensures
        capacity_sum(Seq::empty()) == 0,
        used_sum(Seq::empty()) == 0,
        capacity_sum(nodes.push(n)) == capacity_sum(nodes) + n.capacity_bytes,
        used_sum(nodes.push(n)) == used_sum(nodes) + n.used_bytes,
{
    assert(nodes.push(n).drop_last() =~= nodes);
}

/// The filesystem is told in whole blocks: as many as what the nodes have holds,
/// and of these as many free as what they do not use holds.
pub proof fn law_fullness_in_whole_blocks(nodes: Seq<ProtoNodeView>, bs: u64)
    requires
        bs > 0,
        capacity_sum(nodes) <= u64::MAX,
        used_sum(nodes) <= u64::MAX,
    ensures
        ({
            let f = fullness(nodes, bs);
            let total = capacity_sum(nodes) as int;
            let used = used_sum(nodes) as int;
            &&& f.blocks * bs <= total < f.blocks * bs + bs
            &&& used <= total ==> f.bfree * bs <= total - used < f.bfree * bs + bs
            &&& used > total ==> f.bfree == 0
            &&& f.bavail == f.bfree
            &&& f.files == 0 && f.ffree == 0 && f.frsize == 0 && f.namelen == 255
            &&& bs <= u32::MAX ==> f.bsize == bs
        }),
{
    let total = capacity_sum(nodes) as int;
    let used = used_sum(nodes) as int;
    lemma_block_of(total, bs as int);
    if used <= total {
        lemma_block_of(total - used, bs as int);
    } else {
        vstd::arithmetic::div_mod::lemma_div_basics(bs as int);
        assert(0int / (bs as int) == 0);
    }
}

/// The kernel is told every entry behind the first `skip`, in their order, each
/// with the number of the next one.
pub proof fn law_every_entry_has_its_line(entries: Seq<DirEntryView>, skip: nat, i: int)
    requires
        entries.len() <= i64::MAX,
    ensures
        ({
            let lines = dir_lines_from(entries, skip);
            &&& skip <= entries.len() ==> lines.len() == entries.len() - skip
            &&& skip > entries.len() ==> lines.len() == 0
            &&& skip <= i < entries.len() ==> {
                let line = lines[i - skip];
                &&& line.name == entries[i].name
                &&& line.ino == entries[i].ino
                &&& line.offset == i + 1
                &&& line.kind == FileType::Directory <==> entries[i].kind == 2
                &&& line.kind == FileType::Symlink <==> entries[i].kind == 3
            }
        }),
{
}

/// A list of places adds to those that are known, and of two for the same block
/// the later one holds.
pub proof fn law_later_places_hold(
    known: Map<u64, PlacementView>,
    locs: Seq<(u64, PlacementView)>,
    l: (u64, PlacementView),
    k: u64,
)
    ensures
        with_locations(known, Seq::empty()) == known,
        ({
            let before = with_locations(known, locs);
            let after = with_locations(known, locs.push(l));
            &&& after.contains_key(l.0) && after[l.0] == l.1
            &&& k != l.0 ==> (after.contains_key(k) <==> before.contains_key(k))
            &&& k != l.0 && before.contains_key(k) ==> after[k] == before[k]
        }),
{
    assert(locs.push(l).drop_last() =~= locs);
}

/// An opened file is as the server told it, and nothing was written to it.
pub proof fn law_a_file_is_opened_as_told(
    ino: u64,
    a: Attr,
    locs: Seq<(u64, PlacementView)>,
    flags: i32,
    l: (u64, PlacementView),
    k: u64,
)
    ensures
        ({
            let v = opened_view(ino, a, locs, flags);
            let w = opened_view(ino, a, locs.push(l), flags);
            &&& v.ino == ino && v.generation == a.generation && v.size_hint == a.size
            &&& v.flags == flags
            &&& !v.dirty.contains_key(k)
            &&& !opened_view(ino, a, Seq::empty(), flags).block_map.contains_key(k)
            &&& w.block_map.contains_key(l.0) && w.block_map[l.0] == l.1
            &&& k != l.0 ==> (w.block_map.contains_key(k) <==> v.block_map.contains_key(k))
            &&& k != l.0 && v.block_map.contains_key(k) ==> w.block_map[k] == v.block_map[k]
        }),
{
    law_later_places_hold(Map::empty(), locs, l, k);
}

/// Every listed node is reached at its address, and of two with the same name
/// the later one holds.
pub proof fn law_later_addresses_hold(nodes: Seq<ProtoNodeView>, n: ProtoNodeView, id: Seq<char>)
    ensures
        !addr_map(Seq::empty()).contains_key(id),
        ({
            let before = addr_map(nodes);
            let after = addr_map(nodes.push(n));
            &&& after.contains_key(n.node_id) && after[n.node_id] == "http://"@ + n.addr
            &&& id != n.node_id ==> (after.contains_key(id) <==> before.contains_key(id))
            &&& id != n.node_id && before.contains_key(id) ==> after[id] == before[id]
        }),
{
    assert(nodes.push(n).drop_last() =~= nodes);
}

/// The search for a block asks its primary first, and then its replicas in
/// their order.
pub proof fn law_the_primary_is_asked_first(v: OpenView, idx: u64, i: int)
    ensures
        ({
            let f = FetchView::begun(v, idx);
            let p = v.block_map[idx];
            &&& f.ino == v.ino && f.generation == v.generation && f.idx == idx && f.pos == 0
            &&& f.nodes.len() == 1 + p.replicas.len()
            &&& f.nodes[0] == p.primary
            &&& 0 <= i < p.replicas.len() ==> f.nodes[1 + i] == p.replicas[i]
            &&& f.last_err == ErrorView::StoreUnavailable(p.primary)
        }),
{
}

/// A node that answers ends the search with its block, one that does not hold
/// the block with a block of zeros. Every other reply leads to the next node,
/// and is remembered: as a node out of reach, or as the reason for which it
/// could not be asked.
pub proof fn law_replies_are_taken(f: FetchView, reply: ReadReplyView, bs: nat, i: int)
    ensures
        ({
            let (g, got) = f.after(reply, bs);
            &&& g.ino == f.ino && g.generation == f.generation && g.idx == f.idx
            &&& g.nodes == f.nodes
            &&& reply is Answered ==> got == Some(reply->Answered_0)
            &&& reply matches ReadReplyView::Failed(s) ==> (got is Some <==> s.code
                == Code::NotFound)
            &&& reply is Failed && got is Some ==> {
                &&& got->0.len() == bs
                &&& 0 <= i < bs ==> got->0[i] == 0
            }
            &&& reply is NoClient ==> got is None && g.last_err == reply->NoClient_0
            &&& reply is Failed && got is None ==> g.last_err == ErrorView::StoreUnavailable(
                f.nodes[f.pos as int],
            )
            &&& got is None ==> g.pos == f.pos + 1
            &&& got is Some ==> g == f
        }),
{
}

/// The first node that has the last word decides: its block is the answer, or
/// zeros where it does not hold one. Where no node has it, or none is left, the
/// search fails with what was last remembered.
pub proof fn law_the_search_goes_on(f: FetchView, replies: Seq<ReadReplyView>, bs: nat, i: int)
    ensures
        replies.len() == 0 || f.pos >= f.nodes.len() ==> f.outcome(replies, bs) == Err::<
            Seq<u8>,
            _,
        >(f.last_err),
        replies.len() > 0 && f.pos < f.nodes.len() ==> match replies[0] {
            ReadReplyView::Answered(data) => f.outcome(replies, bs) == Ok::<_, ErrorView>(data),
            ReadReplyView::Failed(s) => if s.code == Code::NotFound {
                &&& f.outcome(replies, bs) is Ok
                &&& f.outcome(replies, bs)->Ok_0.len() == bs
                &&& 0 <= i < bs ==> f.outcome(replies, bs)->Ok_0[i] == 0
            } else {
                f.outcome(replies, bs) == (FetchView {
                    pos: f.pos + 1,
                    last_err: ErrorView::StoreUnavailable(f.nodes[f.pos as int]),
                    ..f
                }).outcome(replies.drop_first(), bs)
            },
            ReadReplyView::NoClient(e) => f.outcome(replies, bs) == (FetchView {
                pos: f.pos + 1,
                last_err: e,
                ..f
            }).outcome(replies.drop_first(), bs),
        },
{
}

/// A block is sent to its primary, and waited for. Its replicas are waited for
/// one by one where all are, and else get it at the end, all that are left. A
/// block without a place cannot be sent.
pub proof fn law_blocks_are_sent_in_turn(j: JobView, i: int)
    ensures
        j.nodes is None ==> j.step() == JobStepView::Fail(ErrorView::NotFound),
        j.nodes matches Some(nodes) ==> {
            &&& j.pos < nodes.len() && (j.pos == 0 || j.wait == WaitPolicy::AllReplicas)
                ==> j.step() == JobStepView::Write(nodes[j.pos as int])
            &&& j.pos >= nodes.len() ==> j.step() is Finish && j.step()->Finish_0.len() == 0
            &&& 0 < j.pos < nodes.len() && j.wait == WaitPolicy::PrimariesOnly ==> {
                &&& j.step() is Finish
                &&& j.step()->Finish_0.len() == nodes.len() - j.pos
                &&& j.pos <= i < nodes.len() ==> j.step()->Finish_0[i - j.pos] == nodes[i]
            }
        },
{
}

/// Places are asked for of just the blocks that were written to and have none,
/// in their order.
pub proof fn law_places_are_asked_for(v: OpenView, k: u64, i: int, j: int)
    requires
        v.dirty.dom().finite(),
    ensures
        v.unplaced().contains(k) <==> v.dirty.contains_key(k) && !v.block_map.contains_key(k),
        0 <= i < j < v.unplaced().len() ==> v.unplaced()[i] < v.unplaced()[j],
{
    let all = ascending(v.dirty.dom());
    lemma_ascending_of(v.dirty.dom());
    let free = |x: u64| !v.block_map.contains_key(x);
    assert(v.dirty.contains_key(k) <==> all.to_set().contains(k));
    lemma_kept_in_order(all, free, k, i, j);
}

proof fn lemma_kept_in_order(all: Seq<u64>, free: spec_fn(u64) -> bool, k: u64, i: int, j: int)
    requires
        is_ascending(all),
    ensures
        all.filter(free).contains(k) <==> all.contains(k) && free(k),
        0 <= i < j < all.filter(free).len() ==> all.filter(free)[i] < all.filter(free)[j],
    decreases all.len(),
{
    reveal(Seq::filter);
    if all.len() > 0 {
        let rest = all.drop_last();
        let kept = rest.filter(free);
        assert(is_ascending(rest)) by {
            assert forall|a: int, b: int|
                #![trigger rest[a], rest[b]]
                0 <= a < b < rest.len() implies rest[a] < rest[b] by {
                assert(all[a] < all[b]);
            }
        }
        lemma_kept_in_order(rest, free, k, i, j);
        if all.contains(k) {
            let x = choose|x: int| 0 <= x < all.len() && all[x] == k;
            if x < rest.len() {
                assert(rest[x] == k);
            }
        }
        if rest.contains(k) {
            let x = choose|x: int| 0 <= x < rest.len() && rest[x] == k;
            assert(all[x] == k);
        }
        if free(all.last()) {
            assert(all.filter(free) == kept.push(all.last()));
            if all.filter(free).contains(k) && k != all.last() {
                let x = choose|x: int| 0 <= x < kept.push(all.last()).len() && kept.push(all.last())[x] == k;
                assert(kept[x] == k);
            }
            if kept.contains(k) {
                let x = choose|x: int| 0 <= x < kept.len() && kept[x] == k;
                assert(kept.push(all.last())[x] == k);
            }
            if k == all.last() {
                assert(kept.push(all.last())[kept.len() as int] == k);
                assert(all[all.len() - 1] == k);
            }
            if 0 <= i < j == kept.len() {
                let a = kept[i];
                assert(kept.contains(a));
                lemma_kept_in_order(rest, free, a, 0, 0);
                let x = choose|x: int| 0 <= x < rest.len() && rest[x] == a;
                assert(all[x] < all[all.len() - 1]);
            }
        } else {
            if k == all.last() {
                assert(!free(k));
            }
        }
    }
}

/// Every block that was written to is sent, once, in their order: as it is, to
/// the nodes that hold it, the primary first; without a place it goes nowhere.
pub proof fn law_every_written_block_is_sent(v: OpenView, wait: WaitPolicy, k: u64, i: int, j: int)
    requires
        v.dirty.dom().finite(),
    ensures
        ({
            let jobs = v.jobs(wait);
            let job = jobs[i];
            &&& v.dirty.contains_key(k) ==> exists|x: int|
                0 <= x < jobs.len() && (#[trigger] jobs[x]).idx == k
            &&& 0 <= i < j < jobs.len() ==> jobs[i].idx < jobs[j].idx
            &&& 0 <= i < jobs.len() ==> {
                &&& v.dirty.contains_key(job.idx)
                &&& job.data == v.dirty[job.idx]
                &&& job.ino == v.ino && job.wait == wait && job.pos == 0
                &&& !v.block_map.contains_key(job.idx) ==> job.nodes is None
                &&& v.block_map.contains_key(job.idx) ==> {
                    let p = v.block_map[job.idx];
                    &&& job.nodes is Some
                    &&& job.nodes->0.len() == 1 + p.replicas.len()
                    &&& job.nodes->0[0] == p.primary
                    &&& 0 <= j < p.replicas.len() ==> job.nodes->0[1 + j] == p.replicas[j]
                }
            }
        }),
{
    let all = ascending(v.dirty.dom());
    let jobs = v.jobs(wait);
    lemma_ascending_of(v.dirty.dom());
    if v.dirty.contains_key(k) {
        assert(all.to_set().contains(k));
        let x = choose|x: int| 0 <= x < all.len() && all[x] == k;
        assert(jobs[x].idx == k);
    }
    if 0 <= i < jobs.len() {
        assert(all.to_set().contains(all[i]));
    }
    if 0 <= i < j < jobs.len() {
        assert(all[i] < all[j]);
    }
}

/// A publication starts once, and then hears of the nodes, of the places where
/// it asked for any, of what was sent, and of the close, each when it waits for
/// it.
pub proof fn law_a_publication_waits_for_its_events(p: PublishView, e: PublishEventView)
    ensures
        p.expects(e) <==> {
            ||| e is Start && p.stage == PublishStage::Begin
            ||| e is Nodes && p.stage == PublishStage::AwaitNodes
            ||| e is Places && p.stage == PublishStage::AwaitPlaces
            ||| e is Written && p.stage == PublishStage::AwaitWrites
            ||| e is Closed && p.stage == PublishStage::AwaitClose
        },
{
}

/// A publication is of one file under one handle from start to end. A failure
/// ends it, and is its outcome; nothing is forgotten of the file then.
pub proof fn law_a_failure_ends_a_publication(p: PublishView, e: PublishEventView, now: Timestamp)
    ensures
        ({
            let (q, act) = p.after(e, now);
            &&& q.fh == p.fh && q.wait == p.wait
            &&& q.file.ino == p.file.ino && q.file.size_hint == p.file.size_hint
            &&& q.file.flags == p.file.flags
            &&& !(e is Closed) ==> q.file.generation == p.file.generation
            &&& !(e is Nodes) ==> q.addrs == p.addrs
            &&& !(e is Nodes) && !(e is Places) ==> q.written == p.written && q.file.dirty
                == p.file.dirty && q.file.block_map == p.file.block_map
            &&& e matches PublishEventView::Written(Err(f)) ==> act == PublishActionView::Done(
                Err(f),
            ) && q.stage == PublishStage::Over && q.file == p.file
            &&& e matches PublishEventView::Nodes(Err(s)) ==> act == PublishActionView::Done(
                Err(error_of_status(s, None)),
            ) && q.stage == PublishStage::Over && q.file == p.file && q.addrs == p.addrs
                && q.written == p.written
            &&& e matches PublishEventView::Places(Err(s)) ==> act == PublishActionView::Done(
                Err(error_of_status(s, None)),
            ) && q.stage == PublishStage::Over && q.file == p.file && q.written == p.written
            &&& e matches PublishEventView::Closed(Err(s)) ==> act == PublishActionView::Done(
                Err(error_of_status(s, None)),
            ) && q.stage == PublishStage::Over && q.file == p.file
        }),
{
}

/// A publication with nothing to publish is over at once; any other asks where
/// the nodes are.
pub proof fn law_a_publication_starts(p: PublishView, now: Timestamp, k: u64)
    ensures
        ({
            let (q, act) = p.after(PublishEventView::Start, now);
            &&& q.file == p.file
            &&& p.file.dirty.contains_key(k) ==> q.stage == PublishStage::AwaitNodes && act
                == PublishActionView::ListNodes
            &&& p.file.dirty.len() == 0 && p.file.dirty.dom().finite() ==> q.stage
                == PublishStage::Over && act == PublishActionView::Done(Ok(()))
        }),
{
    let none = Set::<u64>::empty();
    if p.file.dirty.contains_key(k) {
        assert(!none.contains(k));
    }
    if p.file.dirty.len() == 0 && p.file.dirty.dom().finite() {
        assert(p.file.dirty.dom() =~= none);
    }
}

/// A publication that has learned where the nodes are asks for the places of
/// the blocks that have none; where every block has one, they go out.
pub proof fn law_a_publication_asks_for_places(
    p: PublishView,
    nodes: Seq<ProtoNodeView>,
    now: Timestamp,
    k: u64,
    i: int,
)
    requires
        p.file.dirty.dom().finite(),
    ensures
        ({
            let (q, act) = p.after(PublishEventView::Nodes(Ok(nodes)), now);
            &&& q.addrs == addr_map(nodes)
            &&& q.file.block_map == p.file.block_map
            &&& p.file.dirty.contains_key(k) && !p.file.block_map.contains_key(k) ==> {
                &&& q.stage == PublishStage::AwaitPlaces
                &&& q.file == p.file && q.written == p.written
                &&& act is Allocate && act->Allocate_0 == p.file.ino
                &&& act->Allocate_1.contains(k)
            }
            &&& act is Allocate && 0 <= i < act->Allocate_1.len() ==> {
                &&& p.file.dirty.contains_key(act->Allocate_1[i])
                &&& !p.file.block_map.contains_key(act->Allocate_1[i])
            }
            &&& act is Allocate || act is Send
            &&& act is Send ==> {
                &&& act == PublishActionView::Send(p.file.jobs(p.wait))
                &&& q.stage == PublishStage::AwaitWrites
                &&& !q.file.dirty.contains_key(k)
                &&& q.written.contains(k) <==> p.file.dirty.contains_key(k)
                &&& 0 <= i < q.written.len() - 1 ==> q.written[i] < q.written[i + 1]
            }
        }),
{
    let free = p.file.unplaced();
    law_places_are_asked_for(p.file, k, 0, 0);
    if 0 <= i < free.len() {
        assert(free.contains(free[i]));
        law_places_are_asked_for(p.file, free[i], 0, 0);
    }
    let all = ascending(p.file.dirty.dom());
    lemma_ascending_of(p.file.dirty.dom());
    assert(all.to_set().contains(k) <==> all.contains(k));
}

/// A publication that has learned the places sends every written block to its
/// own, and remembers which blocks those are.
pub proof fn law_a_publication_sends(
    p: PublishView,
    locs: Seq<(u64, PlacementView)>,
    now: Timestamp,
    k: u64,
    i: int,
)
    requires
        p.file.dirty.dom().finite(),
    ensures
        ({
            let (q, act) = p.after(PublishEventView::Places(Ok(locs)), now);
            let placed = OpenView {
                block_map: with_locations(p.file.block_map, locs),
                ..p.file
            };
            &&& q.file.block_map == placed.block_map
            &&& q.stage == PublishStage::AwaitWrites
            &&& act == PublishActionView::Send(placed.jobs(p.wait))
            &&& !q.file.dirty.contains_key(k)
            &&& q.written.contains(k) <==> p.file.dirty.contains_key(k)
            &&& 0 <= i < q.written.len() - 1 ==> q.written[i] < q.written[i + 1]
        }),
{
    let all = ascending(p.file.dirty.dom());
    lemma_ascending_of(p.file.dirty.dom());
    assert(all.to_set().contains(k) <==> all.contains(k));
}

/// Once all blocks were sent the file is closed: with its handle, its size, the
/// generation that it had, the blocks that were written, and the present, or the
/// epoch where that comes later. The answer to the close brings the next
/// generation, and success.
pub proof fn law_a_publication_closes(p: PublishView, attr: Option<Attr>, now: Timestamp)
    ensures
        ({
            let (q, act) = p.after(PublishEventView::Written(Ok(())), now);
            &&& q.stage == PublishStage::AwaitClose && q.file == p.file
            &&& act is Close
            &&& act->Close_0.fh == p.fh && act->Close_0.ino == p.file.ino
            &&& act->Close_0.expected_generation == p.file.generation
            &&& act->Close_0.new_size == p.file.size_hint
            &&& act->Close_0.written == p.written
            &&& now.secs >= 0 ==> act->Close_0.mtime_s == now.secs && act->Close_0.mtime_ns
                == now.nanos
            &&& now.secs < 0 ==> act->Close_0.mtime_s == 0 && act->Close_0.mtime_ns == 0
        }),
        ({
            let (q, act) = p.after(PublishEventView::Closed(Ok(attr)), now);
            &&& q.stage == PublishStage::Over
            &&& act == PublishActionView::Done(Ok(()))
            &&& attr matches Some(a) ==> q.file.generation == a.generation
            &&& attr is None ==> q.file.generation == p.file.generation
            &&& q.file.dirty == p.file.dirty && q.file.block_map == p.file.block_map
        }),
{
}

/// A read gives of the block `k` the bytes that the block holds: the byte at
/// `j`, or zero where there is no such block or it ends before.
pub proof fn law_reads_give_the_blocks(
    blocks: Map<u64, Seq<u8>>,
    bs: nat,
    offset: int,
    n: nat,
    k: u64,
    j: int,
)
    requires
        0 <= j < bs,
        offset <= k * bs + j < offset + n,
    ensures
        read_bytes(blocks, bs, offset, n).len() == n,
        blocks.contains_key(k) && j < blocks[k].len() ==> read_bytes(blocks, bs, offset, n)[k * bs
            + j - offset] == blocks[k][j],
        !(blocks.contains_key(k) && j < blocks[k].len()) ==> read_bytes(
            blocks,
            bs,
            offset,
            n,
        )[k * bs + j - offset] == 0,
{
    let p = k * bs + j;
    vstd::arithmetic::div_mod::lemma_fundamental_div_mod_converse(
        p as int,
        bs as int,
        k as int,
        j,
    );
    assert(offset + (p - offset) == p);
}

/// A read of what has room below the end of the numbers can be served, with
/// blocks of any size: the last block that it touches ends there too.
pub proof fn law_reads_fit(offset: u64, size: u32, bs: nat, k: int)
    requires
        size > 0 && bs > 0 ==> k * bs < offset + size <= k * bs + bs,
    ensures
        size == 0 ==> (read_fits(offset, size, bs) <==> offset <= u64::MAX),
        size > 0 && bs > 0 ==> (read_fits(offset, size, bs) <==> k * bs + bs <= u64::MAX),
        size > 0 && bs == 0 ==> !read_fits(offset, size, bs),
{
    if size > 0 && bs > 0 {
        let p = offset + size - 1;
        vstd::arithmetic::div_mod::lemma_fundamental_div_mod_converse(
            p,
            bs as int,
            k,
            p - k * bs,
        );
        vstd::arithmetic::mul::lemma_mul_is_commutative(k, bs as int);
    }
}

/// A write of what has room below the end of the numbers can be done, with
/// blocks of any size that memory can hold.
pub proof fn law_writes_fit(offset: u64, len: nat, bs: nat, k: int)
    requires
        len > 0 && bs > 0 ==> k * bs < offset + len <= k * bs + bs,
    ensures
        len == 0 ==> write_fits(offset, len, bs),
        len > 0 ==> (write_fits(offset, len, bs) <==> len <= u32::MAX && 0 < bs <= isize::MAX && k
            * bs + bs <= u64::MAX),
{
    if len > 0 && bs > 0 {
        let p = offset + len - 1;
        vstd::arithmetic::div_mod::lemma_fundamental_div_mod_converse(
            p,
            bs as int,
            k,
            p - k * bs,
        );
        vstd::arithmetic::mul::lemma_mul_is_commutative(k, bs as int);
    }
}

/// A read takes from the block at its position all up to the end of the block,
/// or of the read, whichever comes first.
pub proof fn law_a_read_takes_what_the_block_has(
    offset: int,
    size: int,
    done: int,
    bs: int,
    k: int,
)
    requires
        0 < bs,
        0 <= done < size,
        k * bs <= offset + done < k * bs + bs,
    ensures
        ({
            let n = want_at(offset, size, done, bs);
            &&& n > 0
            &&& done + n <= size
            &&& offset + done + n <= k * bs + bs
            &&& done + n == size || offset + done + n == k * bs + bs
        }),
{
    vstd::arithmetic::div_mod::lemma_fundamental_div_mod_converse(
        offset + done,
        bs,
        k,
        offset + done - k * bs,
    );
}

/// What a read takes from a block are the bytes of the block from there on, and
/// zeros behind its end.
pub proof fn law_pieces_are_of_the_block(block: Seq<u8>, from: int, want: nat, i: int)
    requires
        0 <= from,
        0 <= i < want,
    ensures
        block_piece(block, from, want).len() == want,
        from + i < block.len() ==> block_piece(block, from, want)[i] == block[from + i],
        from + i >= block.len() ==> block_piece(block, from, want)[i] == 0,
{
}

/// A write changes just the blocks that hold some of its bytes, and of those
/// just these bytes. A block that was not there starts out as zeros.
pub proof fn law_a_write_changes_its_bytes(
    dirty: Map<u64, Seq<u8>>,
    bs: nat,
    at: int,
    data: Seq<u8>,
    k: u64,
    j: int,
)
    ensures
        ({
            let after = written(dirty, bs, at, data);
            let known = dirty.contains_key(k);
            let size = if known {
                dirty[k].len()
            } else {
                bs
            };
            let p = k * bs + j;
            &&& after.contains_key(k) <==> known || (data.len() > 0 && k * bs < at + data.len()
                && at < k * bs + bs)
            &&& after.contains_key(k) ==> after[k].len() == size
            &&& after.contains_key(k) && 0 <= j < bs && j < size && at <= p < at + data.len()
                ==> after[k][j] == data[p - at]
            &&& known && 0 <= j < size && !(j < bs && at <= p < at + data.len()) ==> after[k][j]
                == dirty[k][j]
            &&& after.contains_key(k) && !known && 0 <= j < bs && !(at <= p < at + data.len())
                ==> after[k][j] == 0
        }),
{
}

/// A write fills a block where every byte of the block is one that it writes,
/// and touches it where one is.
pub proof fn law_filled_and_touched(k: int, bs: int, at: int, len: int, j: int)
    requires
        0 < bs,
        0 <= len,
    ensures
        fills(k, bs, at, len) && 0 <= j < bs ==> at <= k * bs + j < at + len,
        at <= k * bs && k * bs + bs - 1 < at + len ==> fills(k, bs, at, len),
        0 <= j < bs && at <= k * bs + j < at + len ==> touches(k, bs, at, len),
        touches(k, bs, at, len) ==> exists|x: int|
            0 <= x < bs && at <= #[trigger] (k * bs + x) < at + len,
{
    if touches(k, bs, at, len) {
        let x = if at <= k * bs {
            0
        } else {
            at - k * bs
        };
        assert(0 <= x < bs && at <= k * bs + x < at + len);
    }
}

/// A write goes on until it is done, or comes to a block that was published,
/// that was not written to before, and that it does not fill: it then asks for
/// that block. A write that is done has taken the file to its end, where that
/// lies behind the end of the file; one that is not leaves the size alone.
pub proof fn law_a_write_goes_as_far_as_it_can(
    before: OpenView,
    start: int,
    after: OpenView,
    done: int,
    step: WriteStep,
    offset: u64,
    data: Seq<u8>,
    bs: nat,
    k: u64,
    j: int,
)
    requires
        0 < bs || data.len() == 0,
        0 <= start,
        write_ran(before, start, after, done, step, offset as int, data, bs),
        offset + data.len() <= u64::MAX,
    ensures
        start <= done <= data.len(),
        step matches WriteStep::Done(n) ==> n == data.len() && done == data.len() && (
        after.size_hint == if before.size_hint >= offset + data.len() {
            before.size_hint as int
        } else {
            offset + data.len()
        }),
        step matches WriteStep::NeedBlock(idx) ==> {
            &&& done < data.len()
            &&& idx * bs <= offset + done < idx * bs + bs
            &&& before.block_map.contains_key(idx)
            &&& !after.dirty.contains_key(idx)
            &&& offset + done > idx * bs || offset + data.len() < idx * bs + bs
            &&& after.size_hint == before.size_hint
        },
        after.ino == before.ino && after.generation == before.generation,
        after.block_map == before.block_map && after.flags == before.flags,
        after.dirty.contains_key(k) <==> before.dirty.contains_key(k) || (start < done && k * bs
            < offset + done && offset + start < k * bs + bs),
        after.dirty.contains_key(k) && !before.dirty.contains_key(k)
            && before.block_map.contains_key(k) ==> offset + start <= k * bs && k * bs + bs
            <= offset + data.len(),
        after.dirty.contains_key(k) && 0 <= j < bs && j < after.dirty[k].len() ==> {
            let p = k * bs + j;
            &&& offset + start <= p < offset + done ==> after.dirty[k][j] == data[p - offset]
            &&& !(offset + start <= p < offset + done) && before.dirty.contains_key(k)
                ==> after.dirty[k][j] == before.dirty[k][j]
            &&& !(offset + start <= p < offset + done) && !before.dirty.contains_key(k)
                ==> after.dirty[k][j] == 0
        },
        before.dirty.contains_key(k) ==> after.dirty[k].len() == before.dirty[k].len(),
        after.dirty.contains_key(k) && !before.dirty.contains_key(k) ==> after.dirty[k].len()
            == bs,
{
    let part = data.subrange(start, done);
    law_a_write_changes_its_bytes(before.dirty, bs, offset + start, part, k, j);
    if 0 <= j < bs && offset + start <= k * bs + j < offset + done {
        assert(part[k * bs + j - (offset + start)] == data[k * bs + j - offset]);
    }
    if let WriteStep::NeedBlock(idx) = step {
        lemma_block_of(offset + done, bs as int);
    }
}

/// The contents of a block that are to be written to are those that were
/// published, with zeros behind them up to the size of a block.
pub proof fn law_supplied_blocks_are_whole(v: OpenView, idx: u64, block: Seq<u8>, bs: nat, i: int)
    ensures
        ({
            let b = padded(block, bs);
            let w = supplied(v, idx, block, bs);
            &&& b.len() == if block.len() < bs {
                bs
            } else {
                block.len()
            }
            &&& 0 <= i < block.len() ==> b[i] == block[i]
            &&& block.len() <= i < bs ==> b[i] == 0
            &&& w.dirty == v.dirty.insert(idx, b)
            &&& w.block_map == v.block_map && w.size_hint == v.size_hint
            &&& w.ino == v.ino && w.generation == v.generation && w.flags == v.flags
        }),
{
}

/// Of the cached blocks just those of the inode go that are older than its
/// generation.
pub proof fn law_older_blocks_are_discarded(
    m: Map<(u64, u64, u64), Seq<u8>>,
    ino: u64,
    generation: u64,
    a: u64,
    b: u64,
    c: u64,
)
    ensures
        ({
            let after = pruned(m, ino, generation);
            &&& after.contains_key((a, b, c)) <==> m.contains_key((a, b, c)) && (a != ino || b
                >= generation)
            &&& after.contains_key((a, b, c)) ==> after[(a, b, c)] == m[(a, b, c)]
        }),
{
}

/// What is said of an open file is what is held of it.
pub proof fn law_an_open_file_is_as_it_is_held(f: OpenFile, k: u64, j: int)
    ensures
        f@.ino == f.ino.0 && f@.generation == f.generation.0,
        f@.size_hint == f.size_hint && f@.flags == f.flags,
        f@.dirty.contains_key(k) <==> f.dirty@.contains_key(k),
        f.dirty@.contains_key(k) ==> f@.dirty[k] == buffer_view(f.dirty@[k]),
        f@.block_map.contains_key(k) <==> f.block_map@.contains_key(k),
        f.block_map@.contains_key(k) ==> {
            let p = f.block_map@[k];
            &&& f@.block_map[k].primary == p.primary@
            &&& f@.block_map[k].replicas.len() == p.replicas@.len()
            &&& 0 <= j < p.replicas@.len() ==> f@.block_map[k].replicas[j] == p.replicas@[j]@
        },
{
}

/// What is said of a search is what is held of it.
pub proof fn law_a_search_is_as_it_is_held(f: Fetch, r: ReadReply, i: int)
    ensures
        f@.ino == f.ino && f@.generation == f.generation && f@.idx == f.idx,
        f@.nodes.len() == f.nodes@.len() && f@.pos == f.pos && f@.last_err == f.last_err@,
        0 <= i < f.nodes@.len() ==> f@.nodes[i] == f.nodes@[i]@,
        r@ is NoClient <==> r is NoClient,
        r is NoClient ==> r@->NoClient_0 == r->NoClient_0@,
        r@ is Failed <==> r is Failed,
        r is Failed ==> r@->Failed_0 == r->Failed_0@,
        r@ is Answered <==> r is Answered,
        r is Answered ==> r@->Answered_0 == bytes_view(r->Answered_0.data),
{
}

/// What is said of a job is what is held of it, and what is said of its next
/// step is what the step holds.
pub proof fn law_a_job_is_as_it_is_held(b: BlockJob, t: JobStep, all: Seq<BlockJob>, i: int)
    ensures
        b@.ino == b.ino && b@.idx == b.idx && b@.wait == b.wait && b@.pos == b.pos,
        b@.data == bytes_view(b.data),
        b@.nodes is Some <==> b.nodes is Some,
        b.nodes matches Some(v) ==> b@.nodes->0.len() == v@.len() && (0 <= i < v@.len()
            ==> b@.nodes->0[i] == v@[i]@),
        t@ is Fail <==> t is Fail,
        t is Fail ==> t@->Fail_0 == t->Fail_0@,
        t@ is Write <==> t is Write,
        t is Write ==> t@->Write_0 == t->Write_0@,
        t@ is Finish <==> t is Finish,
        t is Finish ==> t@->Finish_0.len() == t->Finish_0@.len() && (0 <= i
            < t->Finish_0@.len() ==> t@->Finish_0[i] == t->Finish_0@[i]@),
        jobs_view(all).len() == all.len(),
        0 <= i < all.len() ==> jobs_view(all)[i] == all[i]@,
{
}

/// What is said of what a publication asks for is what it asks for.
pub proof fn law_what_is_asked_for_is_as_it_is_held(a: PublishAction)
    ensures
        a@ is ListNodes <==> a is ListNodes,
        a@ is Allocate <==> a is Allocate,
        a is Allocate ==> a@->Allocate_0 == a->Allocate_0.ino && a@->Allocate_1
            == a->Allocate_0.block_idxs@,
        a@ is Send <==> a is Send,
        a is Send ==> a@->Send_0 == jobs_view(a->Send_0@),
        a@ is Close <==> a is Close,
        a is Close ==> {
            let c = a@->Close_0;
            let r = a->Close_0;
            &&& c.fh == r.fh && c.ino == r.ino && c.expected_generation == r.expected_generation
            &&& c.new_size == r.new_size && c.mtime_s == r.mtime_s && c.mtime_ns == r.mtime_ns
            &&& c.written == r.written_block_idxs@
        },
        a@ is Done <==> a is Done,
        a is Done ==> (a@->Done_0 is Ok <==> a->Done_0 is Ok),
        a matches PublishAction::Done(Err(e)) ==> a@->Done_0 == Err::<(), _>(e@),
{
}

/// What is said of what a publication hears is what it hears.
pub proof fn law_what_is_heard_is_as_it_is_held(e: PublishEvent)
    ensures
        e@ is Start <==> e is Start,
        e@ is Nodes <==> e is Nodes,
        e matches PublishEvent::Nodes(Ok(l)) ==> e@ == PublishEventView::Nodes(
            Ok(node_list_view(l.nodes@)),
        ),
        e matches PublishEvent::Nodes(Err(s)) ==> e@ == PublishEventView::Nodes(Err(s@)),
        e@ is Places <==> e is Places,
        e matches PublishEvent::Places(Ok(a)) ==> e@ == PublishEventView::Places(
            Ok(block_map_view(a.block_map@)),
        ),
        e matches PublishEvent::Places(Err(s)) ==> e@ == PublishEventView::Places(Err(s@)),
        e@ is Written <==> e is Written,
        e matches PublishEvent::Written(Ok(_)) ==> e@->Written_0 is Ok,
        e matches PublishEvent::Written(Err(f)) ==> e@ == PublishEventView::Written(Err(f@)),
        e@ is Closed <==> e is Closed,
        e matches PublishEvent::Closed(Ok(c)) ==> e@ == PublishEventView::Closed(Ok(c.attr)),
        e matches PublishEvent::Closed(Err(s)) ==> e@ == PublishEventView::Closed(Err(s@)),
{
}

/// A publication works on its own file and the addresses of its own mount.
pub proof fn law_a_publication_works_on_its_file(p: Publish, of: OpenFile, fs: DtmpfsFs)
    ensures
        p.with(of, fs).file == of@,
        p.with(of, fs).addrs == fs.stores@,
        p.with(of, fs).fh == p.fh && p.with(of, fs).wait == p.wait,
        p.with(of, fs).stage == p.stage && p.with(of, fs).written == p.written@,
{
}

/// The lines that the kernel is told say what they hold.
pub proof fn law_lines_say_what_they_hold(v: Seq<DirLine>, i: int)
    ensures
        lines_view(v).len() == v.len(),
        0 <= i < v.len() ==> {
            let l = lines_view(v)[i];
            &&& l.ino == v[i].ino && l.offset == v[i].offset
            &&& l.kind == v[i].kind && l.name == v[i].name@
        },
{
}

/// An operation that changes what is known of attributes alone leaves the open
/// files, the cached blocks, the addresses and the setup of the mount alone; one
/// that opens a file leaves every other open file alone.
pub proof fn law_operations_leave_the_rest_alone(
    before: DtmpfsFs,
    after: DtmpfsFs,
    fh: u64,
    v: OpenView,
    k: u64,
)
    ensures
        after.same_but_attrs(&before) ==> {
            &&& after.open_files == before.open_files && after.block_cache == before.block_cache
            &&& after.stores == before.stores && after.block_size == before.block_size
            &&& after.replication_factor == before.replication_factor
            &&& after.token == before.token
        },
        after.same_setup(&before) ==> {
            &&& after.block_size == before.block_size && after.token == before.token
            &&& after.replication_factor == before.replication_factor
        },
        opened(&before, &after, fh, v) ==> {
            let was = kept_files(before.open_files);
            let is = kept_files(after.open_files);
            &&& is.contains_key(fh) && is[fh]@ == v
            &&& k != fh ==> (is.contains_key(k) <==> was.contains_key(k))
            &&& k != fh && was.contains_key(k) ==> is[k] == was[k]
        },
{
}

/// A cursor that is told to show the file holds the bytes of its blocks.
pub proof fn law_a_cursor_shows_the_file(
    c: ReadCursor,
    blocks: Map<u64, Seq<u8>>,
    bs: nat,
    k: u64,
    j: int,
)
    requires
        0 <= j < bs,
        c.offset <= k * bs + j < c.offset + c.buf@.len(),
        c.shows(blocks, bs),
    ensures
        blocks.contains_key(k) && j < blocks[k].len() ==> c.buf@[k * bs + j - c.offset]
            == blocks[k][j],
        !(blocks.contains_key(k) && j < blocks[k].len()) ==> c.buf@[k * bs + j - c.offset] == 0,
{
    law_reads_give_the_blocks(blocks, bs, c.offset as int, c.buf@.len(), k, j);
}

/// A block may hold something of a file where it was written to or has a place,
/// and nowhere else; an open file is in order where no written block is short,
/// and a cursor where it has not read more than it was asked for.
pub proof fn law_mapped_blocks(v: OpenView, c: ReadCursor, bs: nat, k: u64)
    ensures
        c.fits(bs) <==> read_fits(c.offset, c.size, bs) && c.buf@.len() <= c.size,
        v.mapped(k) <==> v.dirty.contains_key(k) || v.block_map.contains_key(k),
        v.wf(bs) && v.dirty.contains_key(k) ==> v.dirty[k].len() >= bs,
{
}

} // verus!
