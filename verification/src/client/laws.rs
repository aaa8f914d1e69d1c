//! What holds of reading, writing and publishing as a whole.

use vstd::prelude::*;

use crate::client::attr::{kernel_attr, number_type, times_tellable, FileType};
use crate::client::fetch::{FetchView, ReadReplyView};
use crate::client::flush::{
    CloseView, JobView, PublishActionView, PublishEventView, PublishStage, PublishView, WaitPolicy,
};
use crate::client::fs::{opened_view, DIR_PAGE};
use crate::client::open_file::{with_locations, OpenView};
use crate::client::pool::addr_map;
use crate::client::read::read_bytes;
use crate::client::write::{
    fills, lemma_block_of, lemma_block_order, padded, supplied, touches, write_fits, write_ran,
    written, WriteStep,
};
use crate::error::{is_errno, Code, ErrorView, StatusView};
use crate::id::{holders, InodeKind, PlacementView};
use crate::meta::directory::{is_sorted, Listing};
use crate::meta::laws::{
    law_mode_tells_kind, law_pages_cover_directory, read_pages, requests_made,
};
use crate::meta::model::{
    attr_of, block_list, kind_number, new_dir, new_file, CloseArgs, InodeView, MetaView,
};
use crate::meta::service::page_limit;
use crate::ordered::{ascending, lemma_ascending_of};
use crate::proto::{ProtoBlockKey, ProtoNodeView};
use crate::store::model::StoreView;
use crate::time::Timestamp;

verus! {

/// The contents of an open file: what was written to it over what has been
/// published.
pub open spec fn contents(dirty: Map<u64, Seq<u8>>, published: Map<u64, Seq<u8>>) -> Map<
    u64,
    Seq<u8>,
> {
    Map::new(
        |k: u64| dirty.contains_key(k) || published.contains_key(k),
        |k: u64|
            if dirty.contains_key(k) {
                dirty[k]
            } else {
                published[k]
            },
    )
}

/// The byte at the position `p` of a file.
pub open spec fn byte_at(blocks: Map<u64, Seq<u8>>, bs: nat, p: int) -> u8 {
    read_bytes(blocks, bs, p, 1)[0]
}

/// A write puts its bytes into the file, and leaves every other byte as it was.
/// Blocks that the write made anew were either not published, or are filled by
/// it.
pub proof fn law_write_overlays(
    dirty: Map<u64, Seq<u8>>,
    published: Map<u64, Seq<u8>>,
    bs: nat,
    at: int,
    data: Seq<u8>,
    p: int,
)
    requires
        0 < bs,
        0 <= at,
        0 <= p <= u64::MAX,
        forall|k: u64|
            #![trigger dirty[k]]
            dirty.contains_key(k) ==> dirty[k].len() >= bs,
        forall|k: u64|
            #![trigger published.contains_key(k)]
            published.contains_key(k) && !dirty.contains_key(k) && touches(
                k as int,
                bs as int,
                at,
                data.len() as int,
            ) ==> fills(k as int, bs as int, at, data.len() as int),
    ensures
        byte_at(contents(written(dirty, bs, at, data), published), bs, p) == if at <= p < at
            + data.len() {
            data[p - at]
        } else {
            byte_at(contents(dirty, published), bs, p)
        },
{
    let b = bs as int;
    let k = (p / b) as u64;
    let j = p % b;
    lemma_block_of(p, b);
    vstd::arithmetic::div_mod::lemma_fundamental_div_mod(p, b);
    vstd::arithmetic::mul::lemma_mul_is_commutative(b, p / b);
    assert(k == p / b);
    assert(k * b + j == p);
    let before = contents(dirty, published);
    let now = written(dirty, bs, at, data);
    let after = contents(now, published);
    assert(read_bytes(after, bs, p, 1)[0] == if after.contains_key(k) && j < after[k].len() {
        after[k][j]
    } else {
        0u8
    });
    assert(read_bytes(before, bs, p, 1)[0] == if before.contains_key(k) && j < before[k].len() {
        before[k][j]
    } else {
        0u8
    });
    if at <= p < at + data.len() {
        assert(touches(k as int, b, at, data.len() as int));
        assert(now.contains_key(k));
    } else if now.contains_key(k) {
        if !dirty.contains_key(k) && published.contains_key(k) {
            assert(fills(k as int, b, at, data.len() as int));
        }
    }
}

/// What was written is what is read: reading where a write went gives its
/// bytes.
pub proof fn law_read_own_write(
    dirty: Map<u64, Seq<u8>>,
    published: Map<u64, Seq<u8>>,
    bs: nat,
    at: int,
    data: Seq<u8>,
)
    requires
        0 < bs,
        0 <= at,
        at + data.len() <= u64::MAX,
        forall|k: u64|
            #![trigger dirty[k]]
            dirty.contains_key(k) ==> dirty[k].len() >= bs,
        forall|k: u64|
            #![trigger published.contains_key(k)]
            published.contains_key(k) && !dirty.contains_key(k) && touches(
                k as int,
                bs as int,
                at,
                data.len() as int,
            ) ==> fills(k as int, bs as int, at, data.len() as int),
    ensures
        read_bytes(contents(written(dirty, bs, at, data), published), bs, at, data.len()) == data,
{
    let after = contents(written(dirty, bs, at, data), published);
    let got = read_bytes(after, bs, at, data.len());
    assert forall|i: int| 0 <= i < data.len() implies got[i] == data[i] by {
        law_write_overlays(dirty, published, bs, at, data, at + i);
        assert(byte_at(after, bs, at + i) == data[i]);
    }
    assert(got =~= data);
}

/// Taking the published contents of a block, to be written to, changes nothing
/// of what is read.
pub proof fn law_supplied_block_reads_alike(
    dirty: Map<u64, Seq<u8>>,
    published: Map<u64, Seq<u8>>,
    bs: nat,
    idx: u64,
    p: int,
)
    requires
        0 < bs,
        !dirty.contains_key(idx),
        published.contains_key(idx),
    ensures
        byte_at(contents(dirty.insert(idx, padded(published[idx], bs)), published), bs, p)
            == byte_at(contents(dirty, published), bs, p),
{
}

/// A write that goes on where another ended is one write of both.
pub proof fn law_writes_compose(
    dirty: Map<u64, Seq<u8>>,
    bs: nat,
    at: int,
    first: Seq<u8>,
    second: Seq<u8>,
)
    requires
        0 < bs,
        0 <= at,
        forall|k: u64|
            #![trigger dirty[k]]
            dirty.contains_key(k) ==> dirty[k].len() >= bs,
    ensures
        written(written(dirty, bs, at, first), bs, at + first.len(), second) == written(
            dirty,
            bs,
            at,
            first + second,
        ),
{
    let b = bs as int;
    let n = first.len() as int;
    let m = second.len() as int;
    let one = written(dirty, bs, at, first);
    let two = written(one, bs, at + first.len(), second);
    let all = written(dirty, bs, at, first + second);
    assert forall|k: u64| #[trigger] two.contains_key(k) <==> all.contains_key(k) by {
        let k0 = k * b;
        assert(touches(k as int, b, at, n + m) <==> touches(k as int, b, at, n) || touches(
            k as int,
            b,
            at + n,
            m,
        ));
    }
    assert forall|k: u64| two.contains_key(k) implies #[trigger] two[k] == all[k] by {
        assert(two[k] =~= all[k]);
    }
    assert(two =~= all);
}

/// One turn of a write: from where it went on, and how far it came.
pub struct WriteTurn {
    pub from: OpenView,
    pub start: int,
    pub to: OpenView,
    pub done: int,
    pub step: WriteStep,
}

impl WriteTurn {
    /// Whether a write of `data` at `offset` took this turn.
    pub open spec fn ran(self, offset: u64, data: Seq<u8>, bs: nat) -> bool {
        write_ran(
            self.from,
            self.start,
            self.to,
            self.done,
            self.step,
            offset as int,
            data,
            bs,
        )
    }

    /// Whether the write goes on from here with the turn `next`: it gets the
    /// block that this turn asks for.
    pub open spec fn leads_to(
        self,
        next: WriteTurn,
        published: Map<u64, Seq<u8>>,
        bs: nat,
    ) -> bool {
        let idx = self.step->NeedBlock_0;
        &&& self.step is NeedBlock
        &&& next.start == self.done
        &&& next.from == supplied(self.to, idx, published[idx], bs)
    }
}

/// Whether `turns` are the course of a write of `data` at `offset` to the file
/// `v`: it begins at the start, and goes on after each turn with the block that
/// the turn asked for, as it was published.
pub open spec fn write_course(
    turns: Seq<WriteTurn>,
    v: OpenView,
    published: Map<u64, Seq<u8>>,
    offset: u64,
    data: Seq<u8>,
    bs: nat,
) -> bool {
    &&& turns.len() > 0 ==> turns[0].from == v && turns[0].start == 0
    &&& forall|i: int| 0 <= i < turns.len() ==> (#[trigger] turns[i]).ran(offset, data, bs)
    &&& forall|i: int, j: int|
        0 <= i < turns.len() && j == i + 1 && j < turns.len() ==> #[trigger] turns[i].leads_to(
            #[trigger] turns[j],
            published,
            bs,
        )
}

/// One turn puts its part of the bytes into the file, and leaves every other
/// byte as it was.
proof fn lemma_turn_overlays(
    t: WriteTurn,
    published: Map<u64, Seq<u8>>,
    offset: u64,
    data: Seq<u8>,
    bs: nat,
    p: int,
)
    requires
        0 < bs,
        0 <= t.start,
        0 <= p <= u64::MAX,
        t.from.wf(bs),
        t.ran(offset, data, bs),
        forall|k: u64| #[trigger]
            published.contains_key(k) ==> t.from.block_map.contains_key(k),
    ensures
        byte_at(contents(t.to.dirty, published), bs, p) == if offset + t.start <= p < offset
            + t.done {
            data[p - offset]
        } else {
            byte_at(contents(t.from.dirty, published), bs, p)
        },
{
    let b = bs as int;
    let at = offset + t.start;
    let part = data.subrange(t.start, t.done);
    assert forall|k: u64|
        #![trigger published.contains_key(k)]
        published.contains_key(k) && !t.from.dirty.contains_key(k) && touches(
            k as int,
            b,
            at,
            part.len() as int,
        ) implies fills(k as int, b, at, part.len() as int) by {
        assert(t.to.dirty.contains_key(k));
        assert(fills(k as int, b, at, data.len() - t.start));
        if let WriteStep::NeedBlock(idx) = t.step {
            lemma_block_of(offset + t.done, b);
            assert(idx != k);
            if idx < k {
                lemma_block_order(idx as int, k as int, b);
            } else {
                lemma_block_order(k as int, idx as int, b);
            }
        }
    }
    law_write_overlays(t.from.dirty, published, bs, at, part, p);
}

/// A write leaves in the file what it was given, however often it stopped for
/// the published contents of a block: after every turn the bytes up to where it
/// came are those of the data, and every other byte is what it was. A write that
/// is done has written all of the data, and the file reaches at least to its
/// end. `published` holds the contents of the blocks that have a place.
pub proof fn law_write_is_whole(
    turns: Seq<WriteTurn>,
    v: OpenView,
    published: Map<u64, Seq<u8>>,
    offset: u64,
    data: Seq<u8>,
    bs: nat,
    i: int,
    p: int,
)
    requires
        0 < bs,
        write_fits(offset, data.len(), bs),
        v.wf(bs),
        write_course(turns, v, published, offset, data, bs),
        forall|k: u64| #[trigger]
            published.contains_key(k) <==> v.block_map.contains_key(k),
        0 <= i < turns.len(),
        0 <= p <= u64::MAX,
    ensures
        byte_at(contents(turns[i].to.dirty, published), bs, p) == if offset <= p < offset
            + turns[i].done {
            data[p - offset]
        } else {
            byte_at(contents(v.dirty, published), bs, p)
        },
        0 <= turns[i].start <= turns[i].done <= data.len(),
        turns[i].to.wf(bs),
        turns[i].to == (OpenView {
            dirty: turns[i].to.dirty,
            size_hint: if turns[i].step is Done && offset + data.len() > v.size_hint {
                (offset + data.len()) as u64
            } else {
                v.size_hint
            },
            ..v
        }),
        turns[i].step matches WriteStep::Done(n) ==> n == data.len() && turns[i].done
            == data.len(),
    decreases i,
{
    let t = turns[i];
    if i > 0 {
        law_write_is_whole(turns, v, published, offset, data, bs, i - 1, p);
        let u = turns[i - 1];
        assert(u.ran(offset, data, bs));
        assert(u.leads_to(t, published, bs));
        let idx = u.step->NeedBlock_0;
        assert(v.block_map.contains_key(idx));
        assert(published.contains_key(idx));
        law_supplied_block_reads_alike(u.to.dirty, published, bs, idx, p);
        assert(t.from.wf(bs));
    }
    assert(t.ran(offset, data, bs));
    lemma_turn_overlays(t, published, offset, data, bs, p);
}

/// Whether a reply sends a reader on to the next node.
pub open spec fn sends_on(r: ReadReplyView) -> bool {
    match r {
        ReadReplyView::NoClient(_) => true,
        ReadReplyView::Failed(s) => s.code != Code::NotFound,
        ReadReplyView::Answered(_) => false,
    }
}

/// A read survives the loss of nodes: the first node that answers gives the
/// block, whatever the nodes before it said.
pub proof fn law_read_fails_over(f: FetchView, replies: Seq<ReadReplyView>, bs: nat, i: int)
    requires
        0 <= i < replies.len(),
        f.pos + i < f.nodes.len(),
        forall|j: int| 0 <= j < i ==> #[trigger] sends_on(replies[j]),
        replies[i] is Answered,
    ensures
        f.outcome(replies, bs) == Ok::<_, ErrorView>(replies[i]->Answered_0),
    decreases i,
{
    if i > 0 {
        assert(sends_on(replies[0]));
        let next = f.after(replies[0], bs).0;
        let rest = replies.drop_first();
        assert forall|j: int| 0 <= j < i - 1 implies #[trigger] sends_on(rest[j]) by {
            assert(sends_on(replies[j + 1]));
        }
        assert(rest[i - 1] == replies[i]);
        law_read_fails_over(next, rest, bs, i - 1);
    }
}

/// Whether an error says that a node cannot be reached.
pub open spec fn unreachable(e: ErrorView) -> bool {
    e is StoreUnavailable
}

/// With every node out of reach a read fails, and the kernel is told of an
/// input/output error.
pub proof fn law_read_without_nodes_fails(f: FetchView, replies: Seq<ReadReplyView>, bs: nat)
    requires
        unreachable(f.last_err),
        forall|j: int| 0 <= j < replies.len() ==> #[trigger] sends_on(replies[j]),
        forall|j: int|
            0 <= j < replies.len() ==> ((#[trigger] replies[j]) matches ReadReplyView::NoClient(e)
                ==> unreachable(e)),
    ensures
        f.outcome(replies, bs) matches Err(e) && unreachable(e) && forall|n: int|
            is_errno(e, n) ==> n == 5,
    decreases replies.len(),
{
    if replies.len() > 0 && f.pos < f.nodes.len() {
        assert(sends_on(replies[0]));
        let next = f.after(replies[0], bs).0;
        let rest = replies.drop_first();
        assert forall|j: int| 0 <= j < rest.len() implies #[trigger] sends_on(rest[j]) by {
            assert(sends_on(replies[j + 1]));
        }
        assert forall|j: int| 0 <= j < rest.len() implies ((#[trigger] rest[j]) matches
            ReadReplyView::NoClient(e) ==> unreachable(e)) by {
            assert(rest[j] == replies[j + 1]);
        }
        law_read_without_nodes_fails(next, rest, bs);
    }
}

/// The storage nodes of a cluster, by name.
pub type Stores = Map<Seq<char>, StoreView>;

/// The key under which the block of a job is stored.
pub open spec fn job_key(j: JobView) -> ProtoBlockKey {
    ProtoBlockKey { ino: j.ino, block_idx: j.idx, generation: 0 }
}

/// The nodes that a job waits for.
pub open spec fn awaited(j: JobView) -> Seq<Seq<char>> {
    match j.nodes {
        Some(nodes) => if j.wait == WaitPolicy::AllReplicas {
            nodes
        } else {
            nodes.take(1)
        },
        None => Seq::empty(),
    }
}

/// The storage nodes after the first `n` of `nodes` took a block.
pub open spec fn delivered(
    stores: Stores,
    nodes: Seq<Seq<char>>,
    key: ProtoBlockKey,
    data: Seq<u8>,
    n: nat,
) -> Stores
    decreases n,
{
    if n == 0 {
        stores
    } else {
        let s = delivered(stores, nodes, key, data, (n - 1) as nat);
        let node = nodes[n - 1];
        s.insert(node, s[node].write(Some(key), data).0)
    }
}

/// Whether the first `n` of `nodes` took a block, one after the other.
pub open spec fn accepted(
    stores: Stores,
    nodes: Seq<Seq<char>>,
    key: ProtoBlockKey,
    data: Seq<u8>,
    n: nat,
) -> bool
    decreases n,
{
    n == 0 || {
        let s = delivered(stores, nodes, key, data, (n - 1) as nat);
        accepted(stores, nodes, key, data, (n - 1) as nat) && s.contains_key(nodes[n - 1])
            && s[nodes[n - 1]].write(Some(key), data).1 is Ok
    }
}

/// The storage nodes after the first `n` jobs.
pub open spec fn stores_after(stores: Stores, jobs: Seq<JobView>, n: nat) -> Stores
    decreases n,
{
    if n == 0 {
        stores
    } else {
        let j = jobs[n - 1];
        delivered(
            stores_after(stores, jobs, (n - 1) as nat),
            awaited(j),
            job_key(j),
            j.data,
            awaited(j).len(),
        )
    }
}

/// Whether the first `n` jobs succeed: every node that is waited for takes its
/// block.
pub open spec fn jobs_succeed(stores: Stores, jobs: Seq<JobView>, n: nat) -> bool
    decreases n,
{
    n == 0 || {
        let j = jobs[n - 1];
        jobs_succeed(stores, jobs, (n - 1) as nat) && accepted(
            stores_after(stores, jobs, (n - 1) as nat),
            awaited(j),
            job_key(j),
            j.data,
            awaited(j).len(),
        )
    }
}

/// Whether a node holds a block.
pub open spec fn holds(
    stores: Stores,
    node: Seq<char>,
    key: ProtoBlockKey,
    data: Seq<u8>,
) -> bool {
    stores.contains_key(node) && stores[node].read(Some(key)) == Ok::<_, StatusView>(data)
}

proof fn lemma_delivered_holds(
    stores: Stores,
    nodes: Seq<Seq<char>>,
    key: ProtoBlockKey,
    data: Seq<u8>,
    n: nat,
    i: int,
)
    requires
        accepted(stores, nodes, key, data, n),
        0 <= i < n,
    ensures
        holds(delivered(stores, nodes, key, data, n), nodes[i], key, data),
    decreases n,
{
    if i < n - 1 {
        lemma_delivered_holds(stores, nodes, key, data, (n - 1) as nat, i);
    }
}

proof fn lemma_delivered_keeps(
    stores: Stores,
    nodes: Seq<Seq<char>>,
    key: ProtoBlockKey,
    data: Seq<u8>,
    n: nat,
    node: Seq<char>,
    other: ProtoBlockKey,
    kept: Seq<u8>,
)
    requires
        accepted(stores, nodes, key, data, n),
        holds(stores, node, other, kept),
        other.ino != key.ino || other.block_idx != key.block_idx,
    ensures
        holds(delivered(stores, nodes, key, data, n), node, other, kept),
    decreases n,
{
    if n > 0 {
        lemma_delivered_keeps(stores, nodes, key, data, (n - 1) as nat, node, other, kept);
    }
}

/// Once its jobs have succeeded, every node that a job waited for holds the
/// block of that job. No two jobs are of the same block.
pub proof fn law_sent_blocks_are_held(
    stores: Stores,
    jobs: Seq<JobView>,
    n: nat,
    i: int,
    h: int,
)
    requires
        jobs_succeed(stores, jobs, n),
        n <= jobs.len(),
        0 <= i < n,
        0 <= h < awaited(jobs[i]).len(),
        forall|a: int, b: int|
            #![trigger jobs[a], jobs[b]]
            0 <= a < b < jobs.len() ==> jobs[a].idx != jobs[b].idx,
    ensures
        holds(
            stores_after(stores, jobs, n),
            awaited(jobs[i])[h],
            job_key(jobs[i]),
            jobs[i].data,
        ),
    decreases n,
{
    let j = jobs[n - 1];
    let before = stores_after(stores, jobs, (n - 1) as nat);
    if i == n - 1 {
        lemma_delivered_holds(before, awaited(j), job_key(j), j.data, awaited(j).len(), h);
    } else {
        law_sent_blocks_are_held(stores, jobs, (n - 1) as nat, i, h);
        assert(jobs[i].idx != jobs[n - 1].idx);
        lemma_delivered_keeps(
            before,
            awaited(j),
            job_key(j),
            j.data,
            awaited(j).len(),
            awaited(jobs[i])[h],
            job_key(jobs[i]),
            jobs[i].data,
        );
    }
}

proof fn lemma_with_locations_last(
    known: Map<u64, PlacementView>,
    locs: Seq<(u64, PlacementView)>,
    i: int,
)
    requires
        0 <= i < locs.len(),
        forall|a: int, b: int|
            #![trigger locs[a], locs[b]]
            0 <= a < locs.len() && 0 <= b < locs.len() && locs[a].0 == locs[b].0 ==> locs[a].1
                == locs[b].1,
    ensures
        with_locations(known, locs).contains_key(locs[i].0),
        with_locations(known, locs)[locs[i].0] == locs[i].1,
    decreases locs.len(),
{
    let rest = locs.drop_last();
    if i < locs.len() - 1 {
        assert forall|a: int, b: int|
            #![trigger rest[a], rest[b]]
            0 <= a < rest.len() && 0 <= b < rest.len() && rest[a].0 == rest[b].0 implies rest[a].1
            == rest[b].1 by {
            assert(locs[a].1 == locs[b].1 || locs[a].0 != locs[b].0);
        }
        assert(rest[i] == locs[i]);
        lemma_with_locations_last(known, rest, i);
        assert(locs[i].0 == locs.last().0 ==> locs[i].1 == locs[locs.len() - 1].1);
    }
}

proof fn lemma_with_locations_other(
    known: Map<u64, PlacementView>,
    locs: Seq<(u64, PlacementView)>,
    k: u64,
)
    requires
        forall|i: int| 0 <= i < locs.len() ==> (#[trigger] locs[i]).0 != k,
    ensures
        with_locations(known, locs).contains_key(k) == known.contains_key(k),
        known.contains_key(k) ==> with_locations(known, locs)[k] == known[k],
    decreases locs.len(),
{
    if locs.len() > 0 {
        let rest = locs.drop_last();
        assert forall|i: int| 0 <= i < rest.len() implies (#[trigger] rest[i]).0 != k by {
            assert(rest[i] == locs[i]);
        }
        lemma_with_locations_other(known, rest, k);
        assert(locs[locs.len() - 1].0 != k);
    }
}

/// A reader that opens a file learns every place that the server knows.
pub proof fn law_open_learns_places(blocks: Map<u64, PlacementView>)
    requires
        blocks.dom().finite(),
    ensures
        with_locations(Map::empty(), block_list(blocks)) == blocks,
{
    let keys = ascending(blocks.dom());
    lemma_ascending_of(blocks.dom());
    let locs = block_list(blocks);
    let got = with_locations(Map::empty(), locs);
    assert forall|k: u64| #[trigger] got.contains_key(k) <==> blocks.contains_key(k) by {
        if blocks.contains_key(k) {
            assert(keys.to_set().contains(k));
            let i = choose|i: int| 0 <= i < keys.len() && keys[i] == k;
            assert(locs[i] == (k, blocks[k]));
            lemma_with_locations_last(Map::empty(), locs, i);
        } else {
            assert forall|i: int| 0 <= i < locs.len() implies (#[trigger] locs[i]).0 != k by {
                assert(keys.to_set().contains(keys[i]));
            }
            lemma_with_locations_other(Map::empty(), locs, k);
        }
    }
    assert forall|k: u64| got.contains_key(k) implies #[trigger] got[k] == blocks[k] by {
        assert(blocks.contains_key(k));
        assert(keys.to_set().contains(k));
        let i = choose|i: int| 0 <= i < keys.len() && keys[i] == k;
        assert(locs[i] == (k, blocks[k]));
        lemma_with_locations_last(Map::empty(), locs, i);
    }
    assert(got =~= blocks);
}

/// The places that a writer knows after it asked for those that it lacked.
pub open spec fn places_learned(v: OpenView, s: MetaView) -> Map<u64, PlacementView> {
    if v.unplaced().len() == 0 {
        v.block_map
    } else {
        with_locations(v.block_map, s.allocate_blocks(v.ino, v.unplaced()).1->Ok_0)
    }
}

/// The server after a writer asked for the places that it lacked.
pub open spec fn places_given(v: OpenView, s: MetaView) -> MetaView {
    if v.unplaced().len() == 0 {
        s
    } else {
        s.allocate_blocks(v.ino, v.unplaced()).0
    }
}

/// A writer learns, of every block that it wrote, the place that the server has
/// for it, unless it knew one that the server has dropped since.
pub proof fn law_writer_learns_places(v: OpenView, s: MetaView, k: u64)
    requires
        s.inodes.contains_key(v.ino),
        v.dirty.dom().finite(),
        v.dirty.contains_key(k),
        v.block_map.contains_key(k) ==> s.inodes[v.ino].blocks.contains_key(k)
            && s.inodes[v.ino].blocks[k] == v.block_map[k],
    ensures
        places_learned(v, s).contains_key(k),
        places_given(v, s).inodes[v.ino].blocks.contains_key(k),
        places_learned(v, s)[k] == places_given(v, s).inodes[v.ino].blocks[k],
{
    let keys = ascending(v.dirty.dom());
    lemma_ascending_of(v.dirty.dom());
    assert(keys.to_set().contains(k));
    let i = choose|i: int| 0 <= i < keys.len() && keys[i] == k;
    let lacks = |k: u64| !v.block_map.contains_key(k);
    let idxs = v.unplaced();
    if v.block_map.contains_key(k) {
        if idxs.len() > 0 {
            let locs = s.allocate_blocks(v.ino, idxs).1->Ok_0;
            assert forall|j: int| 0 <= j < locs.len() implies (#[trigger] locs[j]).0 != k by {
                keys.lemma_filter_pred(lacks, j);
                assert(lacks(idxs[j]));
            }
            lemma_with_locations_other(v.block_map, locs, k);
        }
    } else {
        assert(lacks(keys[i]));
        keys.lemma_filter_contains(lacks, i);
        assert(idxs.contains(k));
        let j = choose|j: int| 0 <= j < idxs.len() && idxs[j] == k;
        let locs = s.allocate_blocks(v.ino, idxs).1->Ok_0;
        assert(locs[j] == (k, s.placement(v.ino, k)));
        lemma_with_locations_last(v.block_map, locs, j);
    }
}

/// The replies that the holders of a block give to a reader.
pub open spec fn store_reply(stores: Stores, node: Seq<char>, key: ProtoBlockKey) -> ReadReplyView {
    if stores.contains_key(node) {
        match stores[node].read(Some(key)) {
            Ok(data) => ReadReplyView::Answered(data),
            Err(s) => ReadReplyView::Failed(s),
        }
    } else {
        ReadReplyView::NoClient(ErrorView::StoreUnavailable(node))
    }
}

/// The writer with the places that it learned.
pub open spec fn placed_writer(v: OpenView, s: MetaView) -> OpenView {
    OpenView { block_map: places_learned(v, s), ..v }
}

/// The request with which the writer closes the file, as the server takes it.
pub open spec fn closing(v: OpenView, fh: u64, now: Timestamp) -> CloseArgs {
    CloseArgs {
        fh,
        expected_generation: v.generation,
        new_size: v.size_hint,
        mtime_s: now.spec_since_epoch().0,
        mtime_ns: now.spec_since_epoch().1,
        written: ascending(v.dirty.dom()),
    }
}

proof fn lemma_jobs_keep(
    stores: Stores,
    jobs: Seq<JobView>,
    n: nat,
    node: Seq<char>,
    other: ProtoBlockKey,
    kept: Seq<u8>,
)
    requires
        jobs_succeed(stores, jobs, n),
        n <= jobs.len(),
        holds(stores, node, other, kept),
        forall|a: int|
            0 <= a < jobs.len() ==> (#[trigger] jobs[a]).ino != other.ino || jobs[a].idx
                != other.block_idx,
    ensures
        holds(stores_after(stores, jobs, n), node, other, kept),
    decreases n,
{
    if n > 0 {
        lemma_jobs_keep(stores, jobs, (n - 1) as nat, node, other, kept);
        let j = jobs[n - 1];
        lemma_delivered_keeps(
            stores_after(stores, jobs, (n - 1) as nat),
            awaited(j),
            job_key(j),
            j.data,
            awaited(j).len(),
            node,
            other,
            kept,
        );
    }
}

/// Of two writers that send the same block the one that sends last wins: the
/// nodes that it waits for hold its bytes, whatever the other one sent before.
/// A block that only the first one sent stays as it sent it. Neither writer
/// sends a block twice.
pub proof fn law_last_sender_wins(
    stores: Stores,
    first: Seq<JobView>,
    last: Seq<JobView>,
    i: int,
    h: int,
    x: int,
    y: int,
)
    requires
        jobs_succeed(stores, first, first.len()),
        jobs_succeed(stores_after(stores, first, first.len()), last, last.len()),
        forall|a: int, b: int|
            #![trigger first[a], first[b]]
            0 <= a < b < first.len() ==> first[a].idx != first[b].idx,
        forall|a: int, b: int|
            #![trigger last[a], last[b]]
            0 <= a < b < last.len() ==> last[a].idx != last[b].idx,
        0 <= i < last.len(),
        0 <= h < awaited(last[i]).len(),
        0 <= x < first.len(),
        0 <= y < awaited(first[x]).len(),
    ensures
        ({
            let sent = stores_after(stores_after(stores, first, first.len()), last, last.len());
            &&& holds(sent, awaited(last[i])[h], job_key(last[i]), last[i].data)
            &&& (forall|a: int|
                0 <= a < last.len() ==> (#[trigger] last[a]).ino != first[x].ino || last[a].idx
                    != first[x].idx) ==> holds(
                sent,
                awaited(first[x])[y],
                job_key(first[x]),
                first[x].data,
            )
        }),
{
    let between = stores_after(stores, first, first.len());
    law_sent_blocks_are_held(between, last, last.len(), i, h);
    law_sent_blocks_are_held(stores, first, first.len(), x, y);
    if forall|a: int|
        0 <= a < last.len() ==> (#[trigger] last[a]).ino != first[x].ino || last[a].idx
            != first[x].idx {
        lemma_jobs_keep(
            between,
            last,
            last.len(),
            awaited(first[x])[y],
            job_key(first[x]),
            first[x].data,
        );
    }
}

/// Finitely many blocks have a place after a writer asked for those it lacked.
proof fn lemma_places_finite(v: OpenView, s: MetaView)
    requires
        s.inodes.contains_key(v.ino),
        s.inodes[v.ino].blocks.dom().finite(),
    ensures
        places_given(v, s).inodes[v.ino].blocks.dom().finite(),
{
    if v.unplaced().len() > 0 {
        let blocks = places_given(v, s).inodes[v.ino].blocks;
        let old_dom = s.inodes[v.ino].blocks.dom();
        let new_keys = v.unplaced().to_set();
        assert(blocks.dom() =~= old_dom.union(new_keys)) by {
            assert forall|x: u64| blocks.dom().contains(x) <==> old_dom.union(new_keys).contains(
                x,
            ) by {
                assert(new_keys.contains(x) <==> v.unplaced().contains(x));
            }
        }
        vstd::seq_lib::seq_to_set_is_finite(v.unplaced());
    }
}

/// Close-to-open consistency. A writer has the file `v` open under the handle
/// `fh`; it publishes what it wrote, every node that it waits for takes its
/// block, and the server accepts the close. Whoever opens the file after that
/// sees the new generation and the new size, and gets of every block that was
/// written the bytes that were written, from the first node that it asks. Left
/// out is a written block whose place the server has dropped since the writer
/// learned it, as it does with the blocks past the end of a file that is cut.
pub proof fn law_close_to_open(
    v: OpenView,
    fh: u64,
    wait: WaitPolicy,
    s: MetaView,
    stores: Stores,
    now: Timestamp,
    server_now: Timestamp,
    flags: i32,
    k: u64,
    bs: nat,
)
    requires
        s.publishes(closing(v, fh, now)),
        s.open_handles[fh].ino.0 == v.ino,
        s.inodes[v.ino].kind == InodeKind::File,
        s.inodes[v.ino].blocks.dom().finite(),
        v.generation < u64::MAX,
        v.dirty.dom().finite(),
        v.dirty.contains_key(k),
        v.block_map.contains_key(k) ==> s.inodes[v.ino].blocks.contains_key(k)
            && s.inodes[v.ino].blocks[k] == v.block_map[k],
        jobs_succeed(
            stores,
            placed_writer(v, s).jobs(wait),
            placed_writer(v, s).jobs(wait).len(),
        ),
    ensures
        ({
            let closed = places_given(v, s).close(closing(v, fh, now), server_now).0;
            let now_stored = stores_after(
                stores,
                placed_writer(v, s).jobs(wait),
                placed_writer(v, s).jobs(wait).len(),
            );
            let answer = closed.open(v.ino, flags).1;
            let reader = opened_view(v.ino, answer->Ok_0.0, answer->Ok_0.2, flags);
            let search = FetchView::begun(reader, k);
            let key = ProtoBlockKey { ino: v.ino, block_idx: k, generation: 0 };
            &&& answer is Ok
            &&& reader.generation == v.generation + 1
            &&& reader.size_hint == v.size_hint
            &&& reader.block_map.contains_key(k)
            &&& search.nodes.len() > 0
            &&& search.outcome(seq![store_reply(now_stored, search.nodes[0], key)], bs) == Ok::<
                _,
                ErrorView,
            >(v.dirty[k])
        }),
{
    let a = closing(v, fh, now);
    let given = places_given(v, s);
    let closed = given.close(a, server_now).0;
    let w = placed_writer(v, s);
    let jobs = w.jobs(wait);
    let keys = ascending(v.dirty.dom());
    lemma_ascending_of(v.dirty.dom());
    assert(keys.to_set().contains(k));
    let i = choose|i: int| 0 <= i < keys.len() && keys[i] == k;
    law_writer_learns_places(v, s, k);
    let blocks = given.inodes[v.ino].blocks;
    lemma_places_finite(v, s);
    assert(given.open_handles == s.open_handles);
    assert(given.inodes[v.ino].generation == s.inodes[v.ino].generation);
    assert(closed.inodes[v.ino].blocks == blocks);
    law_open_learns_places(blocks);
    let place = blocks[k];
    assert(w.block_map[k] == place);
    assert forall|x: int, y: int|
        #![trigger jobs[x], jobs[y]]
        0 <= x < y < jobs.len() implies jobs[x].idx != jobs[y].idx by {
        assert(keys[x] < keys[y]);
    }
    assert(jobs[i].nodes == Some(holders(place)));
    assert(awaited(jobs[i]).len() > 0);
    assert(awaited(jobs[i])[0] == place.primary);
    law_sent_blocks_are_held(stores, jobs, jobs.len(), i, 0);
    let now_stored = stores_after(stores, jobs, jobs.len());
    let answer = closed.open(v.ino, flags).1;
    let reader = opened_view(v.ino, answer->Ok_0.0, answer->Ok_0.2, flags);
    let search = FetchView::begun(reader, k);
    assert(reader.block_map == blocks);
    assert(search.nodes[0] == place.primary);
    let key = ProtoBlockKey { ino: v.ino, block_idx: k, generation: 0 };
    assert(store_reply(now_stored, place.primary, key) == ReadReplyView::Answered(v.dirty[k]));
    let replies = seq![store_reply(now_stored, search.nodes[0], key)];
    law_read_fails_over(search, replies, bs, 0);
}

/// A publication leaves alone what was not written to: a node that held
/// another block, of this file or of any other, holds it as before, and whoever
/// opens the file after the close finds its other blocks where they were.
pub proof fn law_close_keeps_other_blocks(
    v: OpenView,
    fh: u64,
    wait: WaitPolicy,
    s: MetaView,
    stores: Stores,
    now: Timestamp,
    server_now: Timestamp,
    flags: i32,
    other: ProtoBlockKey,
    node: Seq<char>,
    kept: Seq<u8>,
)
    requires
        s.publishes(closing(v, fh, now)),
        s.open_handles[fh].ino.0 == v.ino,
        s.inodes[v.ino].kind == InodeKind::File,
        s.inodes[v.ino].blocks.dom().finite(),
        v.generation < u64::MAX,
        v.dirty.dom().finite(),
        jobs_succeed(
            stores,
            placed_writer(v, s).jobs(wait),
            placed_writer(v, s).jobs(wait).len(),
        ),
        other.ino != v.ino || !v.dirty.contains_key(other.block_idx),
        holds(stores, node, other, kept),
    ensures
        holds(
            stores_after(
                stores,
                placed_writer(v, s).jobs(wait),
                placed_writer(v, s).jobs(wait).len(),
            ),
            node,
            other,
            kept,
        ),
        ({
            let closed = places_given(v, s).close(closing(v, fh, now), server_now).0;
            let answer = closed.open(v.ino, flags).1;
            let reader = opened_view(v.ino, answer->Ok_0.0, answer->Ok_0.2, flags);
            let k = other.block_idx;
            &&& answer is Ok
            &&& s.inodes[v.ino].blocks.contains_key(k) ==> reader.block_map.contains_key(k)
                && reader.block_map[k] == s.inodes[v.ino].blocks[k]
        }),
{
    let jobs = placed_writer(v, s).jobs(wait);
    let keys = ascending(v.dirty.dom());
    lemma_ascending_of(v.dirty.dom());
    assert forall|a: int| 0 <= a < jobs.len() implies (#[trigger] jobs[a]).ino != other.ino
        || jobs[a].idx != other.block_idx by {
        assert(keys.to_set().contains(keys[a]));
    }
    lemma_jobs_keep(stores, jobs, jobs.len(), node, other, kept);
    let given = places_given(v, s);
    let blocks = given.inodes[v.ino].blocks;
    lemma_places_finite(v, s);
    let closed = given.close(closing(v, fh, now), server_now).0;
    assert(given.open_handles == s.open_handles);
    assert(closed.inodes[v.ino].blocks == blocks);
    law_open_learns_places(blocks);
}

/// After an fsync every holder has the block: a reader gets what was written
/// from any of them, the nodes before it being out of reach. Left out is a block
/// whose place the server has dropped since the writer learned it.
pub proof fn law_fsync_survives_losses(
    v: OpenView,
    s: MetaView,
    stores: Stores,
    k: u64,
    h: int,
)
    requires
        s.inodes.contains_key(v.ino),
        v.dirty.dom().finite(),
        v.dirty.contains_key(k),
        v.block_map.contains_key(k) ==> s.inodes[v.ino].blocks.contains_key(k)
            && s.inodes[v.ino].blocks[k] == v.block_map[k],
        0 <= h < holders(places_given(v, s).inodes[v.ino].blocks[k]).len(),
        jobs_succeed(
            stores,
            placed_writer(v, s).jobs(WaitPolicy::AllReplicas),
            placed_writer(v, s).jobs(WaitPolicy::AllReplicas).len(),
        ),
    ensures
        holds(
            stores_after(
                stores,
                placed_writer(v, s).jobs(WaitPolicy::AllReplicas),
                placed_writer(v, s).jobs(WaitPolicy::AllReplicas).len(),
            ),
            holders(places_given(v, s).inodes[v.ino].blocks[k])[h],
            ProtoBlockKey { ino: v.ino, block_idx: k, generation: 0 },
            v.dirty[k],
        ),
{
    let w = placed_writer(v, s);
    let jobs = w.jobs(WaitPolicy::AllReplicas);
    let keys = ascending(v.dirty.dom());
    lemma_ascending_of(v.dirty.dom());
    assert(keys.to_set().contains(k));
    let i = choose|i: int| 0 <= i < keys.len() && keys[i] == k;
    law_writer_learns_places(v, s, k);
    assert forall|x: int, y: int|
        #![trigger jobs[x], jobs[y]]
        0 <= x < y < jobs.len() implies jobs[x].idx != jobs[y].idx by {
        assert(keys[x] < keys[y]);
    }
    assert(awaited(jobs[i]) == holders(w.block_map[k]));
    law_sent_blocks_are_held(stores, jobs, jobs.len(), i, h);
}

/// A publication does what close-to-open consistency speaks of: told the nodes
/// and the places, it sends the jobs of the writer with the places that it
/// learned, and closes the file with the request of that writer.
pub proof fn law_publication_course(
    p: PublishView,
    s: MetaView,
    list: Seq<ProtoNodeView>,
    now: Timestamp,
)
    requires
        p.stage == PublishStage::AwaitNodes,
        s.inodes.contains_key(p.file.ino),
    ensures
        ({
            let nodes = PublishEventView::Nodes(Ok(list));
            let (q, asked) = p.after(nodes, now);
            let (sent, send) = if p.file.unplaced().len() == 0 {
                (q, asked)
            } else {
                q.after(
                    PublishEventView::Places(
                        Ok(s.allocate_blocks(p.file.ino, p.file.unplaced()).1->Ok_0),
                    ),
                    now,
                )
            };
            let (closing_view, close) = sent.after(PublishEventView::Written(Ok(())), now);
            let c = closing(p.file, p.fh, now);
            &&& p.file.unplaced().len() > 0 ==> asked == PublishActionView::Allocate(
                p.file.ino,
                p.file.unplaced(),
            )
            &&& send == PublishActionView::Send(placed_writer(p.file, s).jobs(p.wait))
            &&& close == PublishActionView::Close(
                CloseView {
                    fh: c.fh,
                    ino: p.file.ino,
                    expected_generation: c.expected_generation,
                    new_size: c.new_size,
                    mtime_s: c.mtime_s,
                    mtime_ns: c.mtime_ns,
                    written: c.written,
                },
            )
            &&& sent.file.dirty == Map::<u64, Seq<u8>>::empty()
            &&& sent.addrs == addr_map(list)
        }),
{
}

/// What the server makes, and tells in listings, the kernel takes for what it
/// is.
pub proof fn law_kinds_agree(ino: u64, mode: u32, uid: u32, gid: u32, now: Timestamp)
    ensures
        kernel_attr(attr_of(new_file(ino, mode, uid, gid, now))).kind == FileType::RegularFile,
        kernel_attr(attr_of(new_dir(ino, mode, uid, gid, now))).kind == FileType::Directory,
        number_type(kind_number(InodeKind::File)) == FileType::RegularFile,
        number_type(kind_number(InodeKind::Dir)) == FileType::Directory,
        number_type(kind_number(InodeKind::Symlink)) == FileType::Symlink,
{
    law_mode_tells_kind(ino, mode, uid, gid, now);
}

/// The kernel can be told the times of every inode that the server tells of.
pub proof fn law_server_times_tellable(i: InodeView)
    requires
        i.atime.wf(),
        i.mtime.wf(),
        i.ctime.wf(),
    ensures
        times_tellable(attr_of(i)),
{
}

/// The generation keeps caches apart: a mount that remembers of a file only
/// blocks up to the generation that a close expects remembers none of the file
/// that is opened after that close.
pub proof fn law_new_generation_misses_cache(
    cached: Map<(u64, u64, u64), Seq<u8>>,
    s: MetaView,
    a: CloseArgs,
    now: Timestamp,
    flags: i32,
    idx: u64,
)
    requires
        s.publishes(a),
        a.expected_generation < u64::MAX,
        s.inodes[s.open_handles[a.fh].ino.0].kind == InodeKind::File,
        forall|k: (u64, u64, u64)| #[trigger]
            cached.contains_key(k) && k.0 == s.open_handles[a.fh].ino.0 ==> k.1
                <= a.expected_generation,
    ensures
        ({
            let ino = s.open_handles[a.fh].ino.0;
            let answer = s.close(a, now).0.open(ino, flags).1;
            answer is Ok && !cached.contains_key((ino, answer->Ok_0.0.generation, idx))
        }),
{
    let ino = s.open_handles[a.fh].ino.0;
    let generation = s.close(a, now).0.open(ino, flags).1->Ok_0.0.generation;
    assert(generation == a.expected_generation + 1);
    if cached.contains_key((ino, generation, idx)) {
        assert(generation <= a.expected_generation);
    }
}

/// A mount that reads a directory page by page, from the start to the end,
/// gets every entry once, in the order of the names, with one request for every
/// full page and one more.
pub proof fn law_directory_is_read_whole(s: MetaView, all: Listing, pages: nat)
    requires
        is_sorted(all),
        pages > all.len() / DIR_PAGE as nat,
    ensures
        requests_made(s, all, Seq::empty(), page_limit(DIR_PAGE), pages) == all.len()
            / DIR_PAGE as nat + 1,
        read_pages(s, all, Seq::empty(), page_limit(DIR_PAGE), pages) == Seq::new(
            all.len(),
            |i: int| s.told_entry(all[i]),
        ),
{
    law_pages_cover_directory(s, all, Seq::empty(), page_limit(DIR_PAGE), pages);
}

} // verus!
