//! What holds of a storage node as a whole.

use vstd::prelude::*;

use crate::error::{Code, StatusView};
use crate::outside::shards::{stored_blocks, stored_marks};
use crate::proto::ProtoBlockKey;
use crate::store::model::{full_key, logical_key, StoreView};
use crate::store::service::StoreService;
use crate::store::state::StoreState;

verus! {

/// The number of bytes in a set of blocks.
pub open spec fn total_len(m: Map<(u64, u64, u64), Seq<u8>>) -> nat
    decreases m.dom().len(),
    when m.dom().finite()
{
    if m.dom().is_empty() {
        0
    } else {
        let k = m.dom().choose();
        m[k].len() + total_len(m.remove(k))
    }
}

proof fn lemma_total_remove(m: Map<(u64, u64, u64), Seq<u8>>, k: (u64, u64, u64))
    requires
        m.dom().finite(),
        m.contains_key(k),
    ensures
        total_len(m) == m[k].len() + total_len(m.remove(k)),
    decreases m.dom().len(),
{
    let c = m.dom().choose();
    assert(m.dom().contains(k));
    assert(m.dom().contains(c));
    if c != k {
        lemma_total_remove(m.remove(c), k);
        assert(m.remove(c).remove(k) =~= m.remove(k).remove(c));
        lemma_total_remove(m.remove(k), c);
        assert(m.remove(c).dom() =~= m.dom().remove(c));
        assert(m.remove(k).dom() =~= m.dom().remove(k));
    }
}

/// The bytes under all other keys.
spec fn others_len(s: StoreView, k: (u64, u64, u64)) -> nat {
    total_len(s.blocks.remove(k))
}

proof fn lemma_total_split(s: StoreView, k: (u64, u64, u64))
    requires
        s.blocks.dom().finite(),
    ensures
        total_len(s.blocks) == s.block_len(k) + others_len(s, k),
{
    if s.blocks.contains_key(k) {
        lemma_total_remove(s.blocks, k);
    } else {
        assert(s.blocks.remove(k) =~= s.blocks);
    }
}

proof fn lemma_total_insert(s: StoreView, k: (u64, u64, u64), data: Seq<u8>)
    requires
        s.blocks.dom().finite(),
    ensures
        total_len(s.blocks.insert(k, data)) == data.len() + others_len(s, k),
{
    let m = s.blocks.insert(k, data);
    assert(m.dom() =~= s.blocks.dom().insert(k));
    lemma_total_remove(m, k);
    assert(m.remove(k) =~= s.blocks.remove(k));
}

/// What was written under a key is what is read under it; blocks under other
/// keys stay what they were.
pub proof fn law_read_after_write(
    s: StoreView,
    k: ProtoBlockKey,
    data: Seq<u8>,
    other: ProtoBlockKey,
)
    requires
        s.write(Some(k), data).1 is Ok,
    ensures
        s.write(Some(k), data).0.read(Some(k)) == Ok::<_, StatusView>(data),
        full_key(other) != full_key(k) ==> s.write(Some(k), data).0.read(Some(other)) == s.read(
            Some(other),
        ),
{
}

/// A refused write changes nothing.
pub proof fn law_refused_write_changes_nothing(
    s: StoreView,
    key: Option<ProtoBlockKey>,
    data: Seq<u8>,
)
    requires
        s.write(key, data).1 is Err,
    ensures
        s.write(key, data).0 == s,
{
}

/// Once a block of some generation was taken, an earlier generation of the same
/// block is refused as stale, whatever other blocks come and go.
pub proof fn law_stale_write_refused(
    s: StoreView,
    k: ProtoBlockKey,
    data: Seq<u8>,
    other: ProtoBlockKey,
    other_data: Seq<u8>,
    late: ProtoBlockKey,
    late_data: Seq<u8>,
)
    requires
        s.write(Some(k), data).1 is Ok,
        logical_key(late) == logical_key(k),
        late.generation < k.generation,
        logical_key(other) != logical_key(k),
    ensures
        ({
            let refusal = Err::<(), _>(
                StatusView { code: Code::FailedPrecondition, message: "stale generation"@ },
            );
            let t = s.write(Some(k), data).0;
            &&& t.write(Some(late), late_data).1 == refusal
            &&& t.write(Some(other), other_data).0.write(Some(late), late_data).1 == refusal
            &&& t.delete(Some(other)).0.write(Some(late), late_data).1 == refusal
        }),
{
}

/// The mark of a block never goes back while the block is kept.
pub proof fn law_mark_is_monotone(
    s: StoreView,
    k: ProtoBlockKey,
    data: Seq<u8>,
    logical: (u64, u64),
)
    requires
        s.high_water.contains_key(logical),
    ensures
        s.write(Some(k), data).0.high_water.contains_key(logical),
        s.write(Some(k), data).0.high_water[logical] >= s.high_water[logical],
{
}

/// A block that was deleted is not found, and neither is its mark: any
/// generation of it may be written again. Blocks under other keys stay.
pub proof fn law_delete_forgets(s: StoreView, k: ProtoBlockKey, other: ProtoBlockKey)
    ensures
        s.delete(Some(k)).0.read(Some(k)) == Err::<Seq<u8>, _>(
            StatusView { code: Code::NotFound, message: "block not found"@ },
        ),
        !s.delete(Some(k)).0.stale(k),
        full_key(other) != full_key(k) ==> s.delete(Some(k)).0.read(Some(other)) == s.read(
            Some(other),
        ),
{
}

/// The count of the bytes in use is exact: writes and deletes keep it so, and
/// a copy keeps it so where the node did not hold the block.
pub proof fn law_count_is_exact(
    s: StoreView,
    key: Option<ProtoBlockKey>,
    data: Seq<u8>,
    k: ProtoBlockKey,
)
    requires
        s.blocks.dom().finite(),
        s.ram_used == total_len(s.blocks),
    ensures
        ({
            let t = s.write(key, data).0;
            t.blocks.dom().finite() && t.ram_used == total_len(t.blocks)
        }),
        ({
            let t = s.delete(key).0;
            t.blocks.dom().finite() && t.ram_used == total_len(t.blocks)
        }),
        !s.blocks.contains_key(full_key(k)) && s.ram_used + data.len() <= u64::MAX ==> ({
            let t = s.copied(k, data);
            t.blocks.dom().finite() && t.ram_used == total_len(t.blocks)
        }),
{
    if let Some(w) = key {
        lemma_total_split(s, full_key(w));
        lemma_total_insert(s, full_key(w), data);
    }
    lemma_total_split(s, full_key(k));
    lemma_total_insert(s, full_key(k), data);
}

/// Blocks never count for less than they hold, even where a copy replaces a
/// block that the node held, as long as the count does not overflow.
pub proof fn law_count_is_enough(
    s: StoreView,
    key: Option<ProtoBlockKey>,
    data: Seq<u8>,
    k: ProtoBlockKey,
)
    requires
        s.blocks.dom().finite(),
        s.ram_used >= total_len(s.blocks),
    ensures
        s.write(key, data).0.ram_used >= total_len(s.write(key, data).0.blocks),
        s.delete(key).0.ram_used >= total_len(s.delete(key).0.blocks),
        s.ram_used + data.len() <= u64::MAX ==> s.copied(k, data).ram_used >= total_len(
            s.copied(k, data).blocks,
        ),
{
    if let Some(w) = key {
        lemma_total_split(s, full_key(w));
        lemma_total_insert(s, full_key(w), data);
    }
    lemma_total_split(s, full_key(k));
    lemma_total_insert(s, full_key(k), data);
}

/// A node within its budget stays within it: no write takes it past, and no
/// delete does.
pub proof fn law_budget_kept(s: StoreView, key: Option<ProtoBlockKey>, data: Seq<u8>)
    requires
        s.blocks.dom().finite(),
        total_len(s.blocks) <= s.ram_used <= s.ram_budget,
    ensures
        s.write(key, data).0.ram_used <= s.ram_budget,
        total_len(s.write(key, data).0.blocks) <= s.ram_budget,
        s.delete(key).0.ram_used <= s.ram_budget,
        total_len(s.delete(key).0.blocks) <= s.ram_budget,
{
    if let Some(w) = key {
        lemma_total_split(s, full_key(w));
        lemma_total_insert(s, full_key(w), data);
    }
}

/// Whatever can change what a node holds.
pub enum StoreCall {
    Write(Option<ProtoBlockKey>, Seq<u8>),
    Delete(Option<ProtoBlockKey>),
    /// A copy of a block comes from another node.
    Copy(ProtoBlockKey, Seq<u8>),
}

impl StoreCall {
    /// Whether a call is for the block under the key `k`.
    pub open spec fn concerns(self, k: ProtoBlockKey) -> bool {
        match self {
            StoreCall::Write(Some(w), _) => full_key(w) == full_key(k),
            StoreCall::Delete(Some(w)) => full_key(w) == full_key(k),
            StoreCall::Copy(w, _) => full_key(w) == full_key(k),
            _ => false,
        }
    }
}

impl StoreView {
    /// The node after one call.
    pub open spec fn called(self, c: StoreCall) -> StoreView {
        match c {
            StoreCall::Write(key, data) => self.write(key, data).0,
            StoreCall::Delete(key) => self.delete(key).0,
            StoreCall::Copy(k, data) => self.copied(k, data),
        }
    }

    /// The node after the first `n` of `calls`.
    pub open spec fn after(self, calls: Seq<StoreCall>, n: nat) -> StoreView
        decreases n,
    {
        if n == 0 {
            self
        } else {
            self.after(calls, (n - 1) as nat).called(calls[n - 1])
        }
    }
}

/// After any course of writes and deletes, refused ones too, the count of the
/// bytes in use is the number of bytes that the node holds, and within its
/// budget.
pub proof fn law_count_and_budget_always_hold(ram_budget: u64, calls: Seq<StoreCall>, n: nat)
    requires
        n <= calls.len(),
        forall|i: int| 0 <= i < n ==> !((#[trigger] calls[i]) is Copy),
    ensures
        ({
            let s = StoreView::initial(ram_budget).after(calls, n);
            &&& s.blocks.dom().finite()
            &&& s.ram_used == total_len(s.blocks)
            &&& s.ram_used <= ram_budget
            &&& s.ram_budget == ram_budget
        }),
    decreases n,
{
    if n > 0 {
        let m = (n - 1) as nat;
        law_count_and_budget_always_hold(ram_budget, calls, m);
        let s = StoreView::initial(ram_budget).after(calls, m);
        assert(!(calls[m as int] is Copy));
        match calls[m as int] {
            StoreCall::Write(key, data) => {
                law_count_is_exact(s, key, data, arbitrary());
                law_budget_kept(s, key, data);
            },
            StoreCall::Delete(key) => {
                law_count_is_exact(s, key, Seq::empty(), arbitrary());
                law_budget_kept(s, key, Seq::empty());
            },
            StoreCall::Copy(_, _) => {},
        }
    }
}

/// Calls for other keys leave what is read under a key as it was.
pub proof fn law_other_calls_change_nothing(
    s: StoreView,
    k: ProtoBlockKey,
    calls: Seq<StoreCall>,
    n: nat,
)
    requires
        n <= calls.len(),
        forall|i: int| 0 <= i < n ==> !(#[trigger] calls[i]).concerns(k),
    ensures
        s.after(calls, n).read(Some(k)) == s.read(Some(k)),
    decreases n,
{
    if n > 0 {
        law_other_calls_change_nothing(s, k, calls, (n - 1) as nat);
        assert(!calls[n - 1].concerns(k));
    }
}

/// Of two writes of a block the last one wins, whole and unmixed, whatever
/// calls for other keys come between them and after them.
pub proof fn law_last_write_wins(
    s: StoreView,
    k: ProtoBlockKey,
    first: Seq<u8>,
    between: Seq<StoreCall>,
    last: Seq<u8>,
    since: Seq<StoreCall>,
)
    requires
        s.write(Some(k), first).1 is Ok,
        forall|i: int| 0 <= i < between.len() ==> !(#[trigger] between[i]).concerns(k),
        s.write(Some(k), first).0.after(between, between.len()).write(Some(k), last).1 is Ok,
        forall|i: int| 0 <= i < since.len() ==> !(#[trigger] since[i]).concerns(k),
    ensures
        ({
            let t = s.write(Some(k), first).0.after(between, between.len());
            &&& t.read(Some(k)) == Ok::<_, StatusView>(first)
            &&& t.write(Some(k), last).0.after(since, since.len()).read(Some(k)) == Ok::<
                _,
                StatusView,
            >(last)
        }),
{
    let t = s.write(Some(k), first).0.after(between, between.len());
    law_read_after_write(s, k, first, k);
    law_other_calls_change_nothing(s.write(Some(k), first).0, k, between, between.len());
    law_read_after_write(t, k, last, k);
    law_other_calls_change_nothing(t.write(Some(k), last).0, k, since, since.len());
}

/// A block that was never written, or was deleted and not written since, is not
/// found.
pub proof fn law_absent_blocks_are_not_found(
    ram_budget: u64,
    s: StoreView,
    k: ProtoBlockKey,
    calls: Seq<StoreCall>,
)
    requires
        forall|i: int| 0 <= i < calls.len() ==> !(#[trigger] calls[i]).concerns(k),
    ensures
        ({
            let absent = Err::<Seq<u8>, _>(
                StatusView { code: Code::NotFound, message: "block not found"@ },
            );
            &&& StoreView::initial(ram_budget).after(calls, calls.len()).read(Some(k)) == absent
            &&& s.delete(Some(k)).0.after(calls, calls.len()).read(Some(k)) == absent
        }),
{
    law_other_calls_change_nothing(StoreView::initial(ram_budget), k, calls, calls.len());
    law_delete_forgets(s, k, k);
    law_other_calls_change_nothing(s.delete(Some(k)).0, k, calls, calls.len());
}

/// A node holds nothing when it starts, and may hold as much as its budget says.
pub proof fn law_a_node_starts_empty(ram_budget: u64)
    ensures
        StoreView::initial(ram_budget).blocks == Map::<(u64, u64, u64), Seq<u8>>::empty(),
        StoreView::initial(ram_budget).high_water == Map::<(u64, u64), u64>::empty(),
        StoreView::initial(ram_budget).ram_used == 0,
        StoreView::initial(ram_budget).ram_budget == ram_budget,
{
}

/// A block is found exactly where one is held under its inode, position and
/// generation, and it is that one.
pub proof fn law_reads_find_what_is_held(s: StoreView, k: ProtoBlockKey)
    ensures
        s.read(Some(k)) is Ok <==> s.blocks.contains_key((k.ino, k.block_idx, k.generation)),
        s.read(Some(k)) is Ok ==> s.read(Some(k))->Ok_0 == s.blocks[(
            k.ino,
            k.block_idx,
            k.generation,
        )],
        s.read(Some(k)) is Err ==> s.read(Some(k))->Err_0 == (StatusView {
            code: Code::NotFound,
            message: "block not found"@,
        }),
        s.read(None) is Err,
        s.read(None)->Err_0 == (StatusView {
            code: Code::InvalidArgument,
            message: "missing key"@,
        }),
{
}

/// A write is taken exactly where no later generation of the block was written
/// and the bytes in use with those of the block are within the budget, whatever
/// the block and however long. One that is too late is refused as stale, any
/// other that does not fit for want of room, and one without a key as not
/// understood.
pub proof fn law_writes_that_fit_are_taken(s: StoreView, k: ProtoBlockKey, data: Seq<u8>)
    ensures
        ({
            let block = (k.ino, k.block_idx);
            let late = s.high_water.contains_key(block) && s.high_water[block] > k.generation;
            let fits = s.ram_used + data.len() <= s.ram_budget;
            let answer = s.write(Some(k), data).1;
            &&& answer is Ok <==> !late && fits
            &&& late ==> answer == Err::<(), _>(
                StatusView { code: Code::FailedPrecondition, message: "stale generation"@ },
            )
            &&& !late && !fits ==> answer == Err::<(), _>(
                StatusView { code: Code::ResourceExhausted, message: "ram budget exceeded"@ },
            )
            &&& s.write(None, data).1 == Err::<(), _>(
                StatusView { code: Code::InvalidArgument, message: "missing key"@ },
            )
            &&& s.write(None, data).0 == s
        }),
{
}

/// A write that is taken puts the block under its key and nothing else: every
/// other block stays, the mark of the block becomes its generation and every
/// other mark stays, and the count of the bytes in use goes up by the length of
/// the block and down by that of the one it replaces.
pub proof fn law_a_taken_write_changes_one_block(
    s: StoreView,
    k: ProtoBlockKey,
    data: Seq<u8>,
    other: (u64, u64, u64),
    block: (u64, u64),
)
    requires
        s.write(Some(k), data).1 is Ok,
    ensures
        ({
            let t = s.write(Some(k), data).0;
            let key = (k.ino, k.block_idx, k.generation);
            &&& t.blocks.contains_key(key) && t.blocks[key] == data
            &&& other != key ==> (t.blocks.contains_key(other) <==> s.blocks.contains_key(other))
            &&& other != key && s.blocks.contains_key(other) ==> t.blocks[other]
                == s.blocks[other]
            &&& t.high_water.contains_key((k.ino, k.block_idx))
            &&& t.high_water[(k.ino, k.block_idx)] == k.generation
            &&& block != (k.ino, k.block_idx) ==> (t.high_water.contains_key(block)
                <==> s.high_water.contains_key(block))
            &&& block != (k.ino, k.block_idx) && s.high_water.contains_key(block)
                ==> t.high_water[block] == s.high_water[block]
            &&& t.ram_budget == s.ram_budget
            &&& !s.blocks.contains_key(key) ==> t.ram_used == s.ram_used + data.len()
            &&& s.blocks.contains_key(key) && s.blocks[key].len() <= s.ram_used + data.len()
                ==> t.ram_used + s.blocks[key].len() == s.ram_used + data.len()
            &&& s.blocks.contains_key(key) ==> (t.ram_used + s.blocks[key].len() - s.ram_used
                - data.len()) % (u64::MAX + 1) == 0
        }),
{
}

/// A delete is always taken where it has a key. It gives up the block and the
/// mark that the key names and nothing else, and the bytes of the block.
pub proof fn law_a_delete_gives_up_one_block(
    s: StoreView,
    k: ProtoBlockKey,
    other: (u64, u64, u64),
    block: (u64, u64),
)
    ensures
        ({
            let t = s.delete(Some(k)).0;
            let key = (k.ino, k.block_idx, k.generation);
            &&& s.delete(Some(k)).1 is Ok
            &&& !t.blocks.contains_key(key)
            &&& other != key ==> (t.blocks.contains_key(other) <==> s.blocks.contains_key(other))
            &&& other != key && s.blocks.contains_key(other) ==> t.blocks[other]
                == s.blocks[other]
            &&& !t.high_water.contains_key((k.ino, k.block_idx))
            &&& block != (k.ino, k.block_idx) ==> (t.high_water.contains_key(block)
                <==> s.high_water.contains_key(block))
            &&& block != (k.ino, k.block_idx) && s.high_water.contains_key(block)
                ==> t.high_water[block] == s.high_water[block]
            &&& t.ram_budget == s.ram_budget
            &&& !s.blocks.contains_key(key) ==> t.ram_used == s.ram_used
            &&& s.blocks.contains_key(key) && s.blocks[key].len() <= s.ram_used ==> t.ram_used
                + s.blocks[key].len() == s.ram_used
            &&& s.blocks.contains_key(key) ==> (t.ram_used + s.blocks[key].len() - s.ram_used) % (
            u64::MAX + 1) == 0
            &&& s.delete(None) == (
                s,
                Err::<(), _>(
                    StatusView { code: Code::InvalidArgument, message: "missing key"@ },
                ),
            )
        }),
{
}

/// A copy from another node is held under its key, whatever the budget and the
/// mark; every other block and every mark stays, and its length is counted.
pub proof fn law_a_copy_is_held(
    s: StoreView,
    k: ProtoBlockKey,
    data: Seq<u8>,
    other: (u64, u64, u64),
)
    ensures
        ({
            let t = s.copied(k, data);
            let key = (k.ino, k.block_idx, k.generation);
            &&& t.blocks.contains_key(key) && t.blocks[key] == data
            &&& other != key ==> (t.blocks.contains_key(other) <==> s.blocks.contains_key(other))
            &&& other != key && s.blocks.contains_key(other) ==> t.blocks[other]
                == s.blocks[other]
            &&& t.high_water == s.high_water
            &&& t.ram_budget == s.ram_budget
            &&& s.ram_used + data.len() <= u64::MAX ==> t.ram_used == s.ram_used + data.len()
            &&& (s.ram_used + data.len() - t.ram_used) % (u64::MAX + 1) == 0
        }),
{
}

/// The count can take a write where the sum fits in 64 bits, or where the write
/// is refused before anything is counted.
pub proof fn law_counts_fit(s: StoreView, k: ProtoBlockKey, len: nat)
    ensures
        s.counts(None, len),
        s.counts(Some(k), len) <==> s.ram_used + len <= u64::MAX || (s.high_water.contains_key(
            (k.ino, k.block_idx),
        ) && s.high_water[(k.ino, k.block_idx)] > k.generation),
{
}

/// What is said of a node is what it holds and counts, and a node is the same
/// where its name and its metadata server are.
pub proof fn law_a_node_is_as_it_is_held(s: StoreState, a: &StoreService, b: &StoreService)
    ensures
        a.same_node(b) <==> a.state.node_id == b.state.node_id && a.state.meta_addr
            == b.state.meta_addr,
        s@.blocks == stored_blocks(s.blocks),
        s@.high_water == stored_marks(s.high_water),
        s@.ram_budget == s.ram_budget,
        s@.ram_used == s.ram_used,
{
}

} // verus!
