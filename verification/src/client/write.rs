//! Writing to an open file, block by block.

use bytes::Bytes;
use vstd::prelude::*;

use crate::client::fs::DtmpfsFs;
use crate::client::open_file::{dirty_views, OpenFile, OpenView};
use crate::ordered::{map_get, map_insert, map_remove};
use crate::outside::blob::{
    buffer_extend, buffer_grow, buffer_overwrite, buffer_slice, buffer_view, buffer_with_capacity,
    buffer_zeroed, bytes_slice, bytes_view,
};

verus! {

/// Whether the block `k` holds some of the `len` bytes from `at` on.
pub open spec fn touches(k: int, bs: int, at: int, len: int) -> bool {
    0 < len && k * bs < at + len && at < k * bs + bs
}

/// Whether the `len` bytes from `at` on fill the block `k`.
pub open spec fn fills(k: int, bs: int, at: int, len: int) -> bool {
    at <= k * bs && k * bs + bs <= at + len
}

pub open spec fn zeros(n: nat) -> Seq<u8> {
    Seq::new(n, |i: int| 0u8)
}

/// The block `k` with `data` written to the file at `at`.
pub open spec fn block_written(
    block: Seq<u8>,
    k: int,
    bs: int,
    at: int,
    data: Seq<u8>,
) -> Seq<u8> {
    Seq::new(
        block.len(),
        |i: int|
            if i < bs && at <= k * bs + i < at + data.len() {
                data[k * bs + i - at]
            } else {
                block[i]
            },
    )
}

/// The unpublished blocks with `data` written to the file at `at`. A block that
/// was not there before starts out as zeros.
pub open spec fn written(dirty: Map<u64, Seq<u8>>, bs: nat, at: int, data: Seq<u8>) -> Map<
    u64,
    Seq<u8>,
> {
    Map::new(
        |k: u64| dirty.contains_key(k) || touches(k as int, bs as int, at, data.len() as int),
        |k: u64|
            block_written(
                if dirty.contains_key(k) {
                    dirty[k]
                } else {
                    zeros(bs)
                },
                k as int,
                bs as int,
                at,
                data,
            ),
    )
}

/// Whether positions in a file fit in 64 bits for a write of `len` bytes at
/// `offset`, up to the end of the last block that it touches, and blocks have a
/// size that memory can hold.
pub open spec fn write_fits(offset: u64, len: nat, bs: nat) -> bool {
    &&& len <= u32::MAX
    &&& offset + len <= u64::MAX
    &&& len > 0 ==> 0 < bs <= isize::MAX && (offset + len - 1) / (bs as int) * bs + bs <= u64::MAX
}

/// How far a write has come.
#[derive(Copy, Clone, Debug, PartialEq, Eq, Structural)]
pub struct WriteCursor {
    pub offset: u64,
    pub done: usize,
}

impl WriteCursor {
    pub fn new(offset: u64) -> (c: WriteCursor)
        ensures
            c == (WriteCursor { offset, done: 0 }),
    {
        WriteCursor { offset, done: 0 }
    }
}

/// What a write needs to go on.
#[derive(Copy, Clone, Debug, PartialEq, Eq, Structural)]
pub enum WriteStep {
    /// Nothing: so many bytes were written.
    Done(u32),
    /// The published contents of this block.
    NeedBlock(u64),
}

/// Whether a write of `data` at `offset` that had come to `start` took the file
/// from `before` to `after`, came to `done`, and then gave `step`. It stops at
/// the first block that it does not fill, that was not written to before, and
/// that has been published.
pub open spec fn write_ran(
    before: OpenView,
    start: int,
    after: OpenView,
    done: int,
    step: WriteStep,
    offset: int,
    data: Seq<u8>,
    bs: nat,
) -> bool {
    &&& start <= done <= data.len()
    &&& after.wf(bs)
    &&& after == (OpenView {
        dirty: written(before.dirty, bs, offset + start, data.subrange(start, done)),
        size_hint: if step is Done && offset + data.len() > before.size_hint {
            (offset + data.len()) as u64
        } else {
            before.size_hint
        },
        ..before
    })
    &&& forall|k: u64|
        #![trigger after.dirty.contains_key(k)]
        after.dirty.contains_key(k) && !before.dirty.contains_key(k)
            && before.block_map.contains_key(k) ==> fills(
            k as int,
            bs as int,
            offset + start,
            data.len() - start,
        )
    &&& match step {
        WriteStep::Done(n) => n == data.len() && done == data.len(),
        WriteStep::NeedBlock(idx) => {
            &&& done < data.len()
            &&& idx == (offset + done) / (bs as int)
            &&& !after.dirty.contains_key(idx)
            &&& before.block_map.contains_key(idx)
            &&& !fills(idx as int, bs as int, offset + done, data.len() - done)
        },
    }
}

/// The block in which the file position `p` lies.
pub(crate) proof fn lemma_block_of(p: int, bs: int)
    requires
        0 < bs,
        0 <= p,
    ensures
        p / bs * bs <= p < p / bs * bs + bs,
        0 <= p / bs <= p,
{
    vstd::arithmetic::div_mod::lemma_fundamental_div_mod(p, bs);
    vstd::arithmetic::mul::lemma_mul_is_commutative(bs, p / bs);
    vstd::arithmetic::div_mod::lemma_div_is_ordered_by_denominator(p, 1, bs);
    vstd::arithmetic::div_mod::lemma_div_basics(p);
}

/// Blocks that come earlier end earlier.
pub(crate) proof fn lemma_block_order(a: int, b: int, bs: int)
    requires
        0 < bs,
        a < b,
    ensures
        a * bs + bs <= b * bs,
{
    assert(a * bs + bs <= b * bs) by (nonlinear_arith)
        requires
            0 < bs,
            a < b,
    ;
}

/// One piece more, within one block.
proof fn lemma_written_step(
    dirty: Map<u64, Seq<u8>>,
    bs: nat,
    at: int,
    data: Seq<u8>,
    n: int,
    m: int,
    idx: u64,
)
    requires
        0 < bs,
        0 <= at,
        0 <= n < m <= data.len(),
        idx * bs <= at + n,
        at + m <= idx * bs + bs,
        n == 0 || idx * bs == at + n,
        forall|k: u64|
            #![trigger dirty[k]]
            dirty.contains_key(k) ==> dirty[k].len() >= bs,
    ensures
        ({
            let before = written(dirty, bs, at, data.take(n));
            let was = if before.contains_key(idx) {
                before[idx]
            } else {
                zeros(bs)
            };
            let from = at + n - idx * bs;
            let to = at + m - idx * bs;
            &&& before.contains_key(idx) <==> dirty.contains_key(idx) || (n > 0 && at + n > idx
                * bs)
            &&& was.len() >= bs
            &&& 0 <= from < to <= bs
            &&& written(dirty, bs, at, data.take(m)) == before.insert(
                idx,
                was.take(from) + data.subrange(n, m) + was.skip(to),
            )
        }),
{
    let b = bs as int;
    let before = written(dirty, bs, at, data.take(n));
    let after = written(dirty, bs, at, data.take(m));
    let was = if before.contains_key(idx) {
        before[idx]
    } else {
        zeros(bs)
    };
    let from = at + n - idx * bs;
    let to = at + m - idx * bs;
    let now = was.take(from) + data.subrange(n, m) + was.skip(to);
    assert forall|k: u64| #[trigger] touches(k as int, b, at, m) <==> touches(k as int, b, at, n)
        || k == idx by {
        if k < idx {
            lemma_block_order(k as int, idx as int, b);
        } else if k > idx {
            lemma_block_order(idx as int, k as int, b);
        }
    }
    assert(after.dom() =~= before.insert(idx, now).dom()) by {
        assert forall|k: u64| after.contains_key(k) <==> before.insert(idx, now).contains_key(
            k,
        ) by {
            assert(touches(k as int, b, at, m) <==> touches(k as int, b, at, n) || k == idx);
        }
    }
    assert forall|k: u64| after.contains_key(k) implies #[trigger] after[k] == before.insert(
        idx,
        now,
    )[k] by {
        assert(touches(k as int, b, at, m) <==> touches(k as int, b, at, n) || k == idx);
        if k == idx {
            assert(after[k] =~= now);
        } else {
            if k < idx {
                lemma_block_order(k as int, idx as int, b);
            } else {
                lemma_block_order(idx as int, k as int, b);
            }
            assert(after[k] =~= before[k]);
        }
    }
    assert(after =~= before.insert(idx, now));
}

impl DtmpfsFs {
    /// Writes `data` from the cursor on, as far as it goes without the published
    /// contents of a block: they are needed where a block is written to in part,
    /// for the first time, and has been published before.
    pub fn apply_write(
        &self,
        of: &mut OpenFile,
        cursor: &mut WriteCursor,
        data: &[u8],
    ) -> (step: WriteStep)
        requires
            old(of)@.wf(self.block_size as nat),
            write_fits(old(cursor).offset, data@.len(), self.block_size as nat),
            old(cursor).done <= data@.len(),
        ensures
            final(cursor).offset == old(cursor).offset,
            write_ran(
                old(of)@,
                old(cursor).done as int,
                final(of)@,
                final(cursor).done as int,
                step,
                old(cursor).offset as int,
                data@,
                self.block_size as nat,
            ),
    {
        let block_size: usize = self.block_size;
        let bs: u64 = block_size as u64;
        let offset: u64 = cursor.offset;
        let start: usize = cursor.done;
        let end: u64 = offset + data.len() as u64;
        let ghost first = of@;
        let ghost at = offset + start;
        let ghost tail = data@.skip(start as int);
        let ghost n0 = tail.len();
        proof {
            assert(tail.take(0) =~= Seq::<u8>::empty());
            assert forall|k: u64| first.dirty.contains_key(k) implies #[trigger] written(
                first.dirty,
                bs as nat,
                at as int,
                tail.take(0),
            )[k] == first.dirty[k] by {
                assert(written(first.dirty, bs as nat, at as int, tail.take(0))[k]
                    =~= first.dirty[k]);
            }
            assert(written(first.dirty, bs as nat, at as int, tail.take(0)) =~= first.dirty);
            assert(data@.subrange(start as int, start as int) =~= tail.take(0));
        }
        while cursor.done < data.len()
            invariant
                bs == block_size,
                block_size == self.block_size,
                offset == old(cursor).offset,
                start == old(cursor).done,
                first == old(of)@,
                write_fits(offset, data@.len(), block_size as nat),
                start <= cursor.done <= data@.len(),
                cursor.offset == offset,
                at == offset + start,
                end == offset + data@.len(),
                first.wf(block_size as nat),
                tail == data@.skip(start as int),
                of@ == (OpenView {
                    dirty: written(
                        first.dirty,
                        block_size as nat,
                        at as int,
                        tail.take(cursor.done - start),
                    ),
                    ..first
                }),
                of@.wf(block_size as nat),
                cursor.done > start ==> cursor.done == data@.len() || ((offset + cursor.done) / (
                bs as int)) * bs == offset + cursor.done,
                forall|k: u64|
                    #![trigger of@.dirty.contains_key(k)]
                    of@.dirty.contains_key(k) && !first.dirty.contains_key(k)
                        && first.block_map.contains_key(k) ==> fills(
                        k as int,
                        block_size as int,
                        at as int,
                        data@.len() - start,
                    ),
            decreases data@.len() - cursor.done,
        {
            let cur: u64 = offset + cursor.done as u64;
            let idx: u64 = cur / bs;
            proof {
                lemma_block_of(cur as int, bs as int);
                lemma_block_of(end - 1, bs as int);
                if idx > (end - 1) / (bs as int) {
                    lemma_block_order((end - 1) / (bs as int), idx as int, bs as int);
                } else if idx < (end - 1) / (bs as int) {
                    lemma_block_order(idx as int, (end - 1) / (bs as int), bs as int);
                }
                assert(idx * bs + bs <= u64::MAX);
            }
            let block_off: u64 = idx * bs;
            let in_block: usize = (cur - block_off) as usize;
            let block_end: u64 = block_off + bs;
            let chunk_end: u64 = if block_end < end {
                block_end
            } else {
                end
            };
            let chunk_len: usize = (chunk_end - cur) as usize;
            let ghost n = cursor.done - start;
            let ghost m = n + chunk_len;
            let ghost before = of@;
            proof {
                lemma_written_step(
                    first.dirty,
                    block_size as nat,
                    at as int,
                    tail,
                    n as int,
                    m as int,
                    idx,
                );
            }
            let from: usize = cursor.done;
            let piece = vstd::slice::slice_subrange(data, from, from + chunk_len);
            assert(piece@ =~= tail.subrange(n as int, m as int));
            if !put_piece(of, idx, in_block, piece, block_size) {
                assert(data@.subrange(start as int, cursor.done as int) =~= tail.take(n as int));
                return WriteStep::NeedBlock(idx);
            }
            cursor.done = from + chunk_len;
            proof {
                assert(of@ =~= OpenView {
                    dirty: written(first.dirty, block_size as nat, at as int, tail.take(m as int)),
                    ..first
                });
                if chunk_end == block_end {
                    vstd::arithmetic::div_mod::lemma_div_multiples_vanish(idx + 1, bs as int);
                    vstd::arithmetic::mul::lemma_mul_is_commutative(idx + 1, bs as int);
                    assert((idx + 1) * bs == idx * bs + bs) by (nonlinear_arith);
                }
            }
        }
        proof {
            assert(data@.subrange(start as int, cursor.done as int) =~= tail.take(
                cursor.done - start,
            ));
        }
        let ghost last = of@;
        if of.size_hint < end {
            of.size_hint = end;
        }
        assert forall|k: u64| #[trigger] of@.dirty.contains_key(k) == last.dirty.contains_key(k) by {}
        WriteStep::Done(data.len() as u32)
    }
}

/// Writes one piece to the block `idx`, at `at` within it. A block that was not
/// written to before starts out as zeros where the piece fills it, or where it
/// has not been published; otherwise nothing is written.
fn put_piece(of: &mut OpenFile, idx: u64, at: usize, piece: &[u8], block_size: usize) -> (done: bool)
    requires
        old(of)@.wf(block_size as nat),
        block_size <= isize::MAX,
        at + piece@.len() <= block_size,
    ensures
        final(of)@.wf(block_size as nat),
        done == (old(of)@.dirty.contains_key(idx) || (at == 0 && piece@.len() == block_size)
            || !old(of)@.block_map.contains_key(idx)),
        final(of)@ == if done {
            let was = if old(of)@.dirty.contains_key(idx) {
                old(of)@.dirty[idx]
            } else {
                zeros(block_size as nat)
            };
            OpenView {
                dirty: old(of)@.dirty.insert(
                    idx,
                    was.take(at as int) + piece@ + was.skip(at + piece@.len()),
                ),
                ..old(of)@
            }
        } else {
            old(of)@
        },
{
    let ghost before = of@;
    let present = map_remove(&mut of.dirty, idx);
    let mut buf = match present {
        Some(b) => b,
        None => {
            if !(at == 0 && piece.len() == block_size) && map_get(&of.block_map, idx).is_some() {
                assert(of@ =~= before);
                return false;
            }
            buffer_zeroed(block_size)
        },
    };
    let ghost was = if before.dirty.contains_key(idx) {
        before.dirty[idx]
    } else {
        zeros(block_size as nat)
    };
    assert(buffer_view(buf) =~= was);
    buffer_overwrite(&mut buf, at, at + piece.len(), piece);
    let ghost now = buffer_view(buf);
    map_insert(&mut of.dirty, idx, buf);
    assert(dirty_views(of.dirty@) =~= before.dirty.insert(idx, now));
    true
}

/// A block filled up with zeros to `bs` bytes.
pub open spec fn padded(block: Seq<u8>, bs: nat) -> Seq<u8> {
    if block.len() < bs {
        block + zeros((bs - block.len()) as nat)
    } else {
        block
    }
}

/// A file with the published contents of a block among those to be written to.
pub open spec fn supplied(v: OpenView, idx: u64, block: Seq<u8>, bs: nat) -> OpenView {
    OpenView { dirty: v.dirty.insert(idx, padded(block, bs)), ..v }
}

/// Takes the published contents of a block, to be written to.
pub fn supply_block(of: &mut OpenFile, idx: u64, block: &Bytes, block_size: usize)
    requires
        old(of)@.wf(block_size as nat),
        block_size <= isize::MAX,
    ensures
        final(of)@.wf(block_size as nat),
        final(of)@ == supplied(old(of)@, idx, bytes_view(*block), block_size as nat),
{
    let ghost before = of@;
    let mut bm = buffer_with_capacity(block_size);
    buffer_extend(&mut bm, bytes_slice(block));
    assert(buffer_view(bm) =~= bytes_view(*block));
    if buffer_slice(&bm).len() < block_size {
        buffer_grow(&mut bm, block_size, 0);
    }
    let ghost now = buffer_view(bm);
    map_insert(&mut of.dirty, idx, bm);
    proof {
        assert(now =~= padded(bytes_view(*block), block_size as nat));
        assert(dirty_views(of.dirty@) =~= before.dirty.insert(idx, now));
    }
}

} // verus!
