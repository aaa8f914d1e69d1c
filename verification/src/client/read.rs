//! Reading from an open file, block by block.

use vstd::prelude::*;

use crate::client::open_file::{OpenFile, OpenView};
use crate::client::write::{lemma_block_of, lemma_block_order, zeros};
use crate::ordered::map_get;

verus! {

/// The `n` bytes of a file from `offset` on, where `blocks` are its contents. A
/// block that is not there reads as zeros, and so does what a block lacks.
pub open spec fn read_bytes(blocks: Map<u64, Seq<u8>>, bs: nat, offset: int, n: nat) -> Seq<u8> {
    Seq::new(
        n,
        |i: int|
            {
                let k = ((offset + i) / (bs as int)) as u64;
                let j = (offset + i) % (bs as int);
                if blocks.contains_key(k) && j < blocks[k].len() {
                    blocks[k][j]
                } else {
                    0u8
                }
            },
    )
}

/// Whether positions in a file fit in 64 bits for a read of `size` bytes at
/// `offset`, up to the end of the last block that it touches, and blocks have a
/// size.
pub open spec fn read_fits(offset: u64, size: u32, bs: nat) -> bool {
    &&& offset + size <= u64::MAX
    &&& size > 0 ==> 0 < bs && (offset + size - 1) / (bs as int) * bs + bs <= u64::MAX
}

impl OpenView {
    /// Whether the block `k` was written to or published.
    pub open spec fn mapped(self, k: u64) -> bool {
        self.block_map.contains_key(k) || self.dirty.contains_key(k)
    }
}

/// How far a read has come, and what it got.
pub struct ReadCursor {
    pub offset: u64,
    pub size: u32,
    pub buf: Vec<u8>,
}

/// The part of a block from `from` on that a read takes: `want` bytes, zeros
/// where the block ends before.
pub open spec fn block_piece(block: Seq<u8>, from: int, want: nat) -> Seq<u8> {
    Seq::new(
        want,
        |i: int|
            if from + i < block.len() {
                block[from + i]
            } else {
                0u8
            },
    )
}

/// How many bytes a read takes from the block at its position.
pub open spec fn want_at(offset: int, size: int, done: int, bs: int) -> int {
    let block_end = (offset + done) / bs * bs + bs;
    if block_end < offset + size {
        block_end - (offset + done)
    } else {
        size - done
    }
}

impl ReadCursor {
    pub open spec fn fits(&self, bs: nat) -> bool {
        read_fits(self.offset, self.size, bs) && self.buf@.len() <= self.size
    }

    /// Whether what was read so far is what `blocks` hold.
    pub open spec fn shows(&self, blocks: Map<u64, Seq<u8>>, bs: nat) -> bool {
        self.buf@ == read_bytes(blocks, bs, self.offset as int, self.buf@.len())
    }

    pub fn new(offset: u64, size: u32) -> (c: ReadCursor)
        ensures
            c.offset == offset,
            c.size == size,
            c.buf@.len() == 0,
            forall|blocks: Map<u64, Seq<u8>>, bs: nat| #[trigger] c.shows(blocks, bs),
    {
        let c = ReadCursor { offset, size, buf: Vec::new() };
        assert forall|blocks: Map<u64, Seq<u8>>, bs: nat| #[trigger] c.shows(blocks, bs) by {
            assert(c.buf@ =~= read_bytes(blocks, bs, offset as int, 0));
        }
        c
    }

    /// Goes on over blocks that are not there, and returns the first one that
    /// is; none where the read is complete.
    pub fn advance(&mut self, of: &OpenFile, block_size: usize) -> (r: Option<u64>)
        requires
            old(self).fits(block_size as nat),
        ensures
            final(self).fits(block_size as nat),
            final(self).offset == old(self).offset,
            final(self).size == old(self).size,
            old(self).buf@.len() <= final(self).buf@.len(),
            final(self).buf@ == old(self).buf@ + zeros(
                (final(self).buf@.len() - old(self).buf@.len()) as nat,
            ),
            match r {
                None => final(self).buf@.len() == final(self).size,
                Some(idx) => {
                    &&& final(self).buf@.len() < final(self).size
                    &&& idx == (final(self).offset + final(self).buf@.len()) / (block_size as int)
                    &&& of@.mapped(idx)
                },
            },
            forall|blocks: Map<u64, Seq<u8>>|
                #![trigger old(self).shows(blocks, block_size as nat)]
                old(self).shows(blocks, block_size as nat) && (forall|k: u64| #[trigger]
                    blocks.contains_key(k) ==> of@.mapped(k)) ==> final(self).shows(
                    blocks,
                    block_size as nat,
                ),
            forall|i: int|
                old(self).buf@.len() <= i < final(self).buf@.len() ==> !#[trigger] of@.mapped(
                    ((final(self).offset + i) / (block_size as int)) as u64,
                ),
    {
        let bs: u64 = block_size as u64;
        let off: u64 = self.offset;
        let end: u64 = off + self.size as u64;
        let ghost first = self.buf@;
        loop
            invariant
                bs == block_size,
                off == old(self).offset,
                first == old(self).buf@,
                self.offset == old(self).offset,
                self.size == old(self).size,
                self.fits(block_size as nat),
                end == off + self.size,
                first.len() <= self.buf@.len(),
                self.buf@ == first + zeros((self.buf@.len() - first.len()) as nat),
                forall|i: int|
                    first.len() <= i < self.buf@.len() ==> !#[trigger] of@.mapped(
                        ((off + i) / (block_size as int)) as u64,
                    ),
            decreases self.size - self.buf@.len(),
        {
            let done: u64 = self.buf.len() as u64;
            let cur: u64 = off + done;
            if cur >= end {
                proof {
                    lemma_hole(of@, block_size as nat, off, first, self.buf@);
                }
                return None;
            }
            let idx: u64 = cur / bs;
            if map_get(&of.block_map, idx).is_some() || map_get(&of.dirty, idx).is_some() {
                proof {
                    lemma_hole(of@, block_size as nat, off, first, self.buf@);
                }
                return Some(idx);
            }
            let want: usize = self.want(block_size);
            let ghost before = self.buf@;
            self.push_zeros(want);
            proof {
                assert(self.buf@ =~= first + zeros((self.buf@.len() - first.len()) as nat));
                assert forall|i: int| first.len() <= i < self.buf@.len() implies !#[trigger] of@.mapped(
                    ((off + i) / (block_size as int)) as u64,
                ) by {
                    if i >= before.len() {
                        lemma_same_block(
                            off as int,
                            self.size as int,
                            before.len() as int,
                            i,
                            bs as int,
                        );
                    }
                }
            }
        }
    }

    /// How many bytes come from the block at the position.
    fn want(&self, block_size: usize) -> (n: usize)
        requires
            self.fits(block_size as nat),
            self.buf@.len() < self.size,
        ensures
            n == want_at(
                self.offset as int,
                self.size as int,
                self.buf@.len() as int,
                block_size as int,
            ),
            0 < n <= block_size,
            self.buf@.len() + n <= self.size,
    {
        let bs: u64 = block_size as u64;
        let end: u64 = self.offset + self.size as u64;
        let cur: u64 = self.offset + self.buf.len() as u64;
        let idx: u64 = cur / bs;
        proof {
            lemma_last_block(self.offset as int, self.size as int, cur as int, bs as int);
            lemma_block_of(cur as int, bs as int);
        }
        let blk_off: u64 = idx * bs;
        let blk_end: u64 = blk_off + bs;
        let stop: u64 = if blk_end < end {
            blk_end
        } else {
            end
        };
        (stop - cur) as usize
    }

    fn push_zeros(&mut self, n: usize)
        requires
            old(self).buf@.len() + n <= u32::MAX,
        ensures
            final(self).buf@ == old(self).buf@ + zeros(n as nat),
            final(self).offset == old(self).offset,
            final(self).size == old(self).size,
    {
        let len: usize = self.buf.len();
        self.buf.resize(len + n, 0);
        assert(self.buf@ =~= old(self).buf@ + zeros(n as nat));
    }

    /// Takes the contents of the block at the position.
    pub fn supply(&mut self, block: &[u8], block_size: usize)
        requires
            old(self).fits(block_size as nat),
            old(self).buf@.len() < old(self).size,
        ensures
            final(self).fits(block_size as nat),
            final(self).offset == old(self).offset,
            final(self).size == old(self).size,
            final(self).buf@ == old(self).buf@ + block_piece(
                block@,
                (old(self).offset + old(self).buf@.len()) % (block_size as int),
                want_at(
                    old(self).offset as int,
                    old(self).size as int,
                    old(self).buf@.len() as int,
                    block_size as int,
                ) as nat,
            ),
            forall|blocks: Map<u64, Seq<u8>>|
                #![trigger old(self).shows(blocks, block_size as nat)]
                ({
                    let k = ((old(self).offset + old(self).buf@.len()) / (
                    block_size as int)) as u64;
                    old(self).shows(blocks, block_size as nat) && blocks.contains_key(k)
                        && blocks[k] == block@
                }) ==> final(self).shows(blocks, block_size as nat),
            final(self).buf@.len() > old(self).buf@.len(),
    {
        let want: usize = self.want(block_size);
        let bs: u64 = block_size as u64;
        let cur: u64 = self.offset + self.buf.len() as u64;
        let in_block: usize = (cur % bs) as usize;
        let avail: usize = if block.len() > in_block {
            block.len() - in_block
        } else {
            0
        };
        let take: usize = if want < avail {
            want
        } else {
            avail
        };
        let ghost first = self.buf@;
        let ghost done = first.len();
        proof {
            lemma_block_of(cur as int, bs as int);
        }
        if take > 0 {
            let piece = vstd::slice::slice_subrange(block, in_block, in_block + take);
            self.buf.extend_from_slice(piece);
        }
        if take < want {
            self.push_zeros(want - take);
        }
        proof {
            assert(self.buf@ =~= first + block_piece(block@, in_block as int, want as nat));
            assert forall|blocks: Map<u64, Seq<u8>>|
                #![trigger old(self).shows(blocks, block_size as nat)]
                ({
                    let k = (cur as int / (block_size as int)) as u64;
                    old(self).shows(blocks, block_size as nat) && blocks.contains_key(k)
                        && blocks[k] == block@
                }) implies self.shows(blocks, block_size as nat) by {
                let k = (cur as int / (block_size as int)) as u64;
                let all = read_bytes(
                    blocks,
                    block_size as nat,
                    self.offset as int,
                    self.buf@.len(),
                );
                assert forall|i: int| 0 <= i < self.buf@.len() implies self.buf@[i] == all[i] by {
                    if i < done {
                        assert(first[i] == read_bytes(
                            blocks,
                            block_size as nat,
                            self.offset as int,
                            done,
                        )[i]);
                    } else {
                        lemma_same_block(
                            self.offset as int,
                            self.size as int,
                            done as int,
                            i,
                            bs as int,
                        );
                    }
                }
                assert(self.buf@ =~= all);
            }
        }
    }
}

/// The block at a position within a read ends where positions still fit.
proof fn lemma_last_block(offset: int, size: int, cur: int, bs: int)
    requires
        0 < bs,
        0 <= offset <= cur < offset + size,
        (offset + size - 1) / bs * bs + bs <= u64::MAX,
    ensures
        cur / bs * bs + bs <= u64::MAX,
{
    lemma_block_of(cur, bs);
    lemma_block_of(offset + size - 1, bs);
    if cur / bs > (offset + size - 1) / bs {
        lemma_block_order((offset + size - 1) / bs, cur / bs, bs);
    } else if cur / bs < (offset + size - 1) / bs {
        lemma_block_order(cur / bs, (offset + size - 1) / bs, bs);
    }
}

/// The positions that a read takes from one block lie in that block.
proof fn lemma_same_block(offset: int, size: int, done: int, i: int, bs: int)
    requires
        0 < bs,
        0 <= offset,
        0 <= done <= i < done + want_at(offset, size, done, bs),
        done < size,
    ensures
        (offset + i) / bs == (offset + done) / bs,
        (offset + i) % bs == (offset + done) % bs + (i - done),
{
    let q = (offset + done) / bs;
    lemma_block_of(offset + done, bs);
    let r = offset + i - q * bs;
    assert(0 <= r < bs);
    vstd::arithmetic::div_mod::lemma_fundamental_div_mod_converse(offset + i, bs, q, r);
    vstd::arithmetic::div_mod::lemma_fundamental_div_mod_converse(
        offset + done,
        bs,
        q,
        offset + done - q * bs,
    );
}

/// Zeros read over blocks that are not there are what those blocks hold.
proof fn lemma_hole(v: OpenView, bs: nat, offset: u64, first: Seq<u8>, now: Seq<u8>)
    requires
        now == first + zeros((now.len() - first.len()) as nat),
        first.len() <= now.len(),
        forall|i: int|
            first.len() <= i < now.len() ==> !#[trigger] v.mapped(
                ((offset + i) / (bs as int)) as u64,
            ),
    ensures
        forall|blocks: Map<u64, Seq<u8>>|
            #![trigger read_bytes(blocks, bs, offset as int, first.len())]
            first == read_bytes(blocks, bs, offset as int, first.len()) && (forall|k: u64|
                #[trigger]
                blocks.contains_key(k) ==> v.mapped(k)) ==> now == read_bytes(
                blocks,
                bs,
                offset as int,
                now.len(),
            ),
{
    assert forall|blocks: Map<u64, Seq<u8>>|
        #![trigger read_bytes(blocks, bs, offset as int, first.len())]
        first == read_bytes(blocks, bs, offset as int, first.len()) && (forall|k: u64| #[trigger]
            blocks.contains_key(k) ==> v.mapped(k)) implies now == read_bytes(
        blocks,
        bs,
        offset as int,
        now.len(),
    ) by {
        let all = read_bytes(blocks, bs, offset as int, now.len());
        assert forall|i: int| 0 <= i < now.len() implies now[i] == all[i] by {
            if i < first.len() {
                assert(first[i] == read_bytes(blocks, bs, offset as int, first.len())[i]);
            } else {
                let k = ((offset + i) / (bs as int)) as u64;
                assert(!v.mapped(k));
                assert(!blocks.contains_key(k));
            }
        }
        assert(now =~= all);
    }
}

} // verus!
