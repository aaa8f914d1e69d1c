//! The requests that a storage node answers.

use bytes::Bytes;
use vstd::prelude::*;

use crate::error::{Code, Status, StatusView};
use crate::id::{BlockIdx, BlockKey, Generation, InodeId};
use crate::outside::blob::{bytes_slice, bytes_view};
use crate::outside::shards::{
    blocks_entries, blocks_get, blocks_insert, blocks_len, blocks_remove, marks_get, marks_insert,
    marks_remove,
};
use crate::proto::{
    DeleteBlockReq, Empty, ProtoBlockKey, ReadBlockReq, ReadBlockResp, ReplicateReq, StoreStat,
    WriteBlockReq, WriteBlockResp,
};
use crate::store::model::full_key;
use crate::store::state::StoreState;

verus! {

/// A storage node.
pub struct StoreService {
    pub state: StoreState,
}

/// The block that a key on the wire names.
pub fn proto_key_to_block_key(k: &ProtoBlockKey) -> (r: BlockKey)
    ensures
        (r.ino.0, r.block_idx.0, r.generation.0) == full_key(*k),
{
    BlockKey {
        ino: InodeId(k.ino),
        block_idx: BlockIdx(k.block_idx),
        generation: Generation(k.generation),
    }
}

fn missing_key() -> (s: Status)
    ensures
        s@ == crate::store::model::missing_key(),
{
    Status::new(Code::InvalidArgument, "missing key")
}

/// The length of a block.
fn data_len(data: &Bytes) -> (n: u64)
    ensures
        n == bytes_view(*data).len(),
{
    bytes_slice(data).len() as u64
}

/// The outcome of asking another node for a block.
pub enum SourceReply {
    Unreachable(String),
    Failed(Status),
    Answered(ReadBlockResp),
}

/// One line of the list of blocks that a node holds.
#[derive(Debug, PartialEq, Eq)]
pub struct BlockLine {
    pub ino: u64,
    pub idx: u64,
    pub generation: u64,
    pub len: u64,
}

impl StoreService {
    /// Whether only the contents changed.
    pub open spec fn same_node(&self, other: &StoreService) -> bool {
        self.state.node_id == other.state.node_id && self.state.meta_addr == other.state.meta_addr
    }

    /// The whole block that a key names.
    pub fn read_block(&self, r: ReadBlockReq) -> (resp: Result<ReadBlockResp, Status>)
        ensures
            match (resp, self.state@.read(r.key)) {
                (Ok(x), Ok(data)) => bytes_view(x.data) == data && x.len == data.len() as u32,
                (Err(e), Err(s)) => e@ == s,
                _ => false,
            },
    {
        let proto_key = match r.key {
            Some(k) => k,
            None => {
                return Err(missing_key());
            },
        };
        let key = proto_key_to_block_key(&proto_key);
        match blocks_get(&self.state.blocks, (key.ino.0, key.block_idx.0, key.generation.0)) {
            Some(data) => {
                let len: u32 = #[verifier::truncate]
                (data_len(&data) as u32);
                Ok(ReadBlockResp { data, len })
            },
            None => Err(Status::new(Code::NotFound, "block not found")),
        }
    }

    /// Takes a block, unless a later generation of it was taken before, or it
    /// does not fit.
    pub fn write_block(&mut self, r: WriteBlockReq) -> (resp: Result<WriteBlockResp, Status>)
        requires
            old(self).state@.counts(r.key, bytes_view(r.data).len()),
        ensures
            final(self).same_node(old(self)),
            final(self).state@ == old(self).state@.write(r.key, bytes_view(r.data)).0,
            match (resp, old(self).state@.write(r.key, bytes_view(r.data)).1) {
                (Ok(x), Ok(_)) => x.len == bytes_view(r.data).len() as u32,
                (Err(e), Err(s)) => e@ == s,
                _ => false,
            },
    {
        let ghost before = self.state@;
        let proto_key = match r.key {
            Some(k) => k,
            None => {
                return Err(missing_key());
            },
        };
        let key = proto_key_to_block_key(&proto_key);
        let data = r.data;
        let len: u64 = data_len(&data);
        let logical = (key.ino.0, key.block_idx.0);
        let mark = marks_get(&self.state.high_water, logical);
        if let Some(hw) = mark {
            if key.generation.0 < hw {
                return Err(Status::new(Code::FailedPrecondition, "stale generation"));
            }
        }
        if self.state.ram_used + len > self.state.ram_budget {
            return Err(Status::new(Code::ResourceExhausted, "ram budget exceeded"));
        }
        let prev = blocks_insert(
            &mut self.state.blocks,
            (key.ino.0, key.block_idx.0, key.generation.0),
            data,
        );
        let prev_len: u64 = match prev {
            Some(b) => data_len(&b),
            None => 0,
        };
        self.state.ram_used = self.state.ram_used.wrapping_add(len);
        self.state.ram_used = self.state.ram_used.wrapping_sub(prev_len);
        let mark: u64 = match mark {
            Some(hw) => if key.generation.0 > hw {
                key.generation.0
            } else {
                hw
            },
            None => key.generation.0,
        };
        marks_insert(&mut self.state.high_water, logical, mark);
        assert(self.state@ =~= before.write(r.key, bytes_view(r.data)).0);
        let len: u32 = #[verifier::truncate]
        (len as u32);
        Ok(WriteBlockResp { len })
    }

    /// Takes a block as [`StoreService::write_block`] does, where the count of
    /// the bytes in use can take it; else does nothing.
    pub fn try_write_block(&mut self, r: WriteBlockReq) -> (resp: Option<
        Result<WriteBlockResp, Status>,
    >)
        ensures
            final(self).same_node(old(self)),
            resp is Some <==> old(self).state@.counts(r.key, bytes_view(r.data).len()),
            match resp {
                Some(x) => {
                    &&& final(self).state@ == old(self).state@.write(r.key, bytes_view(r.data)).0
                    &&& match (x, old(self).state@.write(r.key, bytes_view(r.data)).1) {
                        (Ok(y), Ok(_)) => y.len == bytes_view(r.data).len() as u32,
                        (Err(e), Err(s)) => e@ == s,
                        _ => false,
                    }
                },
                None => final(self).state@ == old(self).state@,
            },
    {
        if let Some(k) = r.key {
            let stale = match marks_get(&self.state.high_water, (k.ino, k.block_idx)) {
                Some(hw) => k.generation < hw,
                None => false,
            };
            if !stale && self.state.ram_used > u64::MAX - data_len(&r.data) {
                return None;
            }
        }
        Some(self.write_block(r))
    }

    /// Gives a block up.
    pub fn delete_block(&mut self, r: DeleteBlockReq) -> (resp: Result<Empty, Status>)
        ensures
            final(self).same_node(old(self)),
            final(self).state@ == old(self).state@.delete(r.key).0,
            match (resp, old(self).state@.delete(r.key).1) {
                (Ok(_), Ok(_)) => true,
                (Err(e), Err(s)) => e@ == s,
                _ => false,
            },
    {
        let ghost before = self.state@;
        let proto_key = match r.key {
            Some(k) => k,
            None => {
                return Err(missing_key());
            },
        };
        let key = proto_key_to_block_key(&proto_key);
        let prev = blocks_remove(
            &mut self.state.blocks,
            (key.ino.0, key.block_idx.0, key.generation.0),
        );
        if let Some(b) = prev {
            self.state.ram_used = self.state.ram_used.wrapping_sub(data_len(&b));
        }
        marks_remove(&mut self.state.high_water, (key.ino.0, key.block_idx.0));
        assert(self.state@ =~= before.delete(r.key).0);
        Ok(Empty {  })
    }

    /// What to ask the node from which a block is to be copied: its address,
    /// and the request for the whole block.
    pub fn replicate_fetch(r: &ReplicateReq) -> (resp: Result<(String, ReadBlockReq), Status>)
        ensures
            match resp {
                Ok(x) => r.key is Some && x.0@ == r.source_addr@ && x.1.key == r.key && x.1.offset
                    == 0 && x.1.len == 0,
                Err(e) => r.key is None && e@ == crate::store::model::missing_key(),
            },
    {
        match r.key {
            Some(k) => Ok(
                (r.source_addr.clone(), ReadBlockReq { key: Some(k), offset: 0, len: 0 }),
            ),
            None => Err(missing_key()),
        }
    }

    /// Takes the block that another node sent.
    pub fn replicate(&mut self, r: ReplicateReq, reply: SourceReply) -> (resp: Result<
        Empty,
        Status,
    >)
        ensures
            final(self).same_node(old(self)),
            match (r.key, reply) {
                (None, _) => {
                    &&& final(self).state@ == old(self).state@
                    &&& resp matches Err(e) && e@ == crate::store::model::missing_key()
                },
                (Some(_), SourceReply::Unreachable(m)) => {
                    &&& final(self).state@ == old(self).state@
                    &&& resp matches Err(e) && e@ == (StatusView {
                        code: Code::Unavailable,
                        message: m@,
                    })
                },
                (Some(_), SourceReply::Failed(s)) => {
                    &&& final(self).state@ == old(self).state@
                    &&& resp matches Err(e) && e@ == s@
                },
                (Some(k), SourceReply::Answered(x)) => {
                    &&& final(self).state@ == old(self).state@.copied(k, bytes_view(x.data))
                    &&& resp is Ok
                },
            },
    {
        let ghost before = self.state@;
        let proto_key = match r.key {
            Some(k) => k,
            None => {
                return Err(missing_key());
            },
        };
        let key = proto_key_to_block_key(&proto_key);
        match reply {
            SourceReply::Unreachable(m) => Err(Status { code: Code::Unavailable, message: m }),
            SourceReply::Failed(s) => Err(s),
            SourceReply::Answered(x) => {
                let data = x.data;
                self.state.ram_used = self.state.ram_used.wrapping_add(data_len(&data));
                let _prev = blocks_insert(
                    &mut self.state.blocks,
                    (key.ino.0, key.block_idx.0, key.generation.0),
                    data,
                );
                assert(self.state@ =~= before.copied(proto_key, bytes_view(x.data)));
                Ok(Empty {  })
            },
        }
    }

    /// How full the node is.
    pub fn stat(&self) -> (r: StoreStat)
        ensures
            r.node_id@ == self.state.node_id@,
            r.used_bytes == self.state@.ram_used,
            r.capacity_bytes == self.state@.ram_budget,
            r.block_count == self.state@.blocks.dom().len(),
            r.read_bytes_total == 0,
            r.write_bytes_total == 0,
    {
        StoreStat {
            node_id: self.state.node_id.as_str().to_owned(),
            used_bytes: self.state.ram_used,
            capacity_bytes: self.state.ram_budget,
            block_count: blocks_len(&self.state.blocks) as u64,
            read_bytes_total: 0,
            write_bytes_total: 0,
        }
    }

    /// One line for each block, in no particular order.
    pub fn block_lines(&self) -> (r: Vec<BlockLine>)
        ensures
            r@.len() == self.state@.blocks.dom().len(),
            forall|i: int|
                #![trigger r@[i]]
                0 <= i < r@.len() ==> {
                    let k = (r@[i].ino, r@[i].idx, r@[i].generation);
                    self.state@.blocks.contains_key(k) && r@[i].len == self.state@.blocks[k].len()
                },
            forall|i: int, j: int|
                #![trigger r@[i], r@[j]]
                0 <= i < j < r@.len() ==> (r@[i].ino, r@[i].idx, r@[i].generation) != (
                    r@[j].ino,
                    r@[j].idx,
                    r@[j].generation,
                ),
    {
        let entries = blocks_entries(&self.state.blocks);
        let out = lines_of(&entries);
        assert forall|a: int, b: int|
            #![trigger out@[a], out@[b]]
            0 <= a < b < out@.len() implies (out@[a].ino, out@[a].idx, out@[a].generation) != (
            out@[b].ino,
            out@[b].idx,
            out@[b].generation,
        ) by {
            assert(entries@[a].0 != entries@[b].0);
        }
        out
    }
}

/// One line for each of the blocks, in their order.
pub fn lines_of(entries: &Vec<((u64, u64, u64), Bytes)>) -> (r: Vec<BlockLine>)
    ensures
        r@.len() == entries@.len(),
        forall|i: int|
            #![trigger r@[i]]
            0 <= i < r@.len() ==> (r@[i].ino, r@[i].idx, r@[i].generation) == entries@[i].0
                && r@[i].len == bytes_view(entries@[i].1).len(),
{
    let mut out: Vec<BlockLine> = Vec::new();
    let mut i: usize = 0;
    while i < entries.len()
        invariant
            i <= entries@.len(),
            out@.len() == i,
            forall|j: int|
                #![trigger out@[j]]
                0 <= j < i ==> (out@[j].ino, out@[j].idx, out@[j].generation) == entries@[j].0
                    && out@[j].len == bytes_view(entries@[j].1).len(),
        decreases entries.len() - i,
    {
        let key = entries[i].0;
        out.push(
            BlockLine { ino: key.0, idx: key.1, generation: key.2, len: data_len(&entries[i].1) },
        );
        i += 1;
    }
    out
}

} // verus!
