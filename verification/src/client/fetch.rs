//! Getting hold of a block: from what was written, from the cache, or from the
//! storage nodes that hold it.

use bytes::Bytes;
use moka::sync::Cache;
use vstd::prelude::*;

use crate::client::fs::DtmpfsFs;
use crate::client::open_file::{OpenFile, OpenView};
use crate::client::write::zeros;
use crate::error::{Code, DtmpfsError, ErrorView, Status, StatusView};
use crate::id::{all_holders, holders, node_names, NodeId};
use crate::ordered::map_get;
use crate::outside::blob::{
    buffer_slice, bytes_clone, bytes_from_slice, bytes_from_vec, bytes_slice, bytes_view,
};
use crate::outside::cache::{
    block_cache_capacity, block_cache_get, block_cache_insert, block_cache_prunes, cached_blocks,
};
use crate::proto::{ProtoBlockKey, ReadBlockReq, ReadBlockResp};

verus! {

/// Where the search for a block begins.
#[derive(Debug, PartialEq, Eq)]
pub enum FetchStart {
    /// It is over: here is the block.
    Ready(Bytes),
    /// With the question where the storage nodes are.
    NeedAddrs,
    /// With the storage nodes.
    Ask,
}

impl DtmpfsFs {
    /// Looks for the block `idx` in what was written, and then in the cache.
    pub fn fetch_block(&self, of: &OpenFile, idx: u64) -> (r: FetchStart)
        ensures
            of@.dirty.contains_key(idx) ==> (r matches FetchStart::Ready(b) && bytes_view(b)
                == of@.dirty[idx]),
            !of@.dirty.contains_key(idx) ==> match r {
                FetchStart::Ready(b) => {
                    let k = (of@.ino, of@.generation, idx);
                    cached_blocks(self.block_cache).contains_key(k) && bytes_view(b)
                        == cached_blocks(self.block_cache)[k]
                },
                FetchStart::NeedAddrs => self.stores@ == Map::<Seq<char>, Seq<char>>::empty(),
                FetchStart::Ask => self.stores@ != Map::<Seq<char>, Seq<char>>::empty(),
            },
    {
        if let Some(buf) = map_get(&of.dirty, idx) {
            return FetchStart::Ready(bytes_from_slice(buffer_slice(buf)));
        }
        let cached = block_cache_get(&self.block_cache, (of.ino.0, of.generation.0, idx));
        after_cache(cached, self.stores.is_empty())
    }
}

/// Where the search goes on for a block that was not written to: `cached` is
/// what the cache gave.
pub fn after_cache(cached: Option<Bytes>, addrs_unknown: bool) -> (r: FetchStart)
    ensures
        r == match cached {
            Some(b) => FetchStart::Ready(b),
            None => if addrs_unknown {
                FetchStart::NeedAddrs
            } else {
                FetchStart::Ask
            },
        },
{
    match cached {
        Some(b) => FetchStart::Ready(b),
        None => if addrs_unknown {
            FetchStart::NeedAddrs
        } else {
            FetchStart::Ask
        },
    }
}

/// What came of asking a storage node for a block.
pub enum ReadReply {
    /// There was no way to ask.
    NoClient(DtmpfsError),
    Failed(Status),
    Answered(ReadBlockResp),
}

/// What a [`ReadReply`] says, as mathematical values.
pub enum ReadReplyView {
    NoClient(ErrorView),
    Failed(StatusView),
    Answered(Seq<u8>),
}

impl View for ReadReply {
    type V = ReadReplyView;

    open spec fn view(&self) -> ReadReplyView {
        match *self {
            ReadReply::NoClient(e) => ReadReplyView::NoClient(e@),
            ReadReply::Failed(s) => ReadReplyView::Failed(s@),
            ReadReply::Answered(r) => ReadReplyView::Answered(bytes_view(r.data)),
        }
    }
}

/// The search for a block among the nodes that hold it.
pub struct Fetch {
    pub ino: u64,
    pub generation: u64,
    pub idx: u64,
    pub nodes: Vec<NodeId>,
    pub pos: usize,
    pub last_err: DtmpfsError,
}

/// What is known of a [`Fetch`], as mathematical values.
#[verifier::ext_equal]
pub struct FetchView {
    pub ino: u64,
    pub generation: u64,
    pub idx: u64,
    pub nodes: Seq<Seq<char>>,
    pub pos: nat,
    pub last_err: ErrorView,
}

impl View for Fetch {
    type V = FetchView;

    open spec fn view(&self) -> FetchView {
        FetchView {
            ino: self.ino,
            generation: self.generation,
            idx: self.idx,
            nodes: node_names(self.nodes@),
            pos: self.pos as nat,
            last_err: self.last_err@,
        }
    }
}

/// What a reply leads to: the block, or the next node.
pub enum FetchNext {
    Done(Bytes),
    /// Go on; `evict` says whether the connection to the node is of no use.
    TryNext { evict: bool },
}

impl FetchView {
    /// The search when it begins.
    pub open spec fn begun(v: OpenView, idx: u64) -> FetchView {
        FetchView {
            ino: v.ino,
            generation: v.generation,
            idx,
            nodes: holders(v.block_map[idx]),
            pos: 0,
            last_err: ErrorView::StoreUnavailable(v.block_map[idx].primary),
        }
    }

    /// The search after a reply, and the block where it has come to its end.
    pub open spec fn after(self, reply: ReadReplyView, bs: nat) -> (FetchView, Option<Seq<u8>>) {
        match reply {
            ReadReplyView::NoClient(e) => (
                FetchView { pos: self.pos + 1, last_err: e, ..self },
                None,
            ),
            ReadReplyView::Answered(data) => (self, Some(data)),
            ReadReplyView::Failed(s) => if s.code == Code::NotFound {
                (self, Some(zeros(bs)))
            } else {
                (
                    FetchView {
                        pos: self.pos + 1,
                        last_err: ErrorView::StoreUnavailable(self.nodes[self.pos as int]),
                        ..self
                    },
                    None,
                )
            },
        }
    }

    /// What the whole search gives, where `replies` are the answers of the
    /// nodes from here on.
    pub open spec fn outcome(self, replies: Seq<ReadReplyView>, bs: nat) -> Result<
        Seq<u8>,
        ErrorView,
    >
        decreases replies.len(),
    {
        if replies.len() == 0 || self.pos >= self.nodes.len() {
            Err(self.last_err)
        } else {
            match self.after(replies[0], bs).1 {
                Some(data) => Ok(data),
                None => self.after(replies[0], bs).0.outcome(replies.drop_first(), bs),
            }
        }
    }
}

impl Fetch {
    /// Begins to ask the nodes that hold the block `idx`.
    pub fn start(of: &OpenFile, idx: u64) -> (r: Result<Fetch, DtmpfsError>)
        ensures
            match r {
                Ok(f) => of@.block_map.contains_key(idx) && f@ == FetchView::begun(of@, idx),
                Err(e) => !of@.block_map.contains_key(idx) && e@ == ErrorView::NotFound,
            },
    {
        match map_get(&of.block_map, idx) {
            None => Err(DtmpfsError::NotFound),
            Some(p) => {
                Ok(
                    Fetch {
                        ino: of.ino.0,
                        generation: of.generation.0,
                        idx,
                        nodes: all_holders(p),
                        pos: 0,
                        last_err: DtmpfsError::StoreUnavailable(p.primary.clone()),
                    },
                )
            },
        }
    }

    /// The node to ask next, with the request; none where all were asked.
    pub fn next(&self) -> (r: Option<(NodeId, ReadBlockReq)>)
        ensures
            match r {
                Some(x) => {
                    &&& self@.pos < self@.nodes.len()
                    &&& x.0@ == self@.nodes[self@.pos as int]
                    &&& x.1.key == Some(
                        ProtoBlockKey { ino: self.ino, block_idx: self.idx, generation: 0 },
                    )
                    &&& x.1.offset == 0
                    &&& x.1.len == 0
                },
                None => self@.pos >= self@.nodes.len(),
            },
    {
        if self.pos < self.nodes.len() {
            let key = ProtoBlockKey { ino: self.ino, block_idx: self.idx, generation: 0 };
            Some(
                (self.nodes[self.pos].clone(), ReadBlockReq { key: Some(key), offset: 0, len: 0 }),
            )
        } else {
            None
        }
    }

    /// Takes the reply of the node that was asked. A block that came is put
    /// into the cache; one that the node does not hold reads as zeros.
    pub fn on_reply(
        &mut self,
        reply: ReadReply,
        cache: &mut Cache<(u64, u64, u64), Bytes>,
        block_size: usize,
    ) -> (r: FetchNext)
        requires
            old(self).pos < old(self).nodes.len(),
            reply@ matches ReadReplyView::Failed(s) ==> (s.code == Code::NotFound ==> block_size
                <= isize::MAX),
        ensures
            final(self)@ == old(self)@.after(reply@, block_size as nat).0,
            match r {
                FetchNext::Done(b) => old(self)@.after(reply@, block_size as nat).1 == Some(
                    bytes_view(b),
                ),
                FetchNext::TryNext { evict } => {
                    &&& old(self)@.after(reply@, block_size as nat).1 is None
                    &&& evict == (reply is Failed)
                },
            },
            cached_blocks(*final(cache)) == match reply {
                ReadReply::Answered(x) => cached_blocks(*old(cache)).insert(
                    (old(self).ino, old(self).generation, old(self).idx),
                    bytes_view(x.data),
                ),
                _ => cached_blocks(*old(cache)),
            },
            block_cache_capacity(*final(cache)) == block_cache_capacity(*old(cache)),
            block_cache_prunes(*final(cache)) == block_cache_prunes(*old(cache)),
    {
        match reply {
            ReadReply::NoClient(e) => {
                self.last_err = e;
                self.pos = self.pos + 1;
                FetchNext::TryNext { evict: false }
            },
            ReadReply::Answered(x) => {
                let b = bytes_from_vec(vstd::slice::slice_to_vec(bytes_slice(&x.data)));
                block_cache_insert(
                    cache,
                    (self.ino, self.generation, self.idx),
                    bytes_clone(&b),
                );
                FetchNext::Done(b)
            },
            ReadReply::Failed(s) => {
                if s.code == Code::NotFound {
                    let mut v: Vec<u8> = Vec::new();
                    v.resize(block_size, 0);
                    assert(v@ =~= zeros(block_size as nat));
                    FetchNext::Done(bytes_from_vec(v))
                } else {
                    self.last_err = DtmpfsError::StoreUnavailable(self.nodes[self.pos].clone());
                    self.pos = self.pos + 1;
                    FetchNext::TryNext { evict: true }
                }
            },
        }
    }

    /// Why the search failed, once every node was asked.
    pub fn give_up(self) -> (e: DtmpfsError)
        ensures
            e@ == self@.last_err,
    {
        self.last_err
    }
}

} // verus!
