//! Publishing what was written to an open file.

use bytes::Bytes;
use vstd::prelude::*;

use crate::client::fs::DtmpfsFs;
use crate::client::open_file::{add_locations, dirty_views, with_locations, OpenFile, OpenView};
use crate::client::pool::addr_map;
use crate::error::{error_of_status, DtmpfsError, ErrorView, Status, StatusView};
use crate::id::{
    all_holders, holders, node_names, BlockPlacement, Generation, NodeId, PlacementView,
};
use crate::ordered::{ascending, map_get, map_remove, sorted_keys};
use crate::outside::blob::{buffer_freeze, bytes_clone, bytes_view};
use crate::outside::cache::{block_cache_capacity, block_cache_discard, cached_blocks, pruned};
use crate::proto::{
    block_map_view, node_list_view, AllocReq, AllocResp, Attr, CloseReq, CloseResp, NodeList,
    ProtoBlockKey, ProtoNodeView, WriteBlockReq,
};
use crate::time::Timestamp;

verus! {

/// Whether a publication waits for the replicas.
#[derive(Copy, Clone, Debug, PartialEq, Eq, Structural)]
pub enum WaitPolicy {
    PrimariesOnly,
    AllReplicas,
}

/// What came of asking a storage node to take a block.
pub enum WriteReply {
    /// There was no way to ask.
    NoClient(DtmpfsError),
    Failed(Status),
    Written,
}

/// The sending of one block to the nodes that hold it.
pub struct BlockJob {
    pub ino: u64,
    pub idx: u64,
    /// The nodes, the primary first; none where the block has no place.
    pub nodes: Option<Vec<NodeId>>,
    pub data: Bytes,
    pub wait: WaitPolicy,
    pub pos: usize,
}

/// What is known of a [`BlockJob`], as mathematical values.
#[verifier::ext_equal]
pub struct JobView {
    pub ino: u64,
    pub idx: u64,
    pub nodes: Option<Seq<Seq<char>>>,
    pub data: Seq<u8>,
    pub wait: WaitPolicy,
    pub pos: nat,
}

impl View for BlockJob {
    type V = JobView;

    open spec fn view(&self) -> JobView {
        JobView {
            ino: self.ino,
            idx: self.idx,
            nodes: match self.nodes {
                Some(v) => Some(node_names(v@)),
                None => None,
            },
            data: bytes_view(self.data),
            wait: self.wait,
            pos: self.pos as nat,
        }
    }
}

/// What the sending of a block does next.
#[derive(Debug, PartialEq, Eq)]
pub enum JobStep {
    Fail(DtmpfsError),
    /// Send the block to this node, and wait.
    Write(NodeId),
    /// It is over; send the block to these nodes without waiting.
    Finish(Vec<NodeId>),
}

/// What a [`JobStep`] says, as mathematical values.
pub enum JobStepView {
    Fail(ErrorView),
    Write(Seq<char>),
    Finish(Seq<Seq<char>>),
}

impl View for JobStep {
    type V = JobStepView;

    open spec fn view(&self) -> JobStepView {
        match *self {
            JobStep::Fail(e) => JobStepView::Fail(e@),
            JobStep::Write(n) => JobStepView::Write(n@),
            JobStep::Finish(v) => JobStepView::Finish(node_names(v@)),
        }
    }
}

impl JobView {
    /// The primary comes first. Then come the replicas, one by one where they
    /// are waited for, all at once where they are not.
    pub open spec fn step(self) -> JobStepView {
        match self.nodes {
            None => JobStepView::Fail(ErrorView::NotFound),
            Some(nodes) => if self.pos >= nodes.len() {
                JobStepView::Finish(Seq::empty())
            } else if self.pos == 0 || self.wait == WaitPolicy::AllReplicas {
                JobStepView::Write(nodes[self.pos as int])
            } else {
                JobStepView::Finish(nodes.skip(self.pos as int))
            },
        }
    }
}

impl BlockJob {
    /// What to do next.
    pub fn next(&self) -> (r: JobStep)
        ensures
            r@ == self@.step(),
    {
        match &self.nodes {
            None => JobStep::Fail(DtmpfsError::NotFound),
            Some(nodes) => {
                if self.pos >= nodes.len() {
                    let none: Vec<NodeId> = Vec::new();
                    assert(node_names(none@) =~= Seq::empty());
                    JobStep::Finish(none)
                } else if self.pos == 0 || self.wait == WaitPolicy::AllReplicas {
                    JobStep::Write(nodes[self.pos].clone())
                } else {
                    let mut rest: Vec<NodeId> = Vec::new();
                    let mut i: usize = self.pos;
                    let ghost all = node_names(nodes@);
                    while i < nodes.len()
                        invariant
                            self.pos <= i <= nodes@.len(),
                            all == node_names(nodes@),
                            node_names(rest@) == all.subrange(self.pos as int, i as int),
                        decreases nodes.len() - i,
                    {
                        let ghost before = rest@;
                        rest.push(nodes[i].clone());
                        assert(node_names(rest@) =~= node_names(before).push(all[i as int]));
                        assert(node_names(rest@) =~= all.subrange(self.pos as int, i + 1));
                        i += 1;
                    }
                    assert(all.subrange(self.pos as int, i as int) =~= all.skip(self.pos as int));
                    JobStep::Finish(rest)
                }
            },
        }
    }

    /// The request that goes to each node.
    pub fn request(&self) -> (r: WriteBlockReq)
        ensures
            r.key == Some(ProtoBlockKey { ino: self.ino, block_idx: self.idx, generation: 0 }),
            bytes_view(r.data) == self@.data,
    {
        WriteBlockReq {
            key: Some(ProtoBlockKey { ino: self.ino, block_idx: self.idx, generation: 0 }),
            data: bytes_clone(&self.data),
        }
    }

    /// Takes the reply of the node that was asked.
    pub fn on_reply(&mut self, reply: WriteReply) -> (r: Result<(), DtmpfsError>)
        requires
            old(self).nodes matches Some(v) && old(self).pos < v.len(),
        ensures
            match (reply, r) {
                (WriteReply::Written, Ok(_)) => final(self)@ == (JobView {
                    pos: old(self)@.pos + 1,
                    ..old(self)@
                }),
                (WriteReply::NoClient(e), Err(f)) => f@ == e@ && final(self)@ == old(self)@,
                (WriteReply::Failed(s), Err(f)) => f@ == error_of_status(
                    s@,
                    Some(old(self)@.nodes->0[old(self)@.pos as int]),
                ) && final(self)@ == old(self)@,
                _ => false,
            },
    {
        match reply {
            WriteReply::Written => {
                self.pos = self.pos + 1;
                Ok(())
            },
            WriteReply::NoClient(e) => Err(e),
            WriteReply::Failed(s) => {
                let node = match &self.nodes {
                    Some(v) => Some(v[self.pos].clone()),
                    None => None,
                };
                Err(DtmpfsError::from_status(s, node))
            },
        }
    }
}

/// Where a publication stands.
#[derive(Copy, Clone, Debug, PartialEq, Eq, Structural)]
pub enum PublishStage {
    Begin,
    AwaitNodes,
    AwaitPlaces,
    AwaitWrites,
    AwaitClose,
    Over,
}

/// What a publication hears.
pub enum PublishEvent {
    Start,
    Nodes(Result<NodeList, Status>),
    Places(Result<AllocResp, Status>),
    Written(Result<(), DtmpfsError>),
    Closed(Result<CloseResp, Status>),
}

/// What a [`PublishEvent`] says, as mathematical values.
pub enum PublishEventView {
    Start,
    Nodes(Result<Seq<ProtoNodeView>, StatusView>),
    Places(Result<Seq<(u64, PlacementView)>, StatusView>),
    Written(Result<(), ErrorView>),
    Closed(Result<Option<Attr>, StatusView>),
}

impl View for PublishEvent {
    type V = PublishEventView;

    open spec fn view(&self) -> PublishEventView {
        match *self {
            PublishEvent::Start => PublishEventView::Start,
            PublishEvent::Nodes(Ok(l)) => PublishEventView::Nodes(Ok(node_list_view(l.nodes@))),
            PublishEvent::Nodes(Err(s)) => PublishEventView::Nodes(Err(s@)),
            PublishEvent::Places(Ok(a)) => PublishEventView::Places(
                Ok(block_map_view(a.block_map@)),
            ),
            PublishEvent::Places(Err(s)) => PublishEventView::Places(Err(s@)),
            PublishEvent::Written(Ok(_)) => PublishEventView::Written(Ok(())),
            PublishEvent::Written(Err(e)) => PublishEventView::Written(Err(e@)),
            PublishEvent::Closed(Ok(c)) => PublishEventView::Closed(Ok(c.attr)),
            PublishEvent::Closed(Err(s)) => PublishEventView::Closed(Err(s@)),
        }
    }
}

/// What a publication asks for.
pub enum PublishAction {
    /// The list of the storage nodes.
    ListNodes,
    /// Places for blocks.
    Allocate(AllocReq),
    /// These blocks sent; it hears of the first failure, or that all were sent.
    Send(Vec<BlockJob>),
    /// The file closed.
    Close(CloseReq),
    /// Nothing more.
    Done(Result<(), DtmpfsError>),
}

/// What a [`PublishAction`] says, as mathematical values.
pub enum PublishActionView {
    ListNodes,
    Allocate(u64, Seq<u64>),
    Send(Seq<JobView>),
    Close(CloseView),
    Done(Result<(), ErrorView>),
}

/// What a request to close a file says, as mathematical values.
#[verifier::ext_equal]
pub struct CloseView {
    pub fh: u64,
    pub ino: u64,
    pub expected_generation: u64,
    pub new_size: u64,
    pub mtime_s: i64,
    pub mtime_ns: u32,
    pub written: Seq<u64>,
}

/// What a list of jobs says.
pub open spec fn jobs_view(v: Seq<BlockJob>) -> Seq<JobView> {
    Seq::new(v.len(), |i: int| v[i]@)
}

pub open spec fn close_view(r: CloseReq) -> CloseView {
    CloseView {
        fh: r.fh,
        ino: r.ino,
        expected_generation: r.expected_generation,
        new_size: r.new_size,
        mtime_s: r.mtime_s,
        mtime_ns: r.mtime_ns,
        written: r.written_block_idxs@,
    }
}

impl View for PublishAction {
    type V = PublishActionView;

    open spec fn view(&self) -> PublishActionView {
        match *self {
            PublishAction::ListNodes => PublishActionView::ListNodes,
            PublishAction::Allocate(r) => PublishActionView::Allocate(r.ino, r.block_idxs@),
            PublishAction::Send(v) => PublishActionView::Send(jobs_view(v@)),
            PublishAction::Close(r) => PublishActionView::Close(close_view(r)),
            PublishAction::Done(Ok(_)) => PublishActionView::Done(Ok(())),
            PublishAction::Done(Err(e)) => PublishActionView::Done(Err(e@)),
        }
    }
}

impl OpenView {
    /// The positions of the unpublished blocks that have no place yet.
    pub open spec fn unplaced(self) -> Seq<u64> {
        ascending(self.dirty.dom()).filter(|k: u64| !self.block_map.contains_key(k))
    }

    /// The sending of every unpublished block, in the order of their positions.
    pub open spec fn jobs(self, wait: WaitPolicy) -> Seq<JobView> {
        Seq::new(
            ascending(self.dirty.dom()).len(),
            |i: int|
                {
                    let k = ascending(self.dirty.dom())[i];
                    JobView {
                        ino: self.ino,
                        idx: k,
                        nodes: if self.block_map.contains_key(k) {
                            Some(holders(self.block_map[k]))
                        } else {
                            None
                        },
                        data: self.dirty[k],
                        wait,
                        pos: 0,
                    }
                },
        )
    }

    /// The file once its blocks are on their way.
    pub open spec fn sent(self) -> OpenView {
        OpenView { dirty: Map::empty(), ..self }
    }
}

/// A publication, the open file and the addresses of the storage nodes.
#[verifier::ext_equal]
pub struct PublishView {
    pub fh: u64,
    pub wait: WaitPolicy,
    pub stage: PublishStage,
    pub written: Seq<u64>,
    pub file: OpenView,
    pub addrs: Map<Seq<char>, Seq<char>>,
}

impl PublishView {
    pub open spec fn at(self, stage: PublishStage) -> PublishView {
        PublishView { stage, ..self }
    }

    /// A publication that is over.
    pub open spec fn failed(self, e: ErrorView) -> (PublishView, PublishActionView) {
        (self.at(PublishStage::Over), PublishActionView::Done(Err(e)))
    }

    /// The blocks go out.
    pub open spec fn sending(self) -> (PublishView, PublishActionView) {
        (
            PublishView {
                stage: PublishStage::AwaitWrites,
                written: ascending(self.file.dirty.dom()),
                file: self.file.sent(),
                ..self
            },
            PublishActionView::Send(self.file.jobs(self.wait)),
        )
    }

    /// Whether the event is one that the publication waits for.
    pub open spec fn expects(self, event: PublishEventView) -> bool {
        match event {
            PublishEventView::Start => self.stage == PublishStage::Begin,
            PublishEventView::Nodes(_) => self.stage == PublishStage::AwaitNodes,
            PublishEventView::Places(_) => self.stage == PublishStage::AwaitPlaces,
            PublishEventView::Written(_) => self.stage == PublishStage::AwaitWrites,
            PublishEventView::Closed(_) => self.stage == PublishStage::AwaitClose,
        }
    }

    /// The publication after an event, and what it asks for. A file to which
    /// nothing was written needs none. Else the addresses of the nodes are
    /// learned, blocks without a place get one, every block is sent, and once
    /// all were sent the file is closed. The first failure ends it.
    pub open spec fn after(self, event: PublishEventView, now: Timestamp) -> (
        PublishView,
        PublishActionView,
    ) {
        match event {
            PublishEventView::Start => if self.file.dirty.dom() == Set::<u64>::empty() {
                (self.at(PublishStage::Over), PublishActionView::Done(Ok(())))
            } else {
                (self.at(PublishStage::AwaitNodes), PublishActionView::ListNodes)
            },
            PublishEventView::Nodes(Err(s)) => self.failed(error_of_status(s, None)),
            PublishEventView::Nodes(Ok(nodes)) => {
                let p = PublishView { addrs: addr_map(nodes), ..self };
                if self.file.unplaced().len() > 0 {
                    (
                        p.at(PublishStage::AwaitPlaces),
                        PublishActionView::Allocate(self.file.ino, self.file.unplaced()),
                    )
                } else {
                    p.sending()
                }
            },
            PublishEventView::Places(Err(s)) => self.failed(error_of_status(s, None)),
            PublishEventView::Places(Ok(locs)) => {
                PublishView {
                    file: OpenView {
                        block_map: with_locations(self.file.block_map, locs),
                        ..self.file
                    },
                    ..self
                }.sending()
            },
            PublishEventView::Written(Err(e)) => self.failed(e),
            PublishEventView::Written(Ok(_)) => (
                self.at(PublishStage::AwaitClose),
                PublishActionView::Close(
                    CloseView {
                        fh: self.fh,
                        ino: self.file.ino,
                        expected_generation: self.file.generation,
                        new_size: self.file.size_hint,
                        mtime_s: now.spec_since_epoch().0,
                        mtime_ns: now.spec_since_epoch().1,
                        written: self.written,
                    },
                ),
            ),
            PublishEventView::Closed(Err(s)) => self.failed(error_of_status(s, None)),
            PublishEventView::Closed(Ok(attr)) => (
                PublishView {
                    stage: PublishStage::Over,
                    file: OpenView {
                        generation: match attr {
                            Some(a) => a.generation,
                            None => self.file.generation,
                        },
                        ..self.file
                    },
                    ..self
                },
                PublishActionView::Done(Ok(())),
            ),
        }
    }
}

/// The publication of what was written to an open file.
pub struct Publish {
    pub fh: u64,
    pub wait: WaitPolicy,
    pub stage: PublishStage,
    pub written: Vec<u64>,
}

impl Publish {
    /// The publication together with the file and the mount that it works on.
    pub open spec fn with(&self, of: OpenFile, fs: DtmpfsFs) -> PublishView {
        PublishView {
            fh: self.fh,
            wait: self.wait,
            stage: self.stage,
            written: self.written@,
            file: of@,
            addrs: fs.stores@,
        }
    }

    fn new(fh: u64, wait: WaitPolicy) -> (p: Publish)
        ensures
            p.fh == fh,
            p.wait == wait,
            p.stage == PublishStage::Begin,
            p.written@ == Seq::<u64>::empty(),
    {
        Publish { fh, wait, stage: PublishStage::Begin, written: Vec::new() }
    }

    /// Goes on after an event, and returns what is asked for next. Once the file
    /// is closed, the cache is left without blocks of it that are out of date.
    pub fn resume(
        &mut self,
        of: &mut OpenFile,
        fs: &mut DtmpfsFs,
        event: PublishEvent,
        now: Timestamp,
    ) -> (action: PublishAction)
        requires
            old(self).with(*old(of), *old(fs)).expects(event@),
            old(of)@.wf(old(fs).block_size as nat),
            old(fs).wf(),
        ensures
            final(fs).wf(),
            final(self).with(*final(of), *final(fs)) == old(self).with(*old(of), *old(fs)).after(
                event@,
                now,
            ).0,
            action@ == old(self).with(*old(of), *old(fs)).after(event@, now).1,
            final(of)@.wf(old(fs).block_size as nat),
            final(fs).same_setup(old(fs)),
            final(fs).attr_cache == old(fs).attr_cache,
            final(fs).open_files == old(fs).open_files,
            block_cache_capacity(final(fs).block_cache) == block_cache_capacity(
                old(fs).block_cache,
            ),
            cached_blocks(final(fs).block_cache) == if event@ matches PublishEventView::Closed(Ok(_)) {
                pruned(
                    cached_blocks(old(fs).block_cache),
                    final(of)@.ino,
                    final(of)@.generation,
                )
            } else {
                cached_blocks(old(fs).block_cache)
            },
    {
        match event {
            PublishEvent::Start => {
                if no_dirty(of) {
                    self.stage = PublishStage::Over;
                    PublishAction::Done(Ok(()))
                } else {
                    self.stage = PublishStage::AwaitNodes;
                    PublishAction::ListNodes
                }
            },
            PublishEvent::Nodes(Err(s)) => self.fail(DtmpfsError::from_status(s, None)),
            PublishEvent::Nodes(Ok(list)) => {
                fs.stores.refresh_addrs(&list.nodes);
                let idxs = unplaced_blocks(of);
                if idxs.len() > 0 {
                    self.stage = PublishStage::AwaitPlaces;
                    PublishAction::Allocate(AllocReq { ino: of.ino.0, block_idxs: idxs })
                } else {
                    self.send(of)
                }
            },
            PublishEvent::Places(Err(s)) => self.fail(DtmpfsError::from_status(s, None)),
            PublishEvent::Places(Ok(resp)) => {
                add_locations(&mut of.block_map, &resp.block_map);
                self.send(of)
            },
            PublishEvent::Written(Err(e)) => self.fail(e),
            PublishEvent::Written(Ok(_)) => {
                self.stage = PublishStage::AwaitClose;
                let (mtime_s, mtime_ns) = now.since_epoch();
                PublishAction::Close(
                    CloseReq {
                        fh: self.fh,
                        ino: of.ino.0,
                        expected_generation: of.generation.0,
                        new_size: of.size_hint,
                        mtime_s,
                        mtime_ns,
                        written_block_idxs: self.written_list(),
                    },
                )
            },
            PublishEvent::Closed(Err(s)) => self.fail(DtmpfsError::from_status(s, None)),
            PublishEvent::Closed(Ok(resp)) => {
                if let Some(a) = resp.attr {
                    of.generation = Generation(a.generation);
                }
                block_cache_discard(&mut fs.block_cache, of.ino.0, of.generation.0);
                self.stage = PublishStage::Over;
                PublishAction::Done(Ok(()))
            },
        }
    }

    fn fail(&mut self, e: DtmpfsError) -> (action: PublishAction)
        ensures
            final(self).stage == PublishStage::Over,
            final(self).fh == old(self).fh,
            final(self).wait == old(self).wait,
            final(self).written == old(self).written,
            action@ == PublishActionView::Done(Err(e@)),
    {
        self.stage = PublishStage::Over;
        PublishAction::Done(Err(e))
    }

    fn written_list(&self) -> (r: Vec<u64>)
        ensures
            r@ == self.written@,
    {
        let mut out: Vec<u64> = Vec::new();
        out.extend_from_slice(self.written.as_slice());
        assert(out@ =~= self.written@);
        out
    }

    /// Takes the unpublished blocks, to be sent.
    fn send(&mut self, of: &mut OpenFile) -> (action: PublishAction)
        ensures
            final(self).stage == PublishStage::AwaitWrites,
            final(self).fh == old(self).fh,
            final(self).wait == old(self).wait,
            final(self).written@ == ascending(old(of)@.dirty.dom()),
            final(of)@ == old(of)@.sent(),
            action@ == PublishActionView::Send(old(of)@.jobs(old(self).wait)),
    {
        let ghost v = of@;
        let keys = sorted_keys(&of.dirty);
        let mut jobs: Vec<BlockJob> = Vec::new();
        let mut i: usize = 0;
        let ghost want = v.jobs(self.wait);
        proof {
            assert(v.dirty.dom() =~= of.dirty@.dom());
            assert(keys@.skip(0) =~= keys@);
        }
        while i < keys.len()
            invariant
                i <= keys@.len(),
                keys@ == ascending(v.dirty.dom()),
                crate::ordered::is_ascending(keys@),
                keys@.to_set() == v.dirty.dom(),
                want == v.jobs(self.wait),
                self.wait == old(self).wait,
                self.fh == old(self).fh,
                of@ == (OpenView { dirty: of@.dirty, ..v }),
                forall|k: u64|
                    #![trigger of@.dirty.contains_key(k)]
                    of@.dirty.contains_key(k) <==> keys@.skip(i as int).contains(k),
                forall|k: u64|
                    #![trigger of@.dirty[k]]
                    of@.dirty.contains_key(k) ==> of@.dirty[k] == v.dirty[k],
                jobs_view(jobs@) == want.take(i as int),
            decreases keys.len() - i,
        {
            let idx: u64 = keys[i];
            let ghost was = of@.dirty;
            let ghost before = jobs@;
            proof {
                assert(keys@.skip(i as int)[0] == idx);
                assert(keys@.skip(i as int).contains(idx));
                assert(of@.dirty.contains_key(idx));
                assert(of@.dirty[idx] == v.dirty[idx]);
                let here = keys@.skip(i as int);
                let rest = keys@.skip(i + 1);
                assert forall|k: u64| #[trigger] rest.contains(k) <==> here.contains(k) && k
                    != idx by {
                    if rest.contains(k) {
                        let j = choose|j: int| 0 <= j < rest.len() && rest[j] == k;
                        assert(here[j + 1] == k);
                        assert(keys@[i as int] < keys@[i + 1 + j]);
                    }
                    if here.contains(k) && k != idx {
                        let j = choose|j: int| 0 <= j < here.len() && here[j] == k;
                        assert(j > 0);
                        assert(rest[j - 1] == k);
                    }
                }
            }
            let buf = map_remove(&mut of.dirty, idx);
            let buf = buf.unwrap();
            let data = buffer_freeze(buf);
            assert(dirty_views(of.dirty@) =~= was.remove(idx));
            let nodes = match map_get(&of.block_map, idx) {
                Some(p) => Some(all_holders(p)),
                None => None,
            };
            let job = BlockJob { ino: of.ino.0, idx, nodes, data, wait: self.wait, pos: 0 };
            assert(job@ =~= want[i as int]);
            jobs.push(job);
            assert(jobs_view(jobs@) =~= jobs_view(before).push(want[i as int]));
            assert(jobs_view(jobs@) =~= want.take(i + 1));
            i += 1;
        }
        proof {
            assert(want.take(i as int) =~= want);
            assert(keys@.skip(i as int).len() == 0);
            assert(of@.dirty =~= Map::empty());
        }
        self.written = keys;
        self.stage = PublishStage::AwaitWrites;
        PublishAction::Send(jobs)
    }
}

fn no_dirty(of: &OpenFile) -> (r: bool)
    ensures
        r == (of@.dirty.dom() == Set::<u64>::empty()),
{
    let keys = sorted_keys(&of.dirty);
    proof {
        assert(of@.dirty.dom() =~= of.dirty@.dom());
        if keys@.len() > 0 {
            assert(keys@.to_set().contains(keys@[0]));
        } else {
            assert(keys@.to_set() =~= Set::<u64>::empty());
        }
    }
    keys.len() == 0
}

/// The positions of the unpublished blocks that have no place yet.
fn unplaced_blocks(of: &OpenFile) -> (r: Vec<u64>)
    ensures
        r@ == of@.unplaced(),
{
    let keys = sorted_keys(&of.dirty);
    let mut out: Vec<u64> = Vec::new();
    let mut i: usize = 0;
    let ghost new = |k: u64| !of@.block_map.contains_key(k);
    proof {
        assert(of@.dirty.dom() =~= of.dirty@.dom());
        assert(keys@.take(0).filter(new) =~= Seq::<u64>::empty());
    }
    while i < keys.len()
        invariant
            i <= keys@.len(),
            new == (|k: u64| !of@.block_map.contains_key(k)),
            out@ == keys@.take(i as int).filter(new),
        decreases keys.len() - i,
    {
        let k: u64 = keys[i];
        proof {
            assert(keys@.take(i + 1) =~= keys@.take(i as int).push(k));
            keys@.take(i as int).lemma_filter_push(k, new);
        }
        if map_get(&of.block_map, k).is_none() {
            out.push(k);
        }
        i += 1;
    }
    assert(keys@.take(i as int) =~= keys@);
    out
}

impl DtmpfsFs {
    /// The publication that a flush makes: it waits for the primaries.
    pub fn flush_path(fh: u64) -> (p: Publish)
        ensures
            p.fh == fh,
            p.wait == WaitPolicy::PrimariesOnly,
            p.stage == PublishStage::Begin,
            p.written@ == Seq::<u64>::empty(),
    {
        Publish::new(fh, WaitPolicy::PrimariesOnly)
    }

    /// The publication that an fsync makes: it waits for the replicas too.
    pub fn fsync_path(fh: u64) -> (p: Publish)
        ensures
            p.fh == fh,
            p.wait == WaitPolicy::AllReplicas,
            p.stage == PublishStage::Begin,
            p.written@ == Seq::<u64>::empty(),
    {
        Publish::new(fh, WaitPolicy::AllReplicas)
    }
}

} // verus!
