use bytes::Bytes;
use dtmpfs::client::attr::{
    attr_tellable, proto_attr_to_fuse, proto_kind_to_fuse, CachedAttr, FileType,
};
use dtmpfs::client::cache::{build_attr_cache, build_block_cache};
use dtmpfs::client::fetch::{after_cache, Fetch, FetchNext, FetchStart, ReadReply};
use dtmpfs::client::flush::{
    BlockJob, JobStep, Publish, PublishAction, PublishEvent, PublishStage, WaitPolicy, WriteReply,
};
use dtmpfs::client::fs::{
    attr_of_cached, empty_reply, setattr_request, DirReader, DtmpfsFs, StatFs, TimeOrNow,
};
use dtmpfs::client::open_file::OpenFile;
use dtmpfs::client::pool::{connected, GetStep, StoreClientPool};
use dtmpfs::client::read::ReadCursor;
use dtmpfs::client::write::{supply_block, WriteCursor, WriteStep};
use dtmpfs::error::{Code, DtmpfsError, Status};
use dtmpfs::id::{InodeId, NodeId};
use dtmpfs::meta::service::MetaService;
use dtmpfs::meta::state::MetaState;
use dtmpfs::outside::cache::block_weight;
use dtmpfs::proto::{
    Attr, BlockLoc, CreateReq, CreateResp, DirEntry, Empty, HeartbeatReq, LookupReq, LookupResp,
    NodeList, NodeStatus, OpenReq, OpenResp, ProtoBlockKey, ProtoNodeInfo, ReadBlockReq,
    ReadBlockResp, ReadDirResp, SetAttrResp,
};
use dtmpfs::store::service::StoreService;
use dtmpfs::store::state::StoreState;
use dtmpfs::time::Timestamp;
use std::collections::BTreeMap;

const BS: usize = 8;
const NOW: Timestamp = Timestamp { secs: 1000, nanos: 7 };

fn mount() -> DtmpfsFs {
    DtmpfsFs::new(BS, 1, "t".to_string(), 1000, 1)
}

fn attr(ino: u64) -> Attr {
    Attr {
        ino,
        size: 5,
        blocks: 1,
        generation: 3,
        mode: 0o100644,
        nlink: 1,
        uid: 2,
        gid: 3,
        atime_s: 10,
        atime_ns: 11,
        mtime_s: 12,
        mtime_ns: 13,
        ctime_s: 14,
        ctime_ns: 15,
    }
}

fn loc(idx: u64, primary: &str, replicas: &[&str]) -> BlockLoc {
    BlockLoc {
        block_idx: idx,
        primary: primary.to_string(),
        replicas: replicas.iter().map(|r| r.to_string()).collect(),
    }
}

fn file(locs: Vec<BlockLoc>) -> OpenFile {
    DtmpfsFs::build_open_file(InodeId(9), 4, &attr(9), locs, 2).1
}

fn node(id: &str, addr: &str, used: u64, capacity: u64) -> ProtoNodeInfo {
    ProtoNodeInfo {
        node_id: id.to_string(),
        addr: addr.to_string(),
        status: NodeStatus::Up,
        used_bytes: used,
        capacity_bytes: capacity,
        last_heartbeat_s: 0,
    }
}

fn id(s: &str) -> NodeId {
    NodeId::new(s.to_string())
}

fn dirty(of: &OpenFile, k: u64) -> Vec<u8> {
    of.dirty[&k].to_vec()
}

#[test]
fn opened_file_knows_its_blocks() {
    let of = file(vec![loc(3, "a", &["b"]), loc(1, "c", &[]), loc(3, "d", &[])]);
    assert_eq!((of.ino, of.generation.0, of.size_hint, of.flags), (InodeId(9), 3, 5, 2));
    assert_eq!(of.block_map.len(), 2);
    assert_eq!(of.block_map[&3].primary, id("d"));
    assert!(of.block_map[&3].replicas.is_empty());
    assert!(of.dirty.is_empty());
}

#[test]
fn write_across_new_blocks() {
    let fs = mount();
    let mut of = file(vec![]);
    let mut c = WriteCursor::new(6);
    let step = fs.apply_write(&mut of, &mut c, b"abcdefghijkl");
    assert_eq!(step, WriteStep::Done(12));
    assert_eq!(dirty(&of, 0), b"\0\0\0\0\0\0ab");
    assert_eq!(dirty(&of, 1), b"cdefghij");
    assert_eq!(dirty(&of, 2), b"kl\0\0\0\0\0\0");
    assert_eq!(of.size_hint, 18);
}

#[test]
fn write_keeps_the_larger_size() {
    let fs = mount();
    let mut of = file(vec![]);
    fs.apply_write(&mut of, &mut WriteCursor::new(0), b"ab");
    assert_eq!(of.size_hint, 5);
    assert_eq!(fs.apply_write(&mut of, &mut WriteCursor::new(3), b""), WriteStep::Done(0));
    assert_eq!(fs.apply_write(&mut of, &mut WriteCursor::new(99), b""), WriteStep::Done(0));
    assert_eq!(of.size_hint, 99);
    assert_eq!(of.dirty.len(), 1);
}

#[test]
fn write_asks_for_published_blocks_it_does_not_fill() {
    let fs = mount();
    let mut of = file(vec![loc(0, "a", &[]), loc(1, "a", &[]), loc(2, "a", &[])]);
    let mut c = WriteCursor::new(6);
    assert_eq!(fs.apply_write(&mut of, &mut c, b"abcdefghijkl"), WriteStep::NeedBlock(0));
    assert_eq!(c.done, 0);
    supply_block(&mut of, 0, &Bytes::from_static(b"01234567"), BS);
    assert_eq!(fs.apply_write(&mut of, &mut c, b"abcdefghijkl"), WriteStep::NeedBlock(2));
    assert_eq!(c.done, 10);
    assert_eq!(dirty(&of, 0), b"012345ab");
    assert_eq!(dirty(&of, 1), b"cdefghij");
    supply_block(&mut of, 2, &Bytes::from_static(b"xyz"), BS);
    assert_eq!(fs.apply_write(&mut of, &mut c, b"abcdefghijkl"), WriteStep::Done(12));
    assert_eq!(dirty(&of, 2), b"klz\0\0\0\0\0");
}

fn read_all(of: &OpenFile, blocks: &BTreeMap<u64, Vec<u8>>, offset: u64, size: u32) -> Vec<u8> {
    let mut c = ReadCursor::new(offset, size);
    while let Some(k) = c.advance(of, BS) {
        match of.dirty.get(&k) {
            Some(b) => c.supply(b, BS),
            None => c.supply(&blocks[&k], BS),
        }
    }
    c.buf
}

#[test]
fn reads_over_holes_and_blocks() {
    let fs = mount();
    let mut of = file(vec![loc(1, "a", &[]), loc(3, "a", &[])]);
    fs.apply_write(&mut of, &mut WriteCursor::new(16), b"DDDDDDDD");
    let mut blocks = BTreeMap::new();
    blocks.insert(1u64, b"bbbbbbbb".to_vec());
    blocks.insert(3u64, b"ee".to_vec());
    assert_eq!(read_all(&of, &blocks, 6, 20), b"\0\0bbbbbbbbDDDDDDDDee");
    assert_eq!(read_all(&of, &blocks, 24, 10), b"ee\0\0\0\0\0\0\0\0");
    assert_eq!(read_all(&of, &blocks, 9, 3), b"bbb");
    assert_eq!(read_all(&of, &blocks, 0, 0), b"");
    assert_eq!(read_all(&of, &blocks, 26, 2), b"\0\0");
}

#[test]
fn own_writes_are_read() {
    let fs = mount();
    let mut of = file(vec![]);
    let data: Vec<u8> = (0..50).collect();
    fs.apply_write(&mut of, &mut WriteCursor::new(13), &data);
    fs.apply_write(&mut of, &mut WriteCursor::new(20), b"zz");
    let got = read_all(&of, &BTreeMap::new(), 13, 50);
    let mut want = data;
    want[7] = b'z';
    want[8] = b'z';
    assert_eq!(got, want);
}

#[test]
fn fetch_prefers_what_was_written() {
    let mut fs = mount();
    let mut of = file(vec![loc(0, "a", &[])]);
    assert_eq!(fs.fetch_block(&of, 0), FetchStart::NeedAddrs);
    fs.stores.refresh_addrs(&vec![node("a", "h:1", 0, 0)]);
    assert_eq!(fs.fetch_block(&of, 0), FetchStart::Ask);
    fs.block_cache.insert((9, 2, 0), Bytes::from_static(b"old"));
    assert_eq!(fs.fetch_block(&of, 0), FetchStart::Ask);
    fs.block_cache.insert((9, 3, 0), Bytes::from_static(b"cached"));
    assert_eq!(fs.fetch_block(&of, 0), FetchStart::Ready(Bytes::from_static(b"cached")));
    supply_block(&mut of, 0, &Bytes::from_static(b"dirty"), BS);
    assert_eq!(fs.fetch_block(&of, 0), FetchStart::Ready(Bytes::from_static(b"dirty\0\0\0")));
}

#[test]
fn fetch_fails_over_to_replicas() {
    let mut fs = mount();
    let of = file(vec![loc(6, "a", &["b", "c"])]);
    let mut f = Fetch::start(&of, 6).ok().unwrap();
    let (n, req) = f.next().unwrap();
    assert_eq!(n, id("a"));
    let key = Some(ProtoBlockKey { ino: 9, block_idx: 6, generation: 0 });
    assert_eq!(req, ReadBlockReq { key, offset: 0, len: 0 });
    let r = ReadReply::NoClient(DtmpfsError::StoreUnavailable(id("a")));
    assert!(matches!(f.on_reply(r, &mut fs.block_cache, BS), FetchNext::TryNext { evict: false }));
    assert_eq!(f.next().unwrap().0, id("b"));
    let r = ReadReply::Failed(Status::new(Code::Unavailable, "x"));
    assert!(matches!(f.on_reply(r, &mut fs.block_cache, BS), FetchNext::TryNext { evict: true }));
    assert_eq!(f.next().unwrap().0, id("c"));
    let r = ReadReply::Answered(ReadBlockResp { data: Bytes::from_static(b"data"), len: 4 });
    match f.on_reply(r, &mut fs.block_cache, BS) {
        FetchNext::Done(b) => assert_eq!(b, Bytes::from_static(b"data")),
        FetchNext::TryNext { .. } => panic!("not done"),
    }
    assert_eq!(fs.fetch_block(&of, 6), FetchStart::Ready(Bytes::from_static(b"data")));
}

#[test]
fn fetch_gives_up_with_the_last_error() {
    let mut fs = mount();
    let of = file(vec![loc(6, "a", &["b"])]);
    assert_eq!(Fetch::start(&of, 7).err().unwrap(), DtmpfsError::NotFound);
    let mut f = Fetch::start(&of, 6).ok().unwrap();
    for _ in 0..2 {
        let r = ReadReply::Failed(Status::new(Code::Internal, "x"));
        f.on_reply(r, &mut fs.block_cache, BS);
    }
    assert!(f.next().is_none());
    let e = f.give_up();
    assert_eq!(e, DtmpfsError::StoreUnavailable(id("b")));
    assert_eq!(i32::from(e), libc::EIO);
}

#[test]
fn fetch_of_a_lost_block_reads_zeros() {
    let mut fs = mount();
    let of = file(vec![loc(6, "a", &["b"])]);
    let mut f = Fetch::start(&of, 6).ok().unwrap();
    let r = ReadReply::Failed(Status::new(Code::NotFound, "block not found"));
    match f.on_reply(r, &mut fs.block_cache, BS) {
        FetchNext::Done(b) => assert_eq!(b, Bytes::from(vec![0u8; BS])),
        FetchNext::TryNext { .. } => panic!("not done"),
    }
    assert!(fs.block_cache.get(&(9, 3, 6)).is_none());
}

#[test]
fn pool_knows_the_last_address() {
    let mut p = StoreClientPool::new();
    assert!(p.is_empty());
    p.refresh_addrs(&vec![node("a", "one", 0, 0), node("b", "two", 0, 0), node("a", "three", 0, 0)]);
    assert!(!p.is_empty());
    assert_eq!(p.get(&id("a"), false), Ok(GetStep::Connect("http://three".to_string())));
    assert_eq!(p.get(&id("b"), true), Ok(GetStep::Cached));
    assert_eq!(p.get(&id("c"), false), Err(DtmpfsError::StoreUnavailable(id("c"))));
    assert_eq!(p.get(&id("c"), true), Ok(GetStep::Cached));
    p.refresh_addrs(&vec![]);
    assert!(p.is_empty());
    assert!(connected(&id("a"), true).is_ok());
    assert_eq!(connected(&id("a"), false), Err(DtmpfsError::StoreUnavailable(id("a"))));
}

fn job(wait: WaitPolicy) -> BlockJob {
    BlockJob {
        ino: 9,
        idx: 2,
        nodes: Some(vec![id("p"), id("q"), id("r")]),
        data: Bytes::from_static(b"xy"),
        wait,
        pos: 0,
    }
}

#[test]
fn flush_waits_for_the_primary_only() {
    let mut j = job(WaitPolicy::PrimariesOnly);
    assert_eq!(j.next(), JobStep::Write(id("p")));
    let r = j.request();
    assert_eq!(r.key, Some(ProtoBlockKey { ino: 9, block_idx: 2, generation: 0 }));
    assert_eq!(r.data, Bytes::from_static(b"xy"));
    j.on_reply(WriteReply::Written).unwrap();
    assert_eq!(j.next(), JobStep::Finish(vec![id("q"), id("r")]));
}

#[test]
fn fsync_waits_for_all() {
    let mut j = job(WaitPolicy::AllReplicas);
    for n in ["p", "q", "r"] {
        assert_eq!(j.next(), JobStep::Write(id(n)));
        j.on_reply(WriteReply::Written).unwrap();
    }
    assert_eq!(j.next(), JobStep::Finish(vec![]));
}

#[test]
fn a_failed_write_ends_the_job() {
    let mut j = job(WaitPolicy::AllReplicas);
    j.on_reply(WriteReply::Written).unwrap();
    let e = j.on_reply(WriteReply::Failed(Status::new(Code::Unavailable, ""))).unwrap_err();
    assert_eq!(e, DtmpfsError::StoreUnavailable(id("q")));
    let e = j.on_reply(WriteReply::Failed(Status::new(Code::ResourceExhausted, ""))).unwrap_err();
    assert_eq!(e, DtmpfsError::ResourceExhausted);
    let e = j.on_reply(WriteReply::NoClient(DtmpfsError::NotEmpty)).unwrap_err();
    assert_eq!(e, DtmpfsError::NotEmpty);
    let lost = BlockJob { nodes: None, ..job(WaitPolicy::AllReplicas) };
    assert_eq!(lost.next(), JobStep::Fail(DtmpfsError::NotFound));
}

fn is_done_ok(a: &PublishAction) -> bool {
    matches!(a, PublishAction::Done(Ok(())))
}

#[test]
fn nothing_written_needs_no_publication() {
    let mut fs = mount();
    let mut of = file(vec![]);
    let mut p = DtmpfsFs::flush_path(4);
    let a = p.resume(&mut of, &mut fs, PublishEvent::Start, NOW);
    assert!(is_done_ok(&a));
    assert_eq!(p.stage, PublishStage::Over);
}

#[test]
fn publication_fails_with_the_first_failure() {
    let mut fs = mount();
    let mut of = file(vec![]);
    fs.apply_write(&mut of, &mut WriteCursor::new(0), b"abc");
    let mut p = DtmpfsFs::fsync_path(4);
    assert_eq!(p.wait, WaitPolicy::AllReplicas);
    assert!(matches!(p.resume(&mut of, &mut fs, PublishEvent::Start, NOW), PublishAction::ListNodes));
    let e = PublishEvent::Nodes(Err(Status::new(Code::Unavailable, "")));
    match p.resume(&mut of, &mut fs, e, NOW) {
        PublishAction::Done(Err(e)) => assert_eq!(e, DtmpfsError::MetaUnavailable),
        _ => panic!("not refused"),
    }
    assert_eq!(of.dirty.len(), 1);
    // Once the blocks are on their way they are no longer kept.
    let mut p = DtmpfsFs::fsync_path(4);
    p.resume(&mut of, &mut fs, PublishEvent::Start, NOW);
    let nodes = PublishEvent::Nodes(Ok(NodeList { nodes: vec![node("a", "h", 0, 0)] }));
    match p.resume(&mut of, &mut fs, nodes, NOW) {
        PublishAction::Allocate(r) => assert_eq!((r.ino, r.block_idxs), (9, vec![0])),
        _ => panic!("no request for places"),
    }
    assert!(!fs.stores.is_empty());
    let places = PublishEvent::Places(Ok(dtmpfs::proto::AllocResp { block_map: vec![loc(0, "a", &[])] }));
    match p.resume(&mut of, &mut fs, places, NOW) {
        PublishAction::Send(jobs) => {
            assert_eq!(jobs.len(), 1);
            assert_eq!(jobs[0].data, Bytes::from_static(b"abc\0\0\0\0\0"));
        }
        _ => panic!("nothing sent"),
    }
    let e = PublishEvent::Written(Err(DtmpfsError::ResourceExhausted));
    match p.resume(&mut of, &mut fs, e, NOW) {
        PublishAction::Done(Err(e)) => assert_eq!(e, DtmpfsError::ResourceExhausted),
        _ => panic!("not refused"),
    }
    assert!(of.dirty.is_empty());
}

/// A metadata server and storage nodes in one process.
struct Cluster {
    meta: MetaService,
    stores: BTreeMap<String, StoreService>,
}

impl Cluster {
    fn new(names: &[&str], replication: usize) -> Cluster {
        let mut meta = MetaService { state: MetaState::new(replication, NOW), token: "t".to_string() };
        let mut stores = BTreeMap::new();
        for n in names {
            let state = StoreState::new(id(n), "m".to_string(), 1 << 20);
            meta.heartbeat_node(state.heartbeat(&format!("{n}:1"), 0), 0);
            stores.insert(n.to_string(), StoreService { state });
        }
        Cluster { meta, stores }
    }

    fn open(&mut self, fs: &mut DtmpfsFs, ino: u64) -> u64 {
        let r = self.meta.open(OpenReq { ino, flags: 0 });
        fs.open(ino, 0, r).unwrap()
    }

    fn publish(&mut self, fs: &mut DtmpfsFs, mut p: Publish) -> Result<(), DtmpfsError> {
        let fh = p.fh;
        let mut of = fs.take_file(fh)?;
        let mut event = PublishEvent::Start;
        let result = loop {
            event = match p.resume(&mut of, fs, event, NOW) {
                PublishAction::ListNodes => PublishEvent::Nodes(Ok(self.meta.list_nodes())),
                PublishAction::Allocate(r) => PublishEvent::Places(self.meta.allocate_blocks(r)),
                PublishAction::Send(jobs) => PublishEvent::Written(self.send(jobs)),
                PublishAction::Close(r) => PublishEvent::Closed(self.meta.close(r, NOW)),
                PublishAction::Done(r) => break r,
            };
        };
        fs.put_file(fh, of);
        result
    }

    fn write_to(&mut self, job: &BlockJob, n: &NodeId) -> WriteReply {
        match self.stores.get_mut(n.as_str()) {
            None => WriteReply::NoClient(DtmpfsError::StoreUnavailable(n.clone())),
            Some(s) => match s.write_block(job.request()) {
                Ok(_) => WriteReply::Written,
                Err(e) => WriteReply::Failed(e),
            },
        }
    }

    fn send(&mut self, jobs: Vec<BlockJob>) -> Result<(), DtmpfsError> {
        for mut job in jobs {
            loop {
                match job.next() {
                    JobStep::Fail(e) => return Err(e),
                    JobStep::Write(n) => {
                        let reply = self.write_to(&job, &n);
                        job.on_reply(reply)?;
                    }
                    JobStep::Finish(rest) => {
                        for n in rest {
                            self.write_to(&job, &n);
                        }
                        break;
                    }
                }
            }
        }
        Ok(())
    }

    fn fetch(&mut self, fs: &mut DtmpfsFs, of: &OpenFile, k: u64) -> Result<Bytes, DtmpfsError> {
        match fs.fetch_block(of, k) {
            FetchStart::Ready(b) => return Ok(b),
            FetchStart::NeedAddrs => fs.stores.refresh_addrs(&self.meta.list_nodes().nodes),
            FetchStart::Ask => {}
        }
        let mut f = Fetch::start(of, k)?;
        while let Some((n, req)) = f.next() {
            let reply = match self.stores.get(n.as_str()) {
                None => ReadReply::NoClient(DtmpfsError::StoreUnavailable(n)),
                Some(s) => match s.read_block(req) {
                    Ok(r) => ReadReply::Answered(r),
                    Err(e) => ReadReply::Failed(e),
                },
            };
            if let FetchNext::Done(b) = f.on_reply(reply, &mut fs.block_cache, fs.block_size) {
                return Ok(b);
            }
        }
        Err(f.give_up())
    }

    fn write(&mut self, fs: &mut DtmpfsFs, fh: u64, offset: u64, data: &[u8]) {
        let mut of = fs.take_file(fh).ok().unwrap();
        let mut c = WriteCursor::new(offset);
        while let WriteStep::NeedBlock(k) = fs.apply_write(&mut of, &mut c, data) {
            let b = self.fetch(fs, &of, k).unwrap();
            supply_block(&mut of, k, &b, fs.block_size);
        }
        fs.put_file(fh, of);
    }

    fn read(&mut self, fs: &mut DtmpfsFs, fh: u64, offset: u64, size: u32) -> Result<Vec<u8>, DtmpfsError> {
        let of = fs.take_file(fh)?;
        let mut c = ReadCursor::new(offset, size);
        let mut result = Ok(());
        while let Some(k) = c.advance(&of, fs.block_size) {
            match self.fetch(fs, &of, k) {
                Ok(b) => c.supply(&b, fs.block_size),
                Err(e) => {
                    result = Err(e);
                    break;
                }
            }
        }
        fs.put_file(fh, of);
        result.map(|_| c.buf)
    }

    fn create(&mut self, fs: &mut DtmpfsFs, name: &str) -> (u64, u64) {
        let r = self.meta.create(
            CreateReq { parent_ino: 1, name: name.to_string(), mode: 0o644, uid: 0, gid: 0 },
            NOW,
        );
        let (a, fh) = fs.create(0, r, 0).unwrap();
        (a.ino, fh)
    }
}

#[test]
fn what_one_mount_closes_another_opens() {
    let mut c = Cluster::new(&["s0", "s1", "s2"], 1);
    let mut a = mount();
    let mut b = mount();
    let (ino, fh) = c.create(&mut a, "cross");
    let data: Vec<u8> = (0..100).map(|i| (i * 7) as u8).collect();
    c.write(&mut a, fh, 0, &data);
    // Nothing is visible before the close.
    let early = c.open(&mut b, ino);
    assert_eq!(c.read(&mut b, early, 0, 100).unwrap(), vec![0u8; 100]);
    c.publish(&mut a, DtmpfsFs::flush_path(fh)).unwrap();
    let late = c.open(&mut b, ino);
    assert_eq!(c.read(&mut b, late, 0, 100).unwrap(), data);
    let look = c.meta.lookup(LookupReq { parent_ino: 1, name: "cross".to_string() }).unwrap();
    assert_eq!((look.attr.unwrap().size, look.attr.unwrap().generation), (100, 1));
    // A partial rewrite on the second mount keeps the rest.
    c.write(&mut b, late, 50, b"REWRITE");
    c.publish(&mut b, DtmpfsFs::fsync_path(late)).unwrap();
    let again = c.open(&mut a, ino);
    let mut want = data;
    want[50..57].copy_from_slice(b"REWRITE");
    assert_eq!(c.read(&mut a, again, 0, 100).unwrap(), want);
}

#[test]
fn a_new_generation_is_read_afresh() {
    let mut c = Cluster::new(&["s0"], 1);
    let mut a = mount();
    let mut b = mount();
    let (ino, fh) = c.create(&mut a, "f");
    c.write(&mut a, fh, 0, b"first");
    c.publish(&mut a, DtmpfsFs::flush_path(fh)).unwrap();
    let h = c.open(&mut b, ino);
    assert_eq!(c.read(&mut b, h, 0, 5).unwrap(), b"first");
    let fh = c.open(&mut a, ino);
    c.write(&mut a, fh, 0, b"other");
    c.publish(&mut a, DtmpfsFs::flush_path(fh)).unwrap();
    let h = c.open(&mut b, ino);
    assert_eq!(c.read(&mut b, h, 0, 5).unwrap(), b"other");
}

#[test]
fn replicas_survive_the_loss_of_a_node() {
    let mut c = Cluster::new(&["s0", "s1", "s2"], 2);
    let mut a = mount();
    let (ino, fh) = c.create(&mut a, "f");
    c.write(&mut a, fh, 0, b"survives the loss of a node");
    c.publish(&mut a, DtmpfsFs::fsync_path(fh)).unwrap();
    c.stores.remove("s1");
    let mut b = mount();
    let h = c.open(&mut b, ino);
    assert_eq!(c.read(&mut b, h, 0, 27).unwrap(), b"survives the loss of a node");
}

#[test]
fn without_replicas_a_lost_node_is_an_error() {
    let mut c = Cluster::new(&["s0"], 1);
    let mut a = mount();
    let (ino, fh) = c.create(&mut a, "f");
    c.write(&mut a, fh, 0, b"gone");
    c.publish(&mut a, DtmpfsFs::fsync_path(fh)).unwrap();
    c.stores.clear();
    let mut b = mount();
    let h = c.open(&mut b, ino);
    let e = c.read(&mut b, h, 0, 4).unwrap_err();
    assert_eq!(i32::from(e), libc::EIO);
}

#[test]
fn of_two_writers_the_later_close_is_refused() {
    let mut c = Cluster::new(&["s0"], 1);
    let mut a = mount();
    let mut b = mount();
    let (ino, fa) = c.create(&mut a, "f");
    let fb = c.open(&mut b, ino);
    c.write(&mut a, fa, 0, b"aaa");
    c.write(&mut b, fb, 0, b"bbb");
    c.publish(&mut a, DtmpfsFs::flush_path(fa)).unwrap();
    let e = c.publish(&mut b, DtmpfsFs::flush_path(fb)).unwrap_err();
    assert_eq!(e, DtmpfsError::BlockGenerationMismatch);
}

#[test]
fn of_two_senders_the_last_one_wins() {
    let mut c = Cluster::new(&["s0"], 1);
    let mut a = mount();
    let mut b = mount();
    let (ino, fa) = c.create(&mut a, "f");
    let fb = c.open(&mut b, ino);
    c.write(&mut a, fa, 0, b"aaaaaaaaaaaaaaaa");
    c.write(&mut b, fb, 0, b"bbbbbbbb");
    c.publish(&mut a, DtmpfsFs::flush_path(fa)).unwrap();
    assert!(c.publish(&mut b, DtmpfsFs::flush_path(fb)).is_err());
    let mut reader = mount();
    let fh = c.open(&mut reader, ino);
    assert_eq!(c.read(&mut reader, fh, 0, 16).unwrap(), b"bbbbbbbbaaaaaaaa");
}

#[test]
fn blocks_that_are_not_written_stay() {
    let mut c = Cluster::new(&["s0", "s1", "s2"], 2);
    let mut a = mount();
    let mut b = mount();
    let (other, fo) = c.create(&mut a, "g");
    c.write(&mut a, fo, 0, b"untouched");
    c.publish(&mut a, DtmpfsFs::fsync_path(fo)).unwrap();
    let (ino, fa) = c.create(&mut a, "f");
    c.write(&mut a, fa, 0, b"0123456789abcdef");
    c.publish(&mut a, DtmpfsFs::fsync_path(fa)).unwrap();
    let fb = c.open(&mut b, ino);
    c.write(&mut b, fb, 8, b"XYZ");
    c.publish(&mut b, DtmpfsFs::fsync_path(fb)).unwrap();
    let mut reader = mount();
    let fh = c.open(&mut reader, ino);
    assert_eq!(c.read(&mut reader, fh, 0, 16).unwrap(), b"01234567XYZbcdef");
    let fh = c.open(&mut reader, other);
    assert_eq!(c.read(&mut reader, fh, 0, 9).unwrap(), b"untouched");
}

#[test]
fn a_publication_discards_what_is_out_of_date() {
    let mut c = Cluster::new(&["s0"], 1);
    let mut a = mount();
    let (ino, fh) = c.create(&mut a, "f");
    let b = |s: &'static [u8]| Bytes::from_static(s);
    a.block_cache.insert((ino, 0, 0), b(b"old"));
    a.block_cache.insert((ino, 1, 1), b(b"new"));
    a.block_cache.insert((ino + 1, 0, 0), b(b"other"));
    c.write(&mut a, fh, 0, b"aaaaaaaa");
    c.publish(&mut a, DtmpfsFs::flush_path(fh)).unwrap();
    assert_eq!(a.block_cache.get(&(ino, 0, 0)), None);
    assert_eq!(a.block_cache.get(&(ino, 1, 1)), Some(b(b"new")));
    assert_eq!(a.block_cache.get(&(ino + 1, 0, 0)), Some(b(b"other")));
}

#[test]
fn a_write_over_published_blocks_is_whole() {
    let mut c = Cluster::new(&["s0"], 1);
    let mut a = mount();
    let (ino, fa) = c.create(&mut a, "f");
    c.write(&mut a, fa, 0, b"aaaaaaaabbbbbbbbcccccccc");
    c.publish(&mut a, DtmpfsFs::flush_path(fa)).unwrap();
    let mut b = mount();
    let fb = c.open(&mut b, ino);
    c.write(&mut b, fb, 3, b"0123456789ABCDEFGH");
    assert_eq!(c.read(&mut b, fb, 0, 24).unwrap(), b"aaa0123456789ABCDEFGHccc");
    c.publish(&mut b, DtmpfsFs::flush_path(fb)).unwrap();
    let mut reader = mount();
    let fh = c.open(&mut reader, ino);
    assert_eq!(c.read(&mut reader, fh, 0, 24).unwrap(), b"aaa0123456789ABCDEFGHccc");
}

#[test]
fn a_file_cut_after_the_open_shows_what_is_written() {
    let mut c = Cluster::new(&["s0"], 1);
    let mut a = mount();
    let (ino, fa) = c.create(&mut a, "f");
    c.write(&mut a, fa, 0, b"aaaaaaaabbbbbbbb");
    c.publish(&mut a, DtmpfsFs::flush_path(fa)).unwrap();
    let mut b = mount();
    let fb = c.open(&mut b, ino);
    let cut = setattr_request(ino, None, None, None, Some(0), None, None);
    c.meta.set_attr(cut, NOW).unwrap();
    c.write(&mut b, fb, 0, b"new data");
    c.publish(&mut b, DtmpfsFs::flush_path(fb)).unwrap();
    let mut reader = mount();
    let fh = c.open(&mut reader, ino);
    assert_eq!(c.read(&mut reader, fh, 0, 8).unwrap(), b"new data");
}

#[test]
fn unknown_handles() {
    let mut c = Cluster::new(&["s0"], 1);
    let mut a = mount();
    assert_eq!(c.publish(&mut a, DtmpfsFs::flush_path(77)).unwrap_err(), DtmpfsError::NotFound);
    assert_eq!(c.read(&mut a, 77, 0, 1).unwrap_err(), DtmpfsError::NotFound);
}

#[test]
fn release_gives_the_handle_up_once_published() {
    let mut c = Cluster::new(&["s0"], 1);
    let mut a = mount();
    let (_, fh) = c.create(&mut a, "f");
    assert_eq!(a.release(fh, Err(DtmpfsError::MetaUnavailable)), Err(libc::EIO));
    assert_eq!(a.open_files.len(), 1);
    assert_eq!(a.release(fh, Ok(())), Ok(()));
    assert!(a.open_files.is_empty());
}

#[test]
fn attributes_for_the_kernel() {
    let f = proto_attr_to_fuse(&attr(9));
    assert_eq!((f.ino, f.size, f.blocks, f.perm, f.nlink, f.uid, f.gid), (9, 5, 1, 0o644, 1, 2, 3));
    assert_eq!(f.kind, FileType::RegularFile);
    assert_eq!(f.atime, Timestamp { secs: 10, nanos: 11 });
    assert_eq!(f.crtime, Timestamp { secs: 0, nanos: 0 });
    assert_eq!((f.blksize, f.rdev, f.flags), (1 << 20, 0, 0));
    assert_eq!(proto_attr_to_fuse(&Attr { mode: 0o040755, ..attr(1) }).kind, FileType::Directory);
    assert_eq!(proto_attr_to_fuse(&Attr { mode: 0o120777, ..attr(1) }).kind, FileType::Symlink);
    assert_eq!(proto_attr_to_fuse(&Attr { mode: 0o010644, ..attr(1) }).kind, FileType::RegularFile);
    assert!(attr_tellable(&attr(1)));
    assert!(!attr_tellable(&Attr { mtime_s: -1, ..attr(1) }));
    assert!(!attr_tellable(&Attr { ctime_s: i64::MAX, ctime_ns: 1_000_000_000, ..attr(1) }));
    assert_eq!(proto_kind_to_fuse(2), FileType::Directory);
    assert_eq!(proto_kind_to_fuse(3), FileType::Symlink);
    assert_eq!(proto_kind_to_fuse(1), FileType::RegularFile);
    assert_eq!(proto_kind_to_fuse(0), FileType::RegularFile);
}

#[test]
fn lookups_are_remembered() {
    let mut fs = mount();
    let f = fs.lookup(Ok(LookupResp { attr: Some(attr(9)) }), 5).unwrap();
    assert_eq!(fs.cached_attr(9), Some(f));
    assert_eq!(fs.cached_attr(8), None);
    assert_eq!(fs.lookup(Ok(LookupResp { attr: None }), 5), Err(libc::ENOENT));
    assert_eq!(fs.lookup(Err(Status::new(Code::NotFound, "")), 5), Err(libc::ENOENT));
    assert_eq!(fs.getattr(7, Ok(attr(7)), 6).unwrap().ino, 7);
    assert!(fs.cached_attr(7).is_some());
    assert_eq!(fs.getattr(6, Err(Status::new(Code::Unauthenticated, "")), 6), Err(libc::EACCES));
    assert_eq!(fs.setattr(7, Ok(SetAttrResp { attr: None }), 6), Err(libc::EIO));
    let changed = Attr { size: 77, ..attr(7) };
    assert_eq!(fs.setattr(7, Ok(SetAttrResp { attr: Some(changed) }), 6).unwrap().size, 77);
    assert_eq!(fs.cached_attr(7).unwrap().size, 77);
    assert_eq!(fs.setattr(7, Err(Status::new(Code::InvalidArgument, "")), 6), Err(libc::EINVAL));
    assert_eq!(fs.lookup(Err(Status::new(Code::Unavailable, "")), 6), Err(libc::EIO));
    assert_eq!(fs.cached_attr(7).unwrap().size, 77);
    assert_eq!(fs.mkdir(Ok(attr(5)), 1).unwrap().ino, 5);
    assert!(fs.cached_attr(5).is_some());
    assert_eq!(fs.mkdir(Err(Status::new(Code::AlreadyExists, "")), 1), Err(libc::EEXIST));
}

#[test]
fn opens_that_fail() {
    let mut fs = mount();
    let r = CreateResp { attr: None, fh: 1, block_map: vec![] };
    assert_eq!(fs.create(0, Ok(r), 0), Err(libc::EIO));
    assert_eq!(fs.create(0, Err(Status::new(Code::NotFound, "")), 0), Err(libc::ENOENT));
    let r = OpenResp { attr: None, fh: 1, block_map: vec![] };
    assert_eq!(fs.open(3, 0, Ok(r)), Err(libc::EIO));
    assert_eq!(fs.open(3, 0, Err(Status::new(Code::Unavailable, ""))), Err(libc::EIO));
    assert!(fs.open_files.is_empty());
    assert_eq!(empty_reply(Ok(Empty {})), Ok(()));
    assert_eq!(empty_reply(Err(Status::new(Code::PermissionDenied, ""))), Err(libc::EACCES));
}

#[test]
fn changes_of_attributes_are_asked_for() {
    let r = setattr_request(
        4,
        Some(1),
        None,
        Some(3),
        Some(9),
        Some(TimeOrNow::SpecificTime(Timestamp { secs: -3, nanos: 5 })),
        Some(TimeOrNow::Now),
    );
    assert_eq!((r.ino, r.mode, r.uid, r.gid, r.size), (4, Some(1), None, Some(3), Some(9)));
    assert_eq!((r.atime_s, r.atime_ns), (Some(0), Some(0)));
    assert_eq!((r.mtime_s, r.mtime_ns), (None, None));
    let t = Timestamp { secs: 8, nanos: 6 };
    let r = setattr_request(4, None, None, None, None, None, Some(TimeOrNow::SpecificTime(t)));
    assert_eq!((r.mtime_s, r.mtime_ns), (Some(8), Some(6)));
}

#[test]
fn fullness_in_blocks() {
    let fs = mount();
    let list = NodeList { nodes: vec![node("a", "", 10, 100), node("b", "", 7, 50)] };
    assert_eq!(
        fs.statfs(Ok(list)),
        StatFs { blocks: 18, bfree: 16, bavail: 16, files: 0, ffree: 0, bsize: 8, namelen: 255, frsize: 0 }
    );
    let over = NodeList { nodes: vec![node("a", "", 200, 100)] };
    assert_eq!(fs.statfs(Ok(over)).bfree, 0);
    let none = fs.statfs(Err(Status::new(Code::Unavailable, "")));
    assert_eq!((none.blocks, none.bfree, none.bsize, none.namelen), (0, 0, 8, 255));
}

#[test]
fn blocks_without_a_size_matter_only_to_data() {
    let mut fs = DtmpfsFs::new(0, 1, "t".to_string(), 1000, 1);
    assert_eq!(fs.statfs(Err(Status::new(Code::Unavailable, ""))).bsize, 0);
    assert_eq!(fs.getattr(7, Ok(attr(7)), 6).unwrap().ino, 7);
    let mut of = file(vec![]);
    let mut none = ReadCursor::new(9, 0);
    assert_eq!(none.advance(&of, 0), None);
    let step = fs.apply_write(&mut of, &mut WriteCursor::new(3), b"");
    assert_eq!(step, WriteStep::Done(0));
}

fn entry(name: &str, ino: u64, kind: u32) -> DirEntry {
    DirEntry { name: name.to_string(), ino, kind }
}

#[test]
fn directories_are_read_page_by_page() {
    let mut d = DirReader::new(3);
    let r = d.request();
    assert_eq!((r.ino, r.max_entries, r.cookie.len()), (3, 256, 0));
    let page = ReadDirResp {
        entries: vec![entry("a", 10, 1), entry("b", 11, 2)],
        next_cookie: Bytes::from_static(b"b"),
        eof: false,
    };
    assert_eq!(d.accept(Ok(page)), Ok(false));
    assert_eq!(d.request().cookie, Bytes::from_static(b"b"));
    let page = ReadDirResp {
        entries: vec![entry("c", 12, 3)],
        next_cookie: Bytes::from_static(b"c"),
        eof: true,
    };
    assert_eq!(d.accept(Ok(page)), Ok(true));
    let lines = d.lines(0);
    assert_eq!(lines.iter().map(|l| l.offset).collect::<Vec<_>>(), vec![1, 2, 3]);
    assert_eq!(lines[1].kind, FileType::Directory);
    let lines = d.lines(2);
    assert_eq!((lines.len(), lines[0].name.as_str(), lines[0].ino, lines[0].offset), (1, "c", 12, 3));
    assert!(d.lines(3).is_empty());
    assert!(d.lines(-1).is_empty());
    assert_eq!(d.accept(Err(Status::new(Code::NotFound, ""))), Err(DtmpfsError::NotFound));
}

#[test]
fn a_reader_gets_a_large_directory_whole() {
    let mut c = Cluster::new(&["s0"], 1);
    let mut fs = mount();
    for i in 0..600 {
        c.create(&mut fs, &format!("f{i:03}"));
    }
    let mut d = DirReader::new(1);
    loop {
        let page = c.meta.read_dir(d.request());
        if d.accept(page).unwrap() {
            break;
        }
    }
    let lines = d.lines(0);
    assert_eq!(lines.len(), 600);
    assert!(lines.iter().enumerate().all(|(i, l)| l.name == format!("f{i:03}")));
}

#[test]
fn caches_are_made_to_measure() {
    let attrs = build_attr_cache(1000);
    assert_eq!(attrs.policy().max_capacity(), Some(100_000));
    assert_eq!(attrs.policy().time_to_live(), Some(std::time::Duration::from_millis(1000)));
    let blocks = build_block_cache(3);
    assert_eq!(blocks.policy().max_capacity(), Some(3 * 1024 * 1024));
    blocks.insert((1, 2, 3), Bytes::from_static(b"12345"));
    blocks.run_pending_tasks();
    assert_eq!(blocks.weighted_size(), 5);
    assert_eq!(block_weight(&Bytes::from_static(b"1234")), 4);
    assert!(blocks.invalidate_entries_if(|k, _| k.0 == 1).is_ok());
    assert_eq!(blocks.get(&(1, 2, 3)), None);
}

#[test]
fn heartbeats_bring_addresses() {
    let mut c = Cluster::new(&["s0"], 1);
    c.meta.heartbeat_node(
        HeartbeatReq {
            node_id: "s9".to_string(),
            addr: "host:9".to_string(),
            used_bytes: 0,
            capacity_bytes: 0,
            epoch_s: 0,
        },
        0,
    );
    let mut fs = mount();
    fs.stores.refresh_addrs(&c.meta.list_nodes().nodes);
    assert_eq!(fs.stores.get(&id("s9"), false), Ok(GetStep::Connect("http://host:9".to_string())));
}

#[test]
fn what_the_caches_gave() {
    let b = || Bytes::from_static(b"x");
    assert_eq!(after_cache(Some(b()), true), FetchStart::Ready(b()));
    assert_eq!(after_cache(None, true), FetchStart::NeedAddrs);
    assert_eq!(after_cache(None, false), FetchStart::Ask);
    let a = proto_attr_to_fuse(&attr(4));
    assert_eq!(attr_of_cached(Some(CachedAttr { attr: a, fetched: 1 })), Some(a));
    assert_eq!(attr_of_cached(None), None);
}
