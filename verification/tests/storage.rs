use bytes::Bytes;
use dtmpfs::error::{Code, Status};
use dtmpfs::id::NodeId;
use dtmpfs::proto::{
    DeleteBlockReq, ProtoBlockKey, ReadBlockReq, ReadBlockResp, ReplicateReq, WriteBlockReq,
};
use dtmpfs::store::heartbeat::BeatStep;
use dtmpfs::store::service::{lines_of, proto_key_to_block_key, BlockLine, SourceReply, StoreService};
use dtmpfs::store::state::StoreState;

fn store(budget: u64) -> StoreService {
    StoreService {
        state: StoreState::new(NodeId::new("s".to_string()), "meta:1".to_string(), budget),
    }
}

fn key(ino: u64, idx: u64, generation: u64) -> Option<ProtoBlockKey> {
    Some(ProtoBlockKey { ino, block_idx: idx, generation })
}

fn write(s: &mut StoreService, k: Option<ProtoBlockKey>, data: &[u8]) -> Result<u32, Status> {
    s.write_block(WriteBlockReq { key: k, data: Bytes::copy_from_slice(data) }).map(|r| r.len)
}

fn read(s: &StoreService, k: Option<ProtoBlockKey>) -> Result<Vec<u8>, Status> {
    s.read_block(ReadBlockReq { key: k, offset: 5, len: 1 }).map(|r| {
        assert_eq!(r.len as usize, r.data.len());
        r.data.to_vec()
    })
}

#[test]
fn what_is_written_is_read() {
    let mut s = store(100);
    assert_eq!(write(&mut s, key(1, 0, 0), b"hello"), Ok(5));
    assert_eq!(write(&mut s, key(1, 1, 0), b"world!"), Ok(6));
    assert_eq!(read(&s, key(1, 0, 0)).unwrap(), b"hello");
    assert_eq!(read(&s, key(1, 1, 0)).unwrap(), b"world!");
    assert_eq!(read(&s, key(1, 2, 0)).unwrap_err(), Status::new(Code::NotFound, "block not found"));
    assert_eq!(read(&s, key(1, 0, 1)).unwrap_err().code, Code::NotFound);
}

#[test]
fn requests_without_a_key() {
    let mut s = store(100);
    let e = Status::new(Code::InvalidArgument, "missing key");
    assert_eq!(write(&mut s, None, b"x").unwrap_err(), e);
    assert_eq!(read(&s, None).unwrap_err(), e);
    assert_eq!(s.delete_block(DeleteBlockReq { key: None }).unwrap_err(), e);
    let r = ReplicateReq { key: None, source_addr: "a".to_string() };
    assert_eq!(StoreService::replicate_fetch(&r).unwrap_err(), e);
    assert_eq!(s.replicate(r, SourceReply::Unreachable("no".to_string())).unwrap_err(), e);
}

#[test]
fn stale_generations_are_refused() {
    let mut s = store(100);
    write(&mut s, key(1, 0, 5), b"new").unwrap();
    let e = write(&mut s, key(1, 0, 4), b"old").unwrap_err();
    assert_eq!(e, Status::new(Code::FailedPrecondition, "stale generation"));
    assert!(read(&s, key(1, 0, 4)).is_err());
    assert_eq!(write(&mut s, key(1, 0, 5), b"same"), Ok(4));
    assert_eq!(write(&mut s, key(1, 1, 0), b"other"), Ok(5));
    assert_eq!(write(&mut s, key(1, 0, 7), b"later"), Ok(5));
    assert!(write(&mut s, key(1, 0, 6), b"x").is_err());
}

#[test]
fn budget_is_kept() {
    let mut s = store(10);
    assert_eq!(write(&mut s, key(1, 0, 0), &[1; 10]), Ok(10));
    let e = write(&mut s, key(1, 1, 0), b"x").unwrap_err();
    assert_eq!(e, Status::new(Code::ResourceExhausted, "ram budget exceeded"));
    assert_eq!(s.stat().used_bytes, 10);
    // A rewrite is counted before what it replaces is given back.
    assert!(write(&mut s, key(1, 0, 0), &[2; 10]).is_err());
    assert_eq!(read(&s, key(1, 0, 0)).unwrap(), [1; 10]);
}

#[test]
fn use_is_counted_exactly() {
    let mut s = store(100);
    write(&mut s, key(1, 0, 0), &[0; 30]).unwrap();
    write(&mut s, key(1, 1, 0), &[0; 20]).unwrap();
    write(&mut s, key(1, 0, 0), &[0; 5]).unwrap();
    assert_eq!(s.stat().used_bytes, 25);
    s.delete_block(DeleteBlockReq { key: key(1, 1, 0) }).unwrap();
    assert_eq!(s.stat().used_bytes, 5);
    s.delete_block(DeleteBlockReq { key: key(1, 1, 0) }).unwrap();
    assert_eq!(s.stat().used_bytes, 5);
}

#[test]
fn the_last_write_of_a_block_wins() {
    let mut s = store(100);
    write(&mut s, key(1, 0, 0), b"a long first one").unwrap();
    write(&mut s, key(1, 1, 0), b"other").unwrap();
    write(&mut s, key(1, 0, 0), b"last").unwrap();
    assert!(write(&mut s, key(2, 0, 0), &[0; 200]).is_err());
    s.delete_block(DeleteBlockReq { key: key(1, 1, 0) }).unwrap();
    assert_eq!(read(&s, key(1, 0, 0)).unwrap(), b"last");
    assert_eq!(read(&s, key(1, 1, 0)).unwrap_err().code, Code::NotFound);
    assert_eq!(read(&s, key(2, 0, 0)).unwrap_err().code, Code::NotFound);
    assert_eq!(s.stat().used_bytes, 4);
}

#[test]
fn deletion_forgets_the_block_and_its_mark() {
    let mut s = store(100);
    write(&mut s, key(1, 0, 9), b"x").unwrap();
    s.delete_block(DeleteBlockReq { key: key(1, 0, 9) }).unwrap();
    assert!(read(&s, key(1, 0, 9)).is_err());
    assert_eq!(write(&mut s, key(1, 0, 2), b"y"), Ok(1));
}

#[test]
fn replication_takes_what_the_source_sent() {
    let mut s = store(4);
    let r = || ReplicateReq { key: key(3, 4, 0), source_addr: "http://x".to_string() };
    let (addr, req) = StoreService::replicate_fetch(&r()).unwrap();
    assert_eq!(addr, "http://x");
    assert_eq!(req, ReadBlockReq { key: key(3, 4, 0), offset: 0, len: 0 });
    let e = s.replicate(r(), SourceReply::Unreachable("down".to_string())).unwrap_err();
    assert_eq!(e, Status::new(Code::Unavailable, "down"));
    let e = s.replicate(r(), SourceReply::Failed(Status::new(Code::NotFound, "gone"))).unwrap_err();
    assert_eq!(e, Status::new(Code::NotFound, "gone"));
    let data = || SourceReply::Answered(ReadBlockResp { data: Bytes::from_static(b"longer"), len: 6 });
    s.replicate(r(), data()).unwrap();
    assert_eq!(read(&s, key(3, 4, 0)).unwrap(), b"longer");
    assert_eq!(s.stat().used_bytes, 6);
    // A copy over a copy counts twice.
    s.replicate(r(), data()).unwrap();
    assert_eq!(s.stat().used_bytes, 12);
    assert_eq!(s.stat().block_count, 1);
}

#[test]
fn stat_tells_of_the_node() {
    let mut s = store(50);
    write(&mut s, key(1, 0, 0), b"abc").unwrap();
    let st = s.stat();
    assert_eq!(st.node_id, "s");
    assert_eq!((st.used_bytes, st.capacity_bytes, st.block_count), (3, 50, 1));
    assert_eq!((st.read_bytes_total, st.write_bytes_total), (0, 0));
}

#[test]
fn block_lines_tell_every_block() {
    let mut s = store(50);
    write(&mut s, key(1, 2, 3), b"abc").unwrap();
    write(&mut s, key(4, 5, 6), b"de").unwrap();
    let mut lines = s.block_lines();
    lines.sort_by_key(|l| l.ino);
    assert_eq!(
        lines,
        vec![
            BlockLine { ino: 1, idx: 2, generation: 3, len: 3 },
            BlockLine { ino: 4, idx: 5, generation: 6, len: 2 },
        ]
    );
}

#[test]
fn heartbeats() {
    let mut s = store(50);
    write(&mut s, key(1, 2, 3), b"abc").unwrap();
    let h = s.state.heartbeat(&"addr".to_string(), 12);
    assert_eq!((h.node_id.as_str(), h.addr.as_str()), ("s", "addr"));
    assert_eq!((h.used_bytes, h.capacity_bytes, h.epoch_s), (3, 50, 12));
    assert_eq!(s.state.meta_addr, "meta:1");
}

#[test]
fn a_node_connects_and_then_beats() {
    let mut step = BeatStep::Connect;
    step = step.after(false);
    assert_eq!(step, BeatStep::WaitToRetry);
    step = step.after(true);
    assert_eq!(step, BeatStep::Connect);
    step = step.after(true);
    assert_eq!(step, BeatStep::AwaitTick);
    step = step.after(true);
    assert_eq!(step, BeatStep::Send);
    step = step.after(false);
    assert_eq!(step, BeatStep::AwaitTick);
}

#[test]
fn keys_on_the_wire() {
    let k = proto_key_to_block_key(&key(7, 8, 9).unwrap());
    assert_eq!((k.ino.0, k.block_idx.0, k.generation.0), (7, 8, 9));
}

#[test]
fn a_count_that_would_overflow_refuses_to_write() {
    let mut s = store(u64::MAX);
    s.state.ram_used = u64::MAX - 2;
    let req = |data: &'static [u8]| WriteBlockReq { key: key(1, 0, 0), data: Bytes::from_static(data) };
    assert!(s.try_write_block(req(b"abc")).is_none());
    assert_eq!(s.stat().block_count, 0);
    assert_eq!(s.try_write_block(req(b"ab")).unwrap().unwrap().len, 2);
    assert_eq!(s.stat().used_bytes, u64::MAX);
    let none = WriteBlockReq { key: None, data: Bytes::from_static(b"abc") };
    assert_eq!(s.try_write_block(none).unwrap().unwrap_err().message, "missing key");
}

#[test]
fn lines_of_blocks_in_order() {
    let lines = lines_of(&vec![((1, 2, 3), Bytes::from_static(b"x")), ((0, 0, 0), Bytes::new())]);
    assert_eq!(lines[0], BlockLine { ino: 1, idx: 2, generation: 3, len: 1 });
    assert_eq!(lines[1].len, 0);
}
