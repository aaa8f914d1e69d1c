use bytes::Bytes;
use dtmpfs::error::{Code, Status};
use dtmpfs::id::{BlockIdx, InodeId, InodeKind};
use dtmpfs::meta::edits::BlockDelete;
use dtmpfs::meta::service::{kind_u32, MetaService};
use dtmpfs::meta::state::MetaState;
use dtmpfs::proto::{
    AllocReq, Attr, CloseReq, CreateReq, GetAttrReq, HeartbeatReq, LookupReq, MkdirReq, NodeStatus,
    OpenReq, ReadDirReq, RenameReq, RmdirReq, SetAttrReq, UnlinkReq,
};
use dtmpfs::time::Timestamp;

const NOW: Timestamp = Timestamp { secs: 1000, nanos: 7 };
const LATER: Timestamp = Timestamp { secs: 2000, nanos: 9 };

fn service(replication: usize) -> MetaService {
    MetaService { state: MetaState::new(replication, NOW), token: "t".to_string() }
}

fn create(s: &mut MetaService, parent: u64, name: &str) -> (Attr, u64) {
    let r = s
        .create(
            CreateReq { parent_ino: parent, name: name.to_string(), mode: 0o100644, uid: 10, gid: 20 },
            NOW,
        )
        .unwrap();
    assert!(r.block_map.is_empty());
    (r.attr.unwrap(), r.fh)
}

fn mkdir(s: &mut MetaService, parent: u64, name: &str) -> Attr {
    s.mkdir(
        MkdirReq { parent_ino: parent, name: name.to_string(), mode: 0o755, uid: 1, gid: 2 },
        NOW,
    )
    .unwrap()
}

fn lookup(s: &MetaService, parent: u64, name: &str) -> Result<Attr, Status> {
    s.lookup(LookupReq { parent_ino: parent, name: name.to_string() }).map(|r| r.attr.unwrap())
}

fn attr(s: &MetaService, ino: u64) -> Attr {
    s.get_attr(GetAttrReq { ino }).unwrap()
}

fn rename(s: &mut MetaService, sp: u64, sn: &str, dp: u64, dn: &str) -> Result<Vec<BlockDelete>, Status> {
    s.rename(RenameReq {
        src_parent_ino: sp,
        src_name: sn.to_string(),
        dst_parent_ino: dp,
        dst_name: dn.to_string(),
    })
    .map(|r| r.1)
}

fn close(s: &mut MetaService, fh: u64, generation: u64, size: u64, written: Vec<u64>) -> Result<Attr, Status> {
    s.close(
        CloseReq {
            fh,
            ino: 0,
            expected_generation: generation,
            new_size: size,
            mtime_s: 1990,
            mtime_ns: 3,
            written_block_idxs: written,
        },
        LATER,
    )
    .map(|r| r.attr.unwrap())
}

fn beat(s: &mut MetaService, id: &str, at: u128) {
    s.heartbeat_node(
        HeartbeatReq {
            node_id: id.to_string(),
            addr: format!("{id}:7"),
            used_bytes: 1,
            capacity_bytes: 100,
            epoch_s: 0,
        },
        at,
    );
}

fn names(s: &MetaService, ino: u64, cookie: &[u8], max: u32) -> (Vec<String>, Vec<u8>, bool) {
    let r = s
        .read_dir(ReadDirReq { ino, cookie: Bytes::copy_from_slice(cookie), max_entries: max })
        .unwrap();
    (r.entries.into_iter().map(|e| e.name).collect(), r.next_cookie.to_vec(), r.eof)
}

#[test]
fn root_is_an_empty_directory() {
    let s = service(1);
    let a = attr(&s, 1);
    assert_eq!(a.mode, 0o40755);
    assert_eq!(a.nlink, 2);
    assert_eq!(a.size, 4096);
    assert_eq!((a.ctime_s, a.ctime_ns), (1000, 7));
    assert_eq!(names(&s, 1, b"", 0), (vec![], vec![], true));
}

#[test]
fn created_file_is_found() {
    let mut s = service(1);
    let (a, fh) = create(&mut s, 1, "f");
    assert_eq!(fh, 1);
    assert_eq!(a.ino, 2);
    assert_eq!(a.mode, 0o100644);
    assert_eq!((a.uid, a.gid, a.nlink, a.size, a.generation), (10, 20, 1, 0, 0));
    assert_eq!(lookup(&s, 1, "f").unwrap(), a);
    assert_eq!(lookup(&s, 1, "g").unwrap_err().code, Code::NotFound);
}

#[test]
fn create_refusals() {
    let mut s = service(1);
    create(&mut s, 1, "f");
    let again = s
        .create(CreateReq { parent_ino: 1, name: "f".to_string(), mode: 0, uid: 0, gid: 0 }, NOW)
        .unwrap_err();
    assert_eq!(again, Status::new(Code::AlreadyExists, "entry already exists"));
    let lost = s
        .create(CreateReq { parent_ino: 9, name: "f".to_string(), mode: 0, uid: 0, gid: 0 }, NOW)
        .unwrap_err();
    assert_eq!(lost, Status::new(Code::NotFound, "parent not found"));
    let d = s
        .mkdir(MkdirReq { parent_ino: 1, name: "f".to_string(), mode: 0, uid: 0, gid: 0 }, NOW)
        .unwrap_err();
    assert_eq!(d.code, Code::AlreadyExists);
    assert_eq!(s.state.next_ino, 3);
}

#[test]
fn directories_count_links() {
    let mut s = service(1);
    let d = mkdir(&mut s, 1, "d");
    assert_eq!(d.mode, 0o040755);
    assert_eq!((d.nlink, d.size), (2, 4096));
    assert_eq!(attr(&s, 1).nlink, 3);
    mkdir(&mut s, d.ino, "e");
    assert_eq!(attr(&s, d.ino).nlink, 3);
    create(&mut s, d.ino, "f");
    assert_eq!(attr(&s, d.ino).nlink, 3);
    s.rmdir(RmdirReq { parent_ino: d.ino, name: "e".to_string() }).unwrap();
    assert_eq!(attr(&s, d.ino).nlink, 2);
    assert_eq!(lookup(&s, d.ino, "e").unwrap_err(), Status::new(Code::NotFound, "inode not found"));
}

#[test]
fn unlink_and_rmdir_refusals() {
    let mut s = service(1);
    let d = mkdir(&mut s, 1, "d");
    create(&mut s, d.ino, "f");
    let e = s.unlink(UnlinkReq { parent_ino: 1, name: "d".to_string() }).unwrap_err();
    assert_eq!(e, Status::new(Code::InvalidArgument, "is a directory"));
    let e = s.rmdir(RmdirReq { parent_ino: 1, name: "d".to_string() }).unwrap_err();
    assert_eq!(e, Status::new(Code::FailedPrecondition, "directory not empty"));
    let e = s.rmdir(RmdirReq { parent_ino: d.ino, name: "f".to_string() }).unwrap_err();
    assert_eq!(e, Status::new(Code::InvalidArgument, "not a directory"));
    let e = s.unlink(UnlinkReq { parent_ino: d.ino, name: "x".to_string() }).unwrap_err();
    assert_eq!(e.code, Code::NotFound);
    let e = s.rmdir(RmdirReq { parent_ino: 99, name: "x".to_string() }).unwrap_err();
    assert_eq!(e.code, Code::NotFound);
}

#[test]
fn unlink_deletes_blocks_where_they_lie() {
    let mut s = service(2);
    beat(&mut s, "a", 0);
    beat(&mut s, "b", 0);
    let (f, _) = create(&mut s, 1, "f");
    let placed = s.allocate_blocks(AllocReq { ino: f.ino, block_idxs: vec![3, 0] }).unwrap().block_map;
    let (_, deletes) = s.unlink(UnlinkReq { parent_ino: 1, name: "f".to_string() }).unwrap();
    assert_eq!(deletes.len(), 4);
    assert_eq!(deletes[0].addr, format!("http://{}:7", placed[1].primary));
    assert_eq!(deletes[1].addr, format!("http://{}:7", placed[1].replicas[0]));
    assert_eq!(deletes[2].addr, format!("http://{}:7", placed[0].primary));
    assert_eq!(deletes[0].key.block_idx, BlockIdx(0));
    assert_eq!(deletes[2].key.block_idx, BlockIdx(3));
    assert_eq!(deletes[3].key.ino, InodeId(f.ino));
    assert_eq!(deletes[3].key.generation.0, 0);
    assert!(lookup(&s, 1, "f").is_err());
    assert!(s.get_attr(GetAttrReq { ino: f.ino }).is_err());
}

#[test]
fn blocks_of_unknown_nodes_are_not_deleted() {
    let mut s = service(1);
    let (f, _) = create(&mut s, 1, "f");
    let placed = s.allocate_blocks(AllocReq { ino: f.ino, block_idxs: vec![0] }).unwrap().block_map;
    assert_eq!(placed[0].primary, "?");
    assert!(placed[0].replicas.is_empty());
    let (_, deletes) = s.unlink(UnlinkReq { parent_ino: 1, name: "f".to_string() }).unwrap();
    assert!(deletes.is_empty());
}

#[test]
fn rename_moves_and_replaces() {
    let mut s = service(1);
    beat(&mut s, "a", 0);
    let (f, _) = create(&mut s, 1, "f");
    let (g, _) = create(&mut s, 1, "g");
    s.allocate_blocks(AllocReq { ino: g.ino, block_idxs: vec![0] }).unwrap();
    let deletes = rename(&mut s, 1, "f", 1, "g").unwrap();
    assert_eq!(deletes.len(), 1);
    assert_eq!(deletes[0].addr, "http://a:7");
    assert_eq!(deletes[0].key.ino, InodeId(g.ino));
    assert_eq!(lookup(&s, 1, "g").unwrap().ino, f.ino);
    assert!(lookup(&s, 1, "f").is_err());
    assert!(s.get_attr(GetAttrReq { ino: g.ino }).is_err());
}

#[test]
fn rename_of_directories_moves_links() {
    let mut s = service(1);
    let a = mkdir(&mut s, 1, "a");
    let b = mkdir(&mut s, 1, "b");
    let c = mkdir(&mut s, a.ino, "c");
    rename(&mut s, a.ino, "c", b.ino, "c").unwrap();
    assert_eq!(attr(&s, a.ino).nlink, 2);
    assert_eq!(attr(&s, b.ino).nlink, 3);
    assert_eq!(lookup(&s, b.ino, "c").unwrap().ino, c.ino);
    // Onto an empty directory: it goes, and so does its link.
    let d = mkdir(&mut s, 1, "d");
    assert_eq!(attr(&s, 1).nlink, 5);
    rename(&mut s, 1, "a", 1, "d").unwrap();
    assert_eq!(attr(&s, 1).nlink, 4);
    assert!(s.get_attr(GetAttrReq { ino: d.ino }).is_err());
}

#[test]
fn rename_refusals() {
    let mut s = service(1);
    let a = mkdir(&mut s, 1, "a");
    mkdir(&mut s, a.ino, "inner");
    create(&mut s, 1, "f");
    assert_eq!(rename(&mut s, 1, "nope", 1, "x").unwrap_err().code, Code::NotFound);
    assert_eq!(
        rename(&mut s, 1, "f", 1, "a").unwrap_err(),
        Status::new(Code::FailedPrecondition, "destination directory not empty")
    );
    assert!(lookup(&s, 1, "f").is_ok());
    // A move into what is no directory leaves the entry where it is.
    assert_eq!(
        rename(&mut s, 1, "f", 77, "f").unwrap_err(),
        Status::new(Code::NotFound, "dst parent not found")
    );
    assert!(lookup(&s, 1, "f").is_ok());
    assert_eq!(rename(&mut s, 1, "nope", 1, "nope").unwrap_err().code, Code::NotFound);
}

#[test]
fn rename_onto_itself_does_nothing() {
    let mut s = service(1);
    beat(&mut s, "a", 0);
    let (f, _) = create(&mut s, 1, "f");
    s.allocate_blocks(AllocReq { ino: f.ino, block_idxs: vec![0] }).unwrap();
    let was = attr(&s, f.ino);
    assert!(rename(&mut s, 1, "f", 1, "f").unwrap().is_empty());
    assert_eq!(lookup(&s, 1, "f").unwrap(), was);
    let d = mkdir(&mut s, 1, "d");
    mkdir(&mut s, d.ino, "inner");
    assert!(rename(&mut s, 1, "d", 1, "d").unwrap().is_empty());
    assert_eq!(attr(&s, d.ino).nlink, 3);
    assert_eq!(attr(&s, 1).nlink, 3);
    assert_eq!(names(&s, 1, b"", 0).0, vec!["d", "f"]);
}

#[test]
fn removing_a_new_directory_undoes_its_making() {
    let mut s = service(1);
    mkdir(&mut s, 1, "kept");
    let was = attr(&s, 1);
    let d = mkdir(&mut s, 1, "d");
    s.rmdir(RmdirReq { parent_ino: 1, name: "d".to_string() }).unwrap();
    assert_eq!(attr(&s, 1), was);
    assert_eq!(names(&s, 1, b"", 0).0, vec!["kept"]);
    assert_eq!(mkdir(&mut s, 1, "d").ino, d.ino + 1);
}

#[test]
fn pages_take_one_request_more_than_the_full_ones() {
    let mut s = service(1);
    for n in 0..6u64 {
        for m in 1..5u32 {
            let mut requests: u64 = 0;
            let mut cookie = Vec::new();
            loop {
                let (_, next, eof) = names(&s, 1, &cookie, m);
                requests += 1;
                if eof {
                    break;
                }
                cookie = next;
            }
            assert_eq!(requests, n / m as u64 + 1);
        }
        create(&mut s, 1, &format!("f{n}"));
    }
}

#[test]
fn handles_are_never_given_out_twice() {
    let mut s = service(1);
    let (f, first) = create(&mut s, 1, "f");
    let mut last = first;
    for _ in 0..5 {
        let fh = s.open(OpenReq { ino: f.ino, flags: 0 }).unwrap().fh;
        assert!(fh > last);
        last = fh;
        close(&mut s, fh, 0, 0, vec![]).unwrap();
    }
}

#[test]
fn listing_in_order_and_in_pages() {
    let mut s = service(1);
    for n in ["b", "a", "ab", "é", "Z", "aa"] {
        create(&mut s, 1, n);
    }
    let d = mkdir(&mut s, 1, "dir");
    let all = vec!["Z", "a", "aa", "ab", "b", "dir", "é"];
    assert_eq!(names(&s, 1, b"", 0).0, all);
    let mut got = Vec::new();
    let mut cookie = Vec::new();
    loop {
        let (page, next, eof) = names(&s, 1, &cookie, 2);
        got.extend(page);
        if eof {
            break;
        }
        cookie = next;
    }
    assert_eq!(got, all);
    // A full last page is not the end; an empty page follows.
    let (page, next, eof) = names(&s, 1, b"ab", 3);
    assert_eq!((page.len(), eof), (3, false));
    assert_eq!(next, "é".as_bytes());
    assert_eq!(names(&s, 1, &next, 3), (vec![], vec![], true));
    // A cookie need not be a name.
    assert_eq!(names(&s, 1, b"ac", 1).0, vec!["b"]);
    // One that is no text starts from the front.
    assert_eq!(names(&s, 1, &[0xff, 0xfe], 1).0, vec!["Z"]);
    let r = s.read_dir(ReadDirReq { ino: 1, cookie: Bytes::from_static(b"b"), max_entries: 1 }).unwrap();
    assert_eq!((r.entries[0].ino, r.entries[0].kind), (d.ino, 2));
    let e = s.read_dir(ReadDirReq { ino: 2, cookie: Bytes::new(), max_entries: 0 }).unwrap_err();
    assert_eq!(e, Status::new(Code::NotFound, "directory not found"));
}

#[test]
fn kinds_have_numbers() {
    assert_eq!(kind_u32(InodeKind::File), 1);
    assert_eq!(kind_u32(InodeKind::Dir), 2);
    assert_eq!(kind_u32(InodeKind::Symlink), 3);
}

fn no_change(ino: u64) -> SetAttrReq {
    SetAttrReq {
        ino,
        size: None,
        mode: None,
        uid: None,
        gid: None,
        atime_s: None,
        atime_ns: None,
        mtime_s: None,
        mtime_ns: None,
    }
}

#[test]
fn attributes_change_as_asked() {
    let mut s = service(1);
    let (f, _) = create(&mut s, 1, "f");
    let (r, deletes) = s
        .set_attr(
            SetAttrReq {
                mode: Some(0o7),
                uid: Some(5),
                gid: Some(6),
                atime_s: Some(-4),
                atime_ns: Some(8),
                mtime_s: Some(50),
                size: Some(123),
                ..no_change(f.ino)
            },
            LATER,
        )
        .unwrap();
    let a = r.attr.unwrap();
    assert!(deletes.is_empty());
    assert_eq!((a.mode, a.uid, a.gid, a.size), (0o7, 5, 6, 123));
    assert_eq!((a.atime_s, a.atime_ns), (0, 8));
    assert_eq!((a.mtime_s, a.mtime_ns), (50, 0));
    assert_eq!((a.ctime_s, a.ctime_ns), (2000, 9));
    assert_eq!(attr(&s, f.ino), a);
    // Nanoseconds without seconds change nothing.
    let (r, _) = s.set_attr(SetAttrReq { mtime_ns: Some(3), ..no_change(f.ino) }, LATER).unwrap();
    assert_eq!(r.attr.unwrap(), a);
    assert_eq!(s.set_attr(no_change(99), LATER).unwrap_err().code, Code::NotFound);
}

#[test]
fn truncation_drops_blocks() {
    let mut s = service(1);
    beat(&mut s, "a", 0);
    let (f, fh) = create(&mut s, 1, "f");
    s.allocate_blocks(AllocReq { ino: f.ino, block_idxs: vec![0, 1, 2] }).unwrap();
    close(&mut s, fh, 0, 3 << 20, vec![0, 1, 2]).unwrap();
    assert_eq!(attr(&s, f.ino).blocks, 3);
    let (r, deletes) =
        s.set_attr(SetAttrReq { size: Some((1 << 20) + 1), ..no_change(f.ino) }, LATER).unwrap();
    assert_eq!(r.attr.unwrap().blocks, 2);
    assert_eq!(deletes.iter().map(|d| d.key.block_idx.0).collect::<Vec<_>>(), vec![2]);
    let (r, deletes) = s.set_attr(SetAttrReq { size: Some(1 << 20), ..no_change(f.ino) }, LATER).unwrap();
    assert_eq!((r.attr.unwrap().blocks, deletes.len()), (1, 1));
    // An empty file keeps its first block; growing drops none.
    let (r, deletes) = s.set_attr(SetAttrReq { size: Some(0), ..no_change(f.ino) }, LATER).unwrap();
    assert_eq!((r.attr.unwrap().blocks, deletes.len()), (1, 0));
    let (r, deletes) = s.set_attr(SetAttrReq { size: Some(9), ..no_change(f.ino) }, LATER).unwrap();
    assert_eq!((r.attr.unwrap().size, deletes.len()), (9, 0));
}

#[test]
fn close_publishes_a_generation() {
    let mut s = service(1);
    let (f, fh) = create(&mut s, 1, "f");
    let a = close(&mut s, fh, 0, 77, vec![0]).unwrap();
    assert_eq!((a.generation, a.size), (1, 77));
    assert_eq!((a.mtime_s, a.mtime_ns), (1990, 3));
    assert_eq!(a.ctime_s, 2000);
    assert_eq!(attr(&s, f.ino), a);
    assert_eq!(close(&mut s, fh, 1, 0, vec![0]).unwrap_err(), Status::new(Code::NotFound, "file handle not found"));
}

#[test]
fn close_without_writes_changes_nothing() {
    let mut s = service(1);
    let (f, fh) = create(&mut s, 1, "f");
    let before = attr(&s, f.ino);
    assert_eq!(close(&mut s, fh, 5, 99, vec![]).unwrap(), before);
    assert_eq!(attr(&s, f.ino), before);
}

#[test]
fn close_time_has_a_floor() {
    let mut s = service(1);
    let (_, fh) = create(&mut s, 1, "f");
    let r = s
        .close(
            CloseReq {
                fh,
                ino: 2,
                expected_generation: 0,
                new_size: 1,
                mtime_s: -7,
                mtime_ns: 1,
                written_block_idxs: vec![0],
            },
            LATER,
        )
        .unwrap();
    let a = r.attr.unwrap();
    assert_eq!((a.mtime_s, a.mtime_ns), (1940, 9));
}

#[test]
fn stale_close_is_refused() {
    let mut s = service(1);
    let (f, first) = create(&mut s, 1, "f");
    let second = s.open(OpenReq { ino: f.ino, flags: 2 }).unwrap();
    assert_eq!(second.attr.unwrap().generation, 0);
    close(&mut s, first, 0, 10, vec![0]).unwrap();
    let e = close(&mut s, second.fh, 0, 20, vec![0]).unwrap_err();
    assert_eq!(e, Status::new(Code::FailedPrecondition, "generation mismatch"));
    assert_eq!((attr(&s, f.ino).generation, attr(&s, f.ino).size), (1, 10));
    assert!(s.state.open_handles.is_empty());
}

#[test]
fn a_close_is_seen_by_every_later_open() {
    let mut s = service(1);
    beat(&mut s, "a", 0);
    let (f, fh) = create(&mut s, 1, "f");
    s.allocate_blocks(AllocReq { ino: f.ino, block_idxs: vec![3, 0] }).unwrap();
    close(&mut s, fh, 0, 77, vec![0, 3]).unwrap();
    let d = mkdir(&mut s, 1, "d");
    create(&mut s, d.ino, "g");
    rename(&mut s, 1, "f", d.ino, "f").unwrap();
    beat(&mut s, "b", 1);
    for _ in 0..2 {
        let r = s.open(OpenReq { ino: f.ino, flags: 0 }).unwrap();
        let a = r.attr.unwrap();
        assert_eq!((a.size, a.generation), (77, 1));
        assert_eq!(r.block_map.iter().map(|l| l.block_idx).collect::<Vec<_>>(), vec![0, 3]);
        assert!(r.block_map.iter().all(|l| l.primary == "a"));
    }
}

#[test]
fn close_of_a_removed_file() {
    let mut s = service(1);
    let (_, fh) = create(&mut s, 1, "f");
    s.unlink(UnlinkReq { parent_ino: 1, name: "f".to_string() }).unwrap();
    assert_eq!(close(&mut s, fh, 0, 1, vec![0]).unwrap_err(), Status::new(Code::NotFound, "inode not found"));
    assert!(s.state.open_handles.is_empty());
}

#[test]
fn open_tells_places_and_handles() {
    let mut s = service(1);
    beat(&mut s, "a", 0);
    let (f, _) = create(&mut s, 1, "f");
    s.allocate_blocks(AllocReq { ino: f.ino, block_idxs: vec![5, 1] }).unwrap();
    let r = s.open(OpenReq { ino: f.ino, flags: u32::MAX }).unwrap();
    assert_eq!(r.fh, 2);
    assert_eq!(r.block_map.iter().map(|b| b.block_idx).collect::<Vec<_>>(), vec![1, 5]);
    assert_eq!(r.block_map[0].primary, "a");
    assert_eq!(s.state.open_handles[&2].flags, -1);
    assert_eq!(s.open(OpenReq { ino: 1, flags: 0 }).unwrap_err(), Status::new(Code::InvalidArgument, "not a file"));
    assert_eq!(s.open(OpenReq { ino: 50, flags: 0 }).unwrap_err().code, Code::NotFound);
}

#[test]
fn places_are_stable() {
    let mut s = service(2);
    for n in ["a", "b", "c"] {
        beat(&mut s, n, 0);
    }
    let (f, _) = create(&mut s, 1, "f");
    let first = s.allocate_blocks(AllocReq { ino: f.ino, block_idxs: vec![4, 4, 2] }).unwrap().block_map;
    assert_eq!(first[0], first[1]);
    assert_eq!(first[0].replicas.len(), 1);
    beat(&mut s, "d", 0);
    s.state.mark_silent(10_000_000_000, 1);
    let again = s.allocate_blocks(AllocReq { ino: f.ino, block_idxs: vec![2, 4] }).unwrap().block_map;
    assert_eq!(again[0], first[2]);
    assert_eq!(again[1], first[0]);
    assert_eq!(s.allocate_blocks(AllocReq { ino: 40, block_idxs: vec![0] }).unwrap_err().code, Code::NotFound);
}

#[test]
fn nodes_come_and_go() {
    let mut s = service(1);
    beat(&mut s, "a", 1_000);
    beat(&mut s, "b", 5_000);
    let r = s.heartbeat_node(
        HeartbeatReq {
            node_id: "a".to_string(),
            addr: "new".to_string(),
            used_bytes: 3,
            capacity_bytes: 9,
            epoch_s: 1,
        },
        2_000,
    );
    let nodes = r.cluster.unwrap().nodes;
    assert_eq!(nodes.len(), 2);
    let a = nodes.iter().find(|n| n.node_id == "a").unwrap();
    assert_eq!((a.addr.as_str(), a.used_bytes, a.capacity_bytes, a.last_heartbeat_s), ("new", 3, 9, 0));
    let downs = s.state.mark_silent(7_000, 4_999);
    assert_eq!(downs.iter().map(|n| n.as_str()).collect::<Vec<_>>(), vec!["a"]);
    assert!(s.state.mark_silent(7_000, 4_999).is_empty());
    assert_eq!(s.list_nodes().nodes.iter().map(|n| n.node_id.as_str()).collect::<Vec<_>>(), vec!["b"]);
    assert_eq!(s.state.live_nodes().len(), 1);
    beat(&mut s, "a", 8_000);
    assert_eq!(s.list_nodes().nodes.len(), 2);
    assert!(s.list_nodes().nodes.iter().all(|n| n.status == NodeStatus::Up));
}

#[test]
fn a_node_at_the_limit_is_not_silent() {
    let mut s = service(1);
    beat(&mut s, "a", 1_000);
    assert!(s.state.mark_silent(6_000, 5_000).is_empty());
    assert!(s.state.mark_silent(500, 5_000).is_empty());
    assert_eq!(s.state.mark_silent(6_001, 5_000).len(), 1);
}

#[test]
fn numbers_wrap_around() {
    let mut s = service(1);
    s.state.next_ino = u64::MAX;
    s.state.next_fh = u64::MAX;
    assert_eq!(s.state.alloc_ino().raw(), u64::MAX);
    assert_eq!(s.state.alloc_fh(), u64::MAX);
    assert_eq!((s.state.next_ino, s.state.next_fh), (0, 0));
}

#[test]
fn new_blocks_go_to_live_nodes_only() {
    let mut s = service(2);
    beat(&mut s, "old", 0);
    beat(&mut s, "a", 100);
    beat(&mut s, "b", 100);
    assert_eq!(s.state.mark_silent(110, 50).len(), 1);
    let (f, _) = create(&mut s, 1, "f");
    let idxs: Vec<u64> = (0..40).collect();
    let map = s.allocate_blocks(AllocReq { ino: f.ino, block_idxs: idxs }).unwrap().block_map;
    for b in &map {
        assert_ne!(b.primary, "old");
        assert_eq!(b.replicas.len(), 1);
        assert_ne!(b.replicas[0], "old");
        assert_ne!(b.replicas[0], b.primary);
    }
    let states = s.state.allocate_blocks(InodeId(f.ino), &[BlockIdx(3)]);
    assert_eq!(states[0].0, BlockIdx(3));
    assert_eq!(states[0].1.primary.as_str(), map[3].primary);
}
