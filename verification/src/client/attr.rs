//! Attributes as the kernel sees them.

use vstd::prelude::*;

use crate::proto::Attr;
use crate::time::Timestamp;

verus! {

/// What the kernel takes an inode for.
#[derive(Copy, Clone, Debug, PartialEq, Eq, Structural)]
pub enum FileType {
    RegularFile,
    Directory,
    Symlink,
}

/// The attributes of an inode as the kernel sees them.
#[derive(Copy, Clone, Debug, PartialEq, Eq, Structural)]
pub struct FileAttr {
    pub ino: u64,
    pub size: u64,
    pub blocks: u64,
    pub atime: Timestamp,
    pub mtime: Timestamp,
    pub ctime: Timestamp,
    pub crtime: Timestamp,
    pub kind: FileType,
    pub perm: u16,
    pub nlink: u32,
    pub uid: u32,
    pub gid: u32,
    pub rdev: u32,
    pub blksize: u32,
    pub flags: u32,
}

/// Attributes, and when they came.
#[derive(Copy, Clone, Debug, PartialEq, Eq, Structural)]
pub struct CachedAttr {
    pub attr: FileAttr,
    pub fetched: u128,
}

/// The type that a mode tells.
pub open spec fn mode_type(mode: u32) -> FileType {
    if mode & 0o170000 == 0o040000 {
        FileType::Directory
    } else if mode & 0o170000 == 0o120000 {
        FileType::Symlink
    } else {
        FileType::RegularFile
    }
}

/// Whether the kernel can be told the times of an inode.
pub open spec fn times_tellable(a: Attr) -> bool {
    &&& a.atime_s >= 0 && Timestamp::representable(a.atime_s as int, a.atime_ns)
    &&& a.mtime_s >= 0 && Timestamp::representable(a.mtime_s as int, a.mtime_ns)
    &&& a.ctime_s >= 0 && Timestamp::representable(a.ctime_s as int, a.ctime_ns)
}

/// The attributes of an inode as the kernel is told them.
pub open spec fn kernel_attr(a: Attr) -> FileAttr {
    FileAttr {
        ino: a.ino,
        size: a.size,
        blocks: a.blocks,
        atime: Timestamp::at(a.atime_s as int, a.atime_ns),
        mtime: Timestamp::at(a.mtime_s as int, a.mtime_ns),
        ctime: Timestamp::at(a.ctime_s as int, a.ctime_ns),
        crtime: Timestamp { secs: 0, nanos: 0 },
        kind: mode_type(a.mode),
        perm: (a.mode & 0o7777) as u16,
        nlink: a.nlink,
        uid: a.uid,
        gid: a.gid,
        rdev: 0,
        blksize: 0x10_0000,
        flags: 0,
    }
}

fn tellable(secs: i64, nanos: u32) -> (r: bool)
    ensures
        r == (secs >= 0 && Timestamp::representable(secs as int, nanos)),
{
    secs >= 0 && secs <= i64::MAX - (nanos / crate::time::NANOS_PER_SEC) as i64
}

/// Whether the kernel can be told the times of an inode.
pub fn attr_tellable(a: &Attr) -> (r: bool)
    ensures
        r == times_tellable(*a),
{
    tellable(a.atime_s, a.atime_ns) && tellable(a.mtime_s, a.mtime_ns) && tellable(
        a.ctime_s,
        a.ctime_ns,
    )
}

pub fn proto_attr_to_fuse(a: &Attr) -> (r: FileAttr)
    requires
        times_tellable(*a),
    ensures
        r == kernel_attr(*a),
{
    let kind = if a.mode & 0o170000 == 0o040000 {
        FileType::Directory
    } else if a.mode & 0o170000 == 0o120000 {
        FileType::Symlink
    } else {
        FileType::RegularFile
    };
    let mode: u32 = a.mode;
    assert(mode & 0o7777 <= 0o7777) by (bit_vector);
    FileAttr {
        ino: a.ino,
        size: a.size,
        blocks: a.blocks,
        atime: Timestamp::after_epoch(a.atime_s as u64, a.atime_ns),
        mtime: Timestamp::after_epoch(a.mtime_s as u64, a.mtime_ns),
        ctime: Timestamp::after_epoch(a.ctime_s as u64, a.ctime_ns),
        crtime: Timestamp { secs: 0, nanos: 0 },
        kind,
        perm: (a.mode & 0o7777) as u16,
        nlink: a.nlink,
        uid: a.uid,
        gid: a.gid,
        rdev: 0,
        blksize: 0x10_0000,
        flags: 0,
    }
}

/// The type that a kind in a directory listing stands for.
pub open spec fn number_type(kind: u32) -> FileType {
    match kind {
        2 => FileType::Directory,
        3 => FileType::Symlink,
        _ => FileType::RegularFile,
    }
}

pub fn proto_kind_to_fuse(kind: u32) -> (r: FileType)
    ensures
        r == number_type(kind),
{
    match kind {
        2 => FileType::Directory,
        3 => FileType::Symlink,
        _ => FileType::RegularFile,
    }
}

} // verus!
