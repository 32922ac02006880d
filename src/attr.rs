//! Translation of the tree store's metadata into file attributes.

use vstd::prelude::*;

verus! {

/// The size reported for an entry whose stored size is zero.
pub const NOMINAL_SIZE: u64 = 4096;

/// Permission bits of a directory: read and traverse for all, write for
/// the owner.
pub const DIR_PERM: u16 = 0o755;

/// Permission bits of a regular file: read for all, write for the owner.
pub const FILE_PERM: u16 = 0o644;

/// The block size reported for every entry.
pub const BLOCK_SIZE: u32 = 512;

/// The owning user and group reported for every entry.
pub const OWNER_ID: u32 = 1000;

/// The kind of an entry as the tree store reports it.
#[derive(Clone, Copy, Debug, PartialEq, Eq, Structural)]
pub enum SourceKind {
    Unknown,
    Regular,
    Directory,
    SymbolicLink,
    Special,
    Shortcut,
    Mountable,
}

/// The two kinds of entry that the filesystem presents.
#[derive(Clone, Copy, Debug, PartialEq, Eq, Structural)]
pub enum FileKind {
    Directory,
    RegularFile,
}

/// An instant as seconds and nanoseconds since the Unix epoch.
#[derive(Clone, Copy, Debug, PartialEq, Eq, Structural)]
pub struct Timestamp {
    pub secs: i64,
    pub nanos: u32,
}

/// What the tree store reports of one entry.
#[derive(Clone, Copy, Debug, PartialEq, Eq, Structural)]
pub struct Metadata {
    pub kind: SourceKind,
    pub size: u64,
    pub mtime: Timestamp,
}

/// The attribute record handed to the kernel bridge.
#[derive(Clone, Copy, Debug, PartialEq, Eq, Structural)]
pub struct FileAttr {
    pub ino: u64,
    pub size: u64,
    pub blocks: u64,
    pub atime: Timestamp,
    pub mtime: Timestamp,
    pub ctime: Timestamp,
    pub crtime: Timestamp,
    pub kind: FileKind,
    pub perm: u16,
    pub nlink: u32,
    pub uid: u32,
    pub gid: u32,
    pub rdev: u32,
    pub flags: u32,
    pub blksize: u32,
}

/// Directories stay directories; every other kind becomes a regular file.
pub open spec fn kind_spec(k: SourceKind) -> FileKind {
    if k == SourceKind::Directory {
        FileKind::Directory
    } else {
        FileKind::RegularFile
    }
}

/// The attribute record of an entry with metadata `m` and inode `ino`.
pub open spec fn attr_spec(m: Metadata, ino: u64) -> FileAttr {
    FileAttr {
        ino,
        size: if m.size == 0 { NOMINAL_SIZE } else { m.size },
        blocks: 0,
        atime: m.mtime,
        mtime: m.mtime,
        ctime: m.mtime,
        crtime: m.mtime,
        kind: kind_spec(m.kind),
        perm: if kind_spec(m.kind) == FileKind::Directory { DIR_PERM } else { FILE_PERM },
        nlink: 0,
        uid: OWNER_ID,
        gid: OWNER_ID,
        rdev: 0,
        flags: 0,
        blksize: BLOCK_SIZE,
    }
}

/// The presented kind of a stored kind.
pub fn file_kind(k: SourceKind) -> (r: FileKind)
    ensures
        r == kind_spec(k),
{
    match k {
        SourceKind::Directory => FileKind::Directory,
        _ => FileKind::RegularFile,
    }
}

/// Translates the metadata of an entry into its attribute record.
pub fn info2attr(m: &Metadata, ino: u64) -> (r: FileAttr)
    ensures
        r == attr_spec(*m, ino),
{
    let size: u64 = if m.size == 0 { NOMINAL_SIZE } else { m.size };
    let kind = file_kind(m.kind);
    let perm: u16 = match kind {
        FileKind::Directory => DIR_PERM,
        FileKind::RegularFile => FILE_PERM,
    };
    FileAttr {
        ino,
        size,
        blocks: 0,
        atime: m.mtime,
        mtime: m.mtime,
        ctime: m.mtime,
        crtime: m.mtime,
        kind,
        perm,
        nlink: 0,
        uid: OWNER_ID,
        gid: OWNER_ID,
        rdev: 0,
        flags: 0,
        blksize: BLOCK_SIZE,
    }
}

/// Directory-size floor: a directory whose stored size is zero is
/// presented with the nominal, non-zero size.
pub proof fn lemma_directory_size_floor(m: Metadata, ino: u64)
    requires
        m.size == 0,
        m.kind == SourceKind::Directory,
    ensures
        attr_spec(m, ino).size == NOMINAL_SIZE,
        attr_spec(m, ino).size != 0,
        attr_spec(m, ino).kind == FileKind::Directory,
{
}

} // verus!
