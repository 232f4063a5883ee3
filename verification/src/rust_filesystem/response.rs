//! What the filesystem answers.

use vstd::prelude::*;

verus! {

/// The kind of a node, as the transport knows it.
#[derive(Clone, Copy, PartialEq, Eq, Debug, Hash, Structural)]
pub enum FileType {
    NamedPipe,
    CharDevice,
    BlockDevice,
    Directory,
    RegularFile,
    Symlink,
    Socket,
}

/// A point in time or a span of time, in seconds and nanoseconds.
#[derive(Clone, Copy, PartialEq, Eq, Debug, Hash, Structural)]
pub struct Timespec {
    pub sec: i64,
    pub nsec: i32,
}

/// The attributes of a node.
#[derive(Clone, Copy, PartialEq, Eq, Debug, Structural)]
pub struct FileAttr {
    /// Inode number.
    pub ino: u64,
    /// Size in bytes; for an album, the number of its media items.
    pub size: u64,
    /// Size in blocks.
    pub blocks: u64,
    /// Time of last access.
    pub atime: Timespec,
    /// Time of last modification.
    pub mtime: Timespec,
    /// Time of last change.
    pub ctime: Timespec,
    /// Time of creation.
    pub crtime: Timespec,
    /// Kind of node.
    pub kind: FileType,
    /// Permissions.
    pub perm: u16,
    /// Number of hard links.
    pub nlink: u32,
    /// Owner.
    pub uid: u32,
    /// Group.
    pub gid: u32,
    /// Device number.
    pub rdev: u32,
    /// Flags.
    pub flags: u32,
}

/// The answer to a lookup by name.
#[derive(Clone, Copy, PartialEq, Eq, Debug, Structural)]
pub struct FileEntryResponse {
    /// How long the answer may be cached.
    pub ttl: Timespec,
    pub attr: FileAttr,
    pub generation: u64,
}

/// The answer to a query for attributes.
#[derive(Clone, Copy, PartialEq, Eq, Debug, Structural)]
pub struct FileAttrResponse {
    /// How long the answer may be cached.
    pub ttl: Timespec,
    pub attr: FileAttr,
}

/// The answer to opening a file or a directory.
#[derive(Clone, Copy, PartialEq, Eq, Debug, Structural)]
pub struct OpenResponse {
    /// The handle.
    pub fh: u64,
    pub flags: u32,
}

/// The bytes that a read returns.
#[derive(PartialEq, Eq, Debug)]
pub struct ReadResponse<'a> {
    pub data: &'a [u8],
}

/// One entry of a directory listing.
#[derive(Clone, Copy, PartialEq, Eq, Debug)]
pub struct ReadDirEntry<'a> {
    pub ino: u64,
    /// The offset to resume the listing after this entry.
    pub offset: i64,
    pub kind: FileType,
    pub name: &'a str,
}

/// The entries that a directory listing returns.
#[derive(PartialEq, Eq, Debug)]
pub struct ReadDirResponse<'a> {
    pub entries: Vec<ReadDirEntry<'a>>,
}

} // verus!
