//! The interface between the filesystem and its transport.

pub mod error;
pub mod request;
pub mod response;

pub use self::error::{FuseError, FuseResult};
pub use self::request::UniqRequest;
pub use self::response::{
    FileAttr, FileAttrResponse, FileEntryResponse, FileType, OpenResponse, ReadDirEntry,
    ReadDirResponse, ReadResponse, Timespec,
};

use vstd::prelude::*;

verus! {

/// A filesystem, as its transport sees it: one call per request of the
/// kernel.
pub trait RustFilesystem {
    /// Resolves `name` in the directory `parent`.
    fn lookup<R: UniqRequest>(&mut self, req: &R, parent: u64, name: &str) -> FuseResult<
        FileEntryResponse,
    >;

    /// The attributes of the node `ino`.
    fn getattr<R: UniqRequest>(&mut self, req: &R, ino: u64) -> FuseResult<FileAttrResponse>;

    /// Opens the file `ino` and returns a handle for it.
    fn open<R: UniqRequest>(&mut self, req: &R, ino: u64, flags: u32) -> FuseResult<OpenResponse>;

    /// Reads up to `size` bytes at `offset` through the handle `fh`.
    fn read<R: UniqRequest>(&mut self, req: &R, ino: u64, fh: u64, offset: i64, size: u32) -> FuseResult<
        ReadResponse<'_>,
    >;

    /// Closes the file handle `fh`.
    fn release<R: UniqRequest>(
        &mut self,
        req: &R,
        ino: u64,
        fh: u64,
        flags: u32,
        lock_owner: u64,
        flush: bool,
    ) -> FuseResult<()>;

    /// Opens the directory `ino` and returns a handle for it.
    fn opendir<R: UniqRequest>(&mut self, req: &R, ino: u64, flags: u32) -> FuseResult<
        OpenResponse,
    >;

    /// Lists the entries of the open directory `fh` that follow `offset`.
    fn readdir<R: UniqRequest>(&mut self, req: &R, ino: u64, fh: u64, offset: i64) -> FuseResult<
        ReadDirResponse<'_>,
    >;

    /// Closes the directory handle `fh`.
    fn releasedir<R: UniqRequest>(&mut self, req: &R, ino: u64, fh: u64, flags: u32) -> FuseResult<
        (),
    >;

    /// Ends the filesystem.
    fn destroy<R: UniqRequest>(&mut self, req: &R);
}

} // verus!
