//! The filesystem: lookups, attributes, directory listings and reads,
//! answered from the cache store.

pub mod error;
pub mod utils;

pub use self::error::PhotoFsError;
pub use self::utils::{make_atr, make_atr_for, OpenFileHandles};

use self::utils::{file_attr, is_exhausted, is_lowest_free};
use crate::db::model::CacheView;
use crate::db::photo_db::{CacheStore, Filter, PhotoDbRo};
use crate::domain::{
    optional_record, records, EntityRecord, Inode, MediaTypes, PhotoDbAlbum, PhotoDbMediaItemAlbum,
};
use crate::photolib::{RemotePhotoLibData, RemotePhotoLibError};
use crate::rust_filesystem::{
    FileAttr, FileAttrResponse, FileEntryResponse, FileType, FuseError, FuseResult, OpenResponse,
    ReadDirEntry, ReadDirResponse, ReadResponse, RustFilesystem, Timespec, UniqRequest,
};
use crate::text::{ends_with, lowercase_of, str_eq, to_lowercase};
use crate::text_set::TextSet;
use vstd::prelude::*;
use vstd::slice::slice_subrange;

verus! {

/// The inode number of the root directory.
pub const FIXED_INODE_ROOT: u64 = 1;

/// The inode number of the directory that lists the albums.
pub const FIXED_INODE_ALBUMS: u64 = 2;

/// The inode number of the directory that lists all media items.
pub const FIXED_INODE_MEDIA: u64 = 3;

/// The inode number of the diagnostic file.
pub const FIXED_INODE_HELLO_WORLD: u64 = 4;

/// For how many seconds the transport may cache an answer.
pub const TTL_SECONDS: i64 = 120;

/// The generation of every node: inode numbers are never reused.
pub const GENERATION: u64 = 0;

/// The size that a media item reports before its content is fetched.
pub const DEFAULT_MEDIA_ITEM_SIZE: usize = 1024;

/// The size of the diagnostic file.
pub const HELLO_TXT_SIZE: usize = 13;

/// The size that the root directory reports.
pub const ROOT_SIZE: usize = 4;

/// The flag that tells the transport to serve reads as they come,
/// without a cache of its own.
pub const FOPEN_DIRECT_IO: u32 = 1;

/// The content of the diagnostic file: `Hello World!` and a line feed.
pub open spec fn hello_txt_content() -> Seq<u8> {
    seq![72u8, 101u8, 108u8, 108u8, 111u8, 32u8, 87u8, 111u8, 114u8, 108u8, 100u8, 33u8, 10u8]
}

/// For how long the transport may cache an answer.
pub open spec fn ttl() -> Timespec {
    Timespec { sec: TTL_SECONDS, nsec: 0 }
}

/// What a lookup or a query for attributes finds: a node's number, the
/// size it reports and its kind.
pub struct Node {
    pub ino: nat,
    pub size: nat,
    pub kind: FileType,
}

/// The node of a media item.
pub open spec fn media_node(item: EntityRecord) -> Node {
    Node { ino: item.stable_id, size: DEFAULT_MEDIA_ITEM_SIZE as nat, kind: FileType::RegularFile }
}

/// The node of an album: a directory whose size is the number of its
/// media items.
pub open spec fn album_node(db: CacheView, album: EntityRecord) -> Node {
    Node {
        ino: album.stable_id,
        size: db.in_album(album.stable_id).len(),
        kind: FileType::Directory,
    }
}

/// The node that `name` stands for in the root directory.
pub open spec fn root_child(name: Seq<char>) -> Option<Node> {
    if name == "hello.txt"@ {
        Some(
            Node {
                ino: FIXED_INODE_HELLO_WORLD as nat,
                size: hello_txt_content().len(),
                kind: FileType::RegularFile,
            },
        )
    } else if name == "albums"@ {
        Some(Node { ino: FIXED_INODE_ALBUMS as nat, size: 0, kind: FileType::Directory })
    } else if name == "media"@ {
        Some(Node { ino: FIXED_INODE_MEDIA as nat, size: 0, kind: FileType::Directory })
    } else {
        None
    }
}

/// The node that `name` stands for in the directory `parent`: in the
/// root, one of its three fixed entries; among the albums, the album of
/// that name; among all media items, the media item of that name; in an
/// album, the media item of that name that belongs to it.
pub open spec fn lookup_target(db: CacheView, parent: u64, name: Seq<char>) -> Option<Node> {
    if parent == FIXED_INODE_ROOT {
        root_child(name)
    } else if parent == FIXED_INODE_ALBUMS {
        match db.by_name(name, MediaTypes::Album) {
            Some(album) => Some(album_node(db, album)),
            None => None,
        }
    } else if parent == FIXED_INODE_MEDIA {
        match db.by_name(name, MediaTypes::MediaItem) {
            Some(item) => Some(media_node(item)),
            None => None,
        }
    } else {
        match db.by_inode_of_kind(parent as nat, MediaTypes::Album) {
            Some(album) => match db.by_name_in_album(name, album.remote_id) {
                Some(item) => Some(media_node(item)),
                None => None,
            },
            None => None,
        }
    }
}

/// The node with the inode number `ino`: one of the four fixed nodes, or
/// the album or media item that has the number.
pub open spec fn getattr_target(db: CacheView, ino: u64) -> Option<Node> {
    if ino == FIXED_INODE_ROOT {
        Some(Node { ino: ino as nat, size: ROOT_SIZE as nat, kind: FileType::Directory })
    } else if ino == FIXED_INODE_ALBUMS || ino == FIXED_INODE_MEDIA {
        Some(Node { ino: ino as nat, size: 0, kind: FileType::Directory })
    } else if ino == FIXED_INODE_HELLO_WORLD {
        Some(
            Node {
                ino: ino as nat,
                size: hello_txt_content().len(),
                kind: FileType::RegularFile,
            },
        )
    } else {
        match db.by_inode(ino as nat) {
            Some(item) => Some(
                match item.kind {
                    MediaTypes::Album => album_node(db, item),
                    MediaTypes::MediaItem => media_node(item),
                },
            ),
            None => None,
        }
    }
}

/// Whether `attr` are the attributes of `node`, whoever the owner is.
pub open spec fn describes(attr: FileAttr, node: Node) -> bool {
    &&& attr.ino == node.ino
    &&& attr.size == node.size
    &&& attr == file_attr(attr.ino, attr.size, node.kind, attr.uid)
}

/// Whether a lookup answered as it must for what it was to find.
pub open spec fn answers_lookup(r: FuseResult<FileEntryResponse>, target: Option<Node>) -> bool {
    match target {
        Some(node) => r matches Ok(response) && response.ttl == ttl() && response.generation
            == GENERATION && describes(response.attr, node),
        None => r == Err::<FileEntryResponse, FuseError>(FuseError::FunctionNotImplemented),
    }
}

/// Whether a query for attributes answered as it must for what it was
/// to find.
pub open spec fn answers_getattr(r: FuseResult<FileAttrResponse>, target: Option<Node>) -> bool {
    match target {
        Some(node) => r matches Ok(response) && response.ttl == ttl() && describes(
            response.attr,
            node,
        ),
        None => r == Err::<FileAttrResponse, FuseError>(FuseError::FunctionNotImplemented),
    }
}

/// Whether a name in lower case ends like the name of a video.
pub open spec fn is_video_name(lowercase_name: Seq<char>) -> bool {
    ".mp4"@.is_suffix_of(lowercase_name) || ".mts"@.is_suffix_of(lowercase_name)
        || ".avi"@.is_suffix_of(lowercase_name)
}

/// Whether a name in lower case ends like the name of a video: in `.mp4`,
/// `.mts` or `.avi`.
pub fn has_video_extension(lowercase_name: &str) -> (video: bool)
    ensures
        video == is_video_name(lowercase_name@),
{
    ends_with(lowercase_name, ".mp4") || ends_with(lowercase_name, ".mts") || ends_with(
        lowercase_name,
        ".avi",
    )
}

/// Whether a media item of this name is fetched as a video: whether its
/// name, in lower case, ends like the name of one.
pub fn is_video(filename: &str) -> (video: bool)
    ensures
        video == is_video_name(lowercase_of(filename@)),
{
    let lowercase_name = to_lowercase(filename);
    has_video_extension(lowercase_name.as_str())
}

/// The bytes that a read of `size` bytes at `offset` returns from `data`:
/// those from `offset` to the end of the read or of the data, whichever
/// comes first, and none where `offset` lies outside the data.
pub open spec fn read_slice(data: Seq<u8>, offset: int, size: int) -> Seq<u8> {
    if offset < 0 || offset >= data.len() {
        Seq::empty()
    } else if offset + size >= data.len() {
        data.subrange(offset, data.len() as int)
    } else {
        data.subrange(offset, offset + size)
    }
}

/// What a read through the handle `fh` of the node `ino` returns: nothing
/// unless the handle is open for that node.
pub open spec fn read_target(
    files: Map<u64, OpenFile>,
    ino: u64,
    fh: u64,
    offset: int,
    size: int,
) -> Option<Seq<u8>> {
    if files.contains_key(fh) && files[fh].inode == ino {
        Some(read_slice(files[fh].data, offset, size))
    } else {
        None
    }
}

/// Whether opening the node `ino` with content `data` went as it must:
/// the lowest free handle at or above `ino` now stands for the content,
/// or no such handle was free and nothing changed.
pub open spec fn opens(
    before: Map<u64, OpenFile>,
    after: Map<u64, OpenFile>,
    ino: u64,
    data: Seq<u8>,
    r: FuseResult<OpenResponse>,
) -> bool {
    if is_exhausted(before.dom(), ino) {
        r == Err::<OpenResponse, FuseError>(FuseError::FunctionNotImplemented) && after == before
    } else {
        r matches Ok(response) && response.flags == FOPEN_DIRECT_IO && is_lowest_free(
            before.dom(),
            ino,
            response.fh,
        ) && after == before.insert(response.fh, OpenFile { inode: ino, data })
    }
}

/// What opening a node for reading takes.
#[derive(Debug)]
pub enum OpenPlan {
    /// The content is at hand.
    Content(Vec<u8>),
    /// The content is to be fetched from the remote library.
    Fetch { google_id: String, is_video: bool },
}

/// Whether a plan is the one for opening the node `ino`: the fixed
/// content for the diagnostic file, a fetch for a media item, as a video
/// where its name says so, and a failure for anything else.
pub open spec fn plans_open(db: CacheView, ino: u64, plan: FuseResult<OpenPlan>) -> bool {
    if ino == FIXED_INODE_HELLO_WORLD {
        plan matches Ok(OpenPlan::Content(data)) && data@ == hello_txt_content()
    } else {
        match db.by_inode_of_kind(ino as nat, MediaTypes::MediaItem) {
            Some(item) => plan matches Ok(OpenPlan::Fetch { google_id, is_video }) && google_id@
                == item.remote_id && is_video == is_video_name(lowercase_of(item.display_name)),
            None => plan matches Err(e) && e == FuseError::FunctionNotImplemented,
        }
    }
}

/// An open file: the node it reads and the bytes it serves.
pub struct OpenFile {
    pub inode: Inode,
    pub data: Seq<u8>,
}

/// One entry of a directory.
pub struct DirEntry {
    pub ino: nat,
    pub kind: FileType,
    pub name: Seq<char>,
}

/// An open directory: the node it lists and its entries, as they were
/// when it was opened.
pub struct OpenDir {
    pub inode: Inode,
    pub entries: Seq<DirEntry>,
}

/// Whether an earlier record of the listing is shown under the name of
/// record number `i`.
pub open spec fn named_before(items: Seq<EntityRecord>, i: int) -> bool {
    exists|j: int| 0 <= j < i && (#[trigger] items[j]).display_name == items[i].display_name
}

/// The listing without the records whose name an earlier record has
/// already: of the records of one name, the first stays.
pub open spec fn first_by_name(items: Seq<EntityRecord>) -> Seq<EntityRecord>
    decreases items.len(),
{
    if items.len() == 0 {
        items
    } else if named_before(items, items.len() - 1) {
        first_by_name(items.drop_last())
    } else {
        first_by_name(items.drop_last()).push(items.last())
    }
}

/// The entry of a record in a directory of nodes of the given kind.
pub open spec fn child_entry(item: EntityRecord, kind: FileType) -> DirEntry {
    DirEntry { ino: item.stable_id, kind, name: item.display_name }
}

/// The entries of a directory that shows the given records: one for each
/// name, in the order of the listing.
pub open spec fn child_entries(items: Seq<EntityRecord>, kind: FileType) -> Seq<DirEntry> {
    first_by_name(items).map_values(|item: EntityRecord| child_entry(item, kind))
}

/// The entry of a directory for itself.
pub open spec fn dot(ino: u64) -> DirEntry {
    DirEntry { ino: ino as nat, kind: FileType::Directory, name: "."@ }
}

/// The entry of a directory for the directory above it.
pub open spec fn dot_dot(parent: u64) -> DirEntry {
    DirEntry { ino: parent as nat, kind: FileType::Directory, name: ".."@ }
}

/// The entries of the directory `ino`, if it is one. The root holds the
/// albums directory, the media directory and the diagnostic file, in
/// that order; the albums directory holds the albums; the media
/// directory holds all media items; the directory of an album holds its
/// media items. Where several records share a name, the first by remote
/// identifier is shown.
pub open spec fn directory(db: CacheView, ino: u64) -> Option<Seq<DirEntry>> {
    if ino == FIXED_INODE_ROOT {
        Some(
            seq![
                dot(ino),
                DirEntry {
                    ino: FIXED_INODE_ALBUMS as nat,
                    kind: FileType::Directory,
                    name: "albums"@,
                },
                DirEntry {
                    ino: FIXED_INODE_MEDIA as nat,
                    kind: FileType::Directory,
                    name: "media"@,
                },
                DirEntry {
                    ino: FIXED_INODE_HELLO_WORLD as nat,
                    kind: FileType::RegularFile,
                    name: "hello.txt"@,
                },
            ],
        )
    } else if ino == FIXED_INODE_ALBUMS {
        Some(
            seq![dot(ino), dot_dot(FIXED_INODE_ROOT)] + child_entries(
                db.of_kind(MediaTypes::Album),
                FileType::Directory,
            ),
        )
    } else if ino == FIXED_INODE_MEDIA {
        Some(
            seq![dot(ino), dot_dot(FIXED_INODE_ROOT)] + child_entries(
                db.of_kind(MediaTypes::MediaItem),
                FileType::RegularFile,
            ),
        )
    } else if db.by_inode_of_kind(ino as nat, MediaTypes::Album) is Some {
        Some(
            seq![dot(ino), dot_dot(FIXED_INODE_ALBUMS)] + child_entries(
                db.in_album(ino as nat),
                FileType::RegularFile,
            ),
        )
    } else {
        None
    }
}

/// Scanning one record further adds it to the shown records unless an
/// earlier record has its name.
pub proof fn lemma_first_by_name_step(items: Seq<EntityRecord>, i: int)
    requires
        0 <= i < items.len(),
    ensures
        first_by_name(items.take(i + 1)) == (if named_before(items, i) {
            first_by_name(items.take(i))
        } else {
            first_by_name(items.take(i)).push(items[i])
        }),
{
    let scanned = items.take(i + 1);
    assert(scanned.drop_last() =~= items.take(i));
    assert(scanned.last() == items[i]);
    if named_before(items, i) {
        let j = choose|j: int|
            0 <= j < i && (#[trigger] items[j]).display_name == items[i].display_name;
        assert(scanned[j].display_name == scanned[i].display_name);
    }
    if named_before(scanned, i) {
        let j = choose|j: int|
            0 <= j < i && (#[trigger] scanned[j]).display_name == scanned[i].display_name;
        assert(items[j].display_name == items[i].display_name);
    }
}

/// The mathematical value of a row of directory entries.
pub open spec fn entries_view(entries: Seq<(u64, FileType, String)>) -> Seq<DirEntry> {
    entries.map_values(|entry: (u64, FileType, String)| entry_view(entry))
}

/// Whether opening the directory `ino` with the given entries went as it
/// must: the lowest free handle at or above `ino` now stands for the
/// listing, or no such handle was free and nothing changed.
pub open spec fn opens_dir(
    before: Map<u64, OpenDir>,
    after: Map<u64, OpenDir>,
    ino: u64,
    entries: Seq<DirEntry>,
    r: FuseResult<OpenResponse>,
) -> bool {
    if is_exhausted(before.dom(), ino) {
        r == Err::<OpenResponse, FuseError>(FuseError::FunctionNotImplemented) && after == before
    } else {
        r matches Ok(response) && response.flags == 0 && is_lowest_free(
            before.dom(),
            ino,
            response.fh,
        ) && after == before.insert(response.fh, OpenDir { inode: ino, entries })
    }
}

/// The number of entries of a listing that an offset can address.
pub open spec fn listing_end(len: int) -> int {
    if len > i64::MAX {
        i64::MAX as int
    } else {
        len
    }
}

/// The position at which a listing resumes after `offset`: every entry
/// is returned with its position plus one as its offset, so the listing
/// resumes at the position `offset`, or at its start or end where
/// `offset` lies outside it.
pub open spec fn resume_index(offset: int, end: int) -> int {
    if offset <= 0 {
        0
    } else if offset >= end {
        end
    } else {
        offset
    }
}

/// Whether a listing through the handle `fh` of the directory `ino`
/// answered as it must: with the entries from the one after `offset` on,
/// or with a failure unless the handle is open for that directory.
pub open spec fn answers_readdir(
    r: FuseResult<ReadDirResponse<'_>>,
    dirs: Map<u64, OpenDir>,
    ino: u64,
    fh: u64,
    offset: int,
) -> bool {
    if dirs.contains_key(fh) && dirs[fh].inode == ino {
        let entries = dirs[fh].entries;
        let end = listing_end(entries.len() as int);
        let start = resume_index(offset, end);
        r matches Ok(response) && response.entries@.len() == end - start && forall|k: int|
            #![trigger response.entries@[k]]
            0 <= k < end - start ==> {
                &&& response.entries@[k].ino == entries[start + k].ino
                &&& response.entries@[k].kind == entries[start + k].kind
                &&& response.entries@[k].name@ == entries[start + k].name
                &&& response.entries@[k].offset == start + k + 1
            }
    } else {
        r is Err
    }
}

/// What an open file handle holds.
#[derive(Debug)]
pub struct ReadFhEntry {
    pub inode: Inode,
    pub data: Vec<u8>,
}

impl View for ReadFhEntry {
    type V = OpenFile;

    open spec fn view(&self) -> OpenFile {
        OpenFile { inode: self.inode, data: self.data@ }
    }
}

/// The mathematical value of a directory entry.
pub open spec fn entry_view(entry: (u64, FileType, String)) -> DirEntry {
    DirEntry { ino: entry.0 as nat, kind: entry.1, name: entry.2@ }
}

/// What an open directory handle holds.
#[derive(Debug)]
pub struct ReadDirFhEntry {
    pub inode: Inode,
    pub entries: Vec<(u64, FileType, String)>,
}

impl View for ReadDirFhEntry {
    type V = OpenDir;

    open spec fn view(&self) -> OpenDir {
        OpenDir {
            inode: self.inode,
            entries: self.entries@.map_values(|entry: (u64, FileType, String)| entry_view(entry)),
        }
    }
}

/// The filesystem: a cache store, the remote library that serves the
/// content of media items, and the handles that are open.
pub struct PhotoFs<X> where X: RemotePhotoLibData {
    photo_lib: X,
    pub photo_db: CacheStore,
    open_files: OpenFileHandles<ReadFhEntry>,
    open_dirs: OpenFileHandles<ReadDirFhEntry>,
}

impl<X> PhotoFs<X> where X: RemotePhotoLibData {
    /// The contents of the cache store.
    pub closed spec fn db(&self) -> CacheView {
        self.photo_db@
    }

    /// The open files, by handle.
    pub closed spec fn files(&self) -> Map<u64, OpenFile> {
        self.open_files@.map_values(|entry: ReadFhEntry| entry@)
    }

    /// The open directories, by handle.
    pub closed spec fn dirs(&self) -> Map<u64, OpenDir> {
        self.open_dirs@.map_values(|entry: ReadDirFhEntry| entry@)
    }

    /// A filesystem over the given cache store, with no handle open.
    pub fn new(photo_lib: X, photo_db: CacheStore) -> (fs: PhotoFs<X>)
        ensures
            fs.db() == photo_db@,
            fs.files() == Map::<u64, OpenFile>::empty(),
            fs.dirs() == Map::<u64, OpenDir>::empty(),
    {
        let fs = PhotoFs {
            photo_lib,
            photo_db,
            open_files: OpenFileHandles::new(),
            open_dirs: OpenFileHandles::new(),
        };
        proof {
            assert(fs.files() =~= Map::<u64, OpenFile>::empty());
            assert(fs.dirs() =~= Map::<u64, OpenDir>::empty());
        }
        fs
    }

    fn entry_response(inode: Inode, size: usize, file_type: FileType) -> (r: FuseResult<
        FileEntryResponse,
    >)
        ensures
            answers_lookup(r, Some(Node { ino: inode as nat, size: size as nat, kind: file_type })),
    {
        Ok(
            FileEntryResponse {
                ttl: Timespec { sec: TTL_SECONDS, nsec: 0 },
                attr: make_atr(inode, size, file_type),
                generation: GENERATION,
            },
        )
    }

    fn lookup_root<R: UniqRequest>(&self, _req: &R, name: &str) -> (r: FuseResult<
        FileEntryResponse,
    >)
        ensures
            answers_lookup(r, root_child(name@)),
    {
        if str_eq(name, "hello.txt") {
            Self::entry_response(FIXED_INODE_HELLO_WORLD, HELLO_TXT_SIZE, FileType::RegularFile)
        } else if str_eq(name, "albums") {
            Self::entry_response(FIXED_INODE_ALBUMS, 0, FileType::Directory)
        } else if str_eq(name, "media") {
            Self::entry_response(FIXED_INODE_MEDIA, 0, FileType::Directory)
        } else {
            Err(FuseError::FunctionNotImplemented)
        }
    }

    fn lookup_albums<R: UniqRequest>(&self, _req: &R, name: &str) -> (r: FuseResult<
        FileEntryResponse,
    >)
        ensures
            answers_lookup(r, lookup_target(self.db(), FIXED_INODE_ALBUMS, name@)),
    {
        match self.photo_db.album_by_name(name) {
            Ok(Some(album)) => {
                let size = self.photo_db.media_items_in_album_length(album.inode)?;
                Self::entry_response(album.inode, size, FileType::Directory)
            },
            Ok(None) => Err(FuseError::FunctionNotImplemented),
            Err(_) => Err(FuseError::FunctionNotImplemented),
        }
    }

    fn lookup_media<R: UniqRequest>(&self, _req: &R, name: &str, filter: Filter<'_>) -> (r:
        FuseResult<FileEntryResponse>)
        ensures
            answers_lookup(
                r,
                match (match filter.album() {
                    None => self.db().by_name(name@, MediaTypes::MediaItem),
                    Some(album_id) => self.db().by_name_in_album(name@, album_id),
                }) {
                    Some(item) => Some(media_node(item)),
                    None => None,
                },
            ),
    {
        match self.photo_db.media_item_by_name(name, filter) {
            Ok(Some(media_item)) => Self::entry_response(
                media_item.inode,
                DEFAULT_MEDIA_ITEM_SIZE,
                FileType::RegularFile,
            ),
            Ok(None) => Err(FuseError::FunctionNotImplemented),
            Err(_) => Err(FuseError::FunctionNotImplemented),
        }
    }

    fn hello_txt() -> (content: Vec<u8>)
        ensures
            content@ == hello_txt_content(),
    {
        let content: Vec<u8> = vec![
            72u8,
            101u8,
            108u8,
            108u8,
            111u8,
            32u8,
            87u8,
            111u8,
            114u8,
            108u8,
            100u8,
            33u8,
            10u8,
        ];
        assert(content@ =~= hello_txt_content());
        content
    }

    /// What opening the node `ino` takes: nothing more for the diagnostic
    /// file, a fetch from the remote library for a media item. Fails
    /// where `ino` is neither.
    pub fn plan_open(&self, ino: u64) -> (plan: FuseResult<OpenPlan>)
        ensures
            plans_open(self.db(), ino, plan),
    {
        if ino == FIXED_INODE_HELLO_WORLD {
            Ok(OpenPlan::Content(Self::hello_txt()))
        } else {
            match self.photo_db.media_item_by_inode(ino) {
                Err(_) => Err(FuseError::FunctionNotImplemented),
                Ok(None) => Err(FuseError::FunctionNotImplemented),
                Ok(Some(media_item)) => {
                    let is_video = is_video(media_item.name.as_str());
                    Ok(OpenPlan::Fetch { google_id: media_item.id, is_video })
                },
            }
        }
    }

    /// Opens the node `ino` with the content that was fetched for it, or
    /// fails where fetching failed.
    pub fn finish_open(&mut self, ino: u64, fetched: Result<Vec<u8>, RemotePhotoLibError>) -> (r:
        FuseResult<OpenResponse>)
        ensures
            match fetched {
                Ok(data) => opens(old(self).files(), final(self).files(), ino, data@, r),
                Err(_) => r == Err::<OpenResponse, FuseError>(FuseError::FunctionNotImplemented)
                    && final(self).files() == old(self).files(),
            },
            final(self).db() == old(self).db(),
            final(self).dirs() == old(self).dirs(),
    {
        match fetched {
            Err(_) => Err(FuseError::FunctionNotImplemented),
            Ok(data) => {
                let ghost content = data@;
                let ghost before = self.open_files@;
                assert(self.files().dom() =~= before.dom());
                match self.open_files.open_at(ino, ReadFhEntry { inode: ino, data }) {
                    Some(fh) => {
                        assert(self.files() =~= old(self).files().insert(
                            fh,
                            OpenFile { inode: ino, data: content },
                        ));
                        Ok(OpenResponse { fh, flags: FOPEN_DIRECT_IO })
                    },
                    None => Err(FuseError::FunctionNotImplemented),
                }
            },
        }
    }

    fn push_children(
        entries: &mut Vec<(u64, FileType, String)>,
        items: &Vec<PhotoDbMediaItemAlbum>,
        kind: FileType,
    )
        ensures
            entries_view(final(entries)@) == entries_view(old(entries)@) + child_entries(
                records(items@),
                kind,
            ),
    {
        let ghost listing = records(items@);
        let ghost before = entries_view(entries@);
        let mut seen = TextSet::new();
        let mut i: usize = 0;
        proof {
            assert(first_by_name(listing.take(0)) =~= Seq::empty());
            assert(entries_view(entries@) =~= before + child_entries(listing.take(0), kind));
        }
        while i < items.len()
            invariant
                i <= items.len(),
                listing == records(items@),
                seen.wf(),
                forall|name: Seq<char>|
                    seen@.contains(name) <==> exists|j: int|
                        0 <= j < i && (#[trigger] listing[j]).display_name == name,
                entries_view(entries@) == before + child_entries(listing.take(i as int), kind),
            decreases items.len() - i,
        {
            let ghost names = seen@;
            proof {
                lemma_first_by_name_step(listing, i as int);
                assert(names.contains(listing[i as int].display_name) == named_before(
                    listing,
                    i as int,
                ));
            }
            if seen.insert(items[i].name.as_str()) {
                let ghost so_far = entries@;
                let entry = (items[i].inode, kind, items[i].name.clone());
                entries.push(entry);
                proof {
                    assert(entry_view(entry) == child_entry(listing[i as int], kind));
                    assert(entries_view(entries@) =~= entries_view(so_far).push(
                        entry_view(entry),
                    ));
                    assert(child_entries(listing.take(i as int + 1), kind) =~= child_entries(
                        listing.take(i as int),
                        kind,
                    ).push(child_entry(listing[i as int], kind)));
                    assert(entries_view(entries@) =~= before + child_entries(
                        listing.take(i as int + 1),
                        kind,
                    ));
                }
            }
            proof {
                assert forall|name: Seq<char>|
                    seen@.contains(name) <==> exists|j: int|
                        0 <= j < i + 1 && (#[trigger] listing[j]).display_name == name by {
                    if names.contains(name) {
                        let j = choose|j: int|
                            0 <= j < i && (#[trigger] listing[j]).display_name == name;
                        assert(listing[j].display_name == name);
                    }
                    if name == listing[i as int].display_name {
                        assert(listing[i as int].display_name == name);
                    }
                    if exists|j: int|
                        0 <= j < i + 1 && (#[trigger] listing[j]).display_name == name {
                        let j = choose|j: int|
                            0 <= j < i + 1 && (#[trigger] listing[j]).display_name == name;
                        if j < i {
                            assert(names.contains(name));
                        }
                    }
                }
            }
            i += 1;
        }
        proof {
            assert(listing.take(items.len() as int) =~= listing);
        }
    }

    fn opendir_entries(&self, ino: u64, album_for_inode: &Option<PhotoDbAlbum>) -> (entries: Vec<
        (u64, FileType, String),
    >)
        requires
            ino == FIXED_INODE_ROOT || ino == FIXED_INODE_ALBUMS || ino == FIXED_INODE_MEDIA || (
            album_for_inode is Some && optional_record(*album_for_inode)
                == self.db().by_inode_of_kind(ino as nat, MediaTypes::Album)),
        ensures
            directory(self.db(), ino) == Some(entries_view(entries@)),
    {
        let mut entries: Vec<(u64, FileType, String)> = Vec::new();
        entries.push((ino, FileType::Directory, ".".to_owned()));
        if ino == FIXED_INODE_ROOT {
            entries.push((FIXED_INODE_ALBUMS, FileType::Directory, "albums".to_owned()));
            entries.push((FIXED_INODE_MEDIA, FileType::Directory, "media".to_owned()));
            entries.push((FIXED_INODE_HELLO_WORLD, FileType::RegularFile, "hello.txt".to_owned()));
            assert(entries_view(entries@) =~= directory(self.db(), ino)->0);
        } else if ino == FIXED_INODE_ALBUMS {
            entries.push((FIXED_INODE_ROOT, FileType::Directory, "..".to_owned()));
            assert(entries_view(entries@) =~= seq![dot(ino), dot_dot(FIXED_INODE_ROOT)]);
            match self.photo_db.albums() {
                Ok(albums) => {
                    Self::push_children(&mut entries, &albums, FileType::Directory);
                },
                Err(_) => {},
            }
        } else {
            let media_items = if ino == FIXED_INODE_MEDIA {
                entries.push((FIXED_INODE_ROOT, FileType::Directory, "..".to_owned()));
                assert(entries_view(entries@) =~= seq![dot(ino), dot_dot(FIXED_INODE_ROOT)]);
                self.photo_db.media_items()
            } else {
                entries.push((FIXED_INODE_ALBUMS, FileType::Directory, "..".to_owned()));
                assert(entries_view(entries@) =~= seq![dot(ino), dot_dot(FIXED_INODE_ALBUMS)]);
                self.photo_db.media_items_in_album(ino)
            };
            match media_items {
                Ok(media_items) => {
                    Self::push_children(&mut entries, &media_items, FileType::RegularFile);
                },
                Err(_) => {},
            }
        }
        entries
    }
}

impl<X> RustFilesystem for PhotoFs<X> where X: RemotePhotoLibData {
    /// Resolves `name` in the directory `parent`. Fails where `parent` is
    /// no directory or holds no such name.
    fn lookup<R: UniqRequest>(&mut self, req: &R, parent: u64, name: &str) -> (r: FuseResult<
        FileEntryResponse,
    >)
        ensures
            answers_lookup(r, lookup_target(old(self).db(), parent, name@)),
            *final(self) == *old(self),
    {
        if parent == FIXED_INODE_ROOT {
            self.lookup_root(req, name)
        } else if parent == FIXED_INODE_ALBUMS {
            self.lookup_albums(req, name)
        } else if parent == FIXED_INODE_MEDIA {
            self.lookup_media(req, name, Filter::NoFilter)
        } else {
            match self.photo_db.album_by_inode(parent) {
                Ok(Some(album)) => self.lookup_media(req, name, Filter::ByAlbum(album.google_id())),
                Ok(None) => Err(FuseError::FunctionNotImplemented),
                Err(_) => Err(FuseError::FunctionNotImplemented),
            }
        }
    }

    /// The attributes of the node `ino`. Fails where there is no such
    /// node.
    fn getattr<R: UniqRequest>(&mut self, _req: &R, ino: u64) -> (r: FuseResult<
        FileAttrResponse,
    >)
        ensures
            answers_getattr(r, getattr_target(old(self).db(), ino)),
            *final(self) == *old(self),
    {
        let node: (Inode, usize, FileType) = if ino == FIXED_INODE_ROOT {
            (FIXED_INODE_ROOT, ROOT_SIZE, FileType::Directory)
        } else if ino == FIXED_INODE_ALBUMS {
            (FIXED_INODE_ALBUMS, 0, FileType::Directory)
        } else if ino == FIXED_INODE_MEDIA {
            (FIXED_INODE_MEDIA, 0, FileType::Directory)
        } else if ino == FIXED_INODE_HELLO_WORLD {
            (FIXED_INODE_HELLO_WORLD, HELLO_TXT_SIZE, FileType::RegularFile)
        } else {
            match self.photo_db.item_by_inode(ino) {
                Err(_) => {
                    return Err(FuseError::FunctionNotImplemented);
                },
                Ok(None) => {
                    return Err(FuseError::FunctionNotImplemented);
                },
                Ok(Some(item)) => match item.media_type {
                    MediaTypes::Album => {
                        let size = self.photo_db.media_items_in_album_length(item.inode)?;
                        (item.inode, size, FileType::Directory)
                    },
                    MediaTypes::MediaItem => (
                        item.inode,
                        DEFAULT_MEDIA_ITEM_SIZE,
                        FileType::RegularFile,
                    ),
                },
            }
        };
        Ok(
            FileAttrResponse {
                ttl: Timespec { sec: TTL_SECONDS, nsec: 0 },
                attr: make_atr(node.0, node.1, node.2),
            },
        )
    }

    /// Opens the node `ino` for reading: the diagnostic file with its
    /// fixed content, a media item with the content that the remote
    /// library serves for it. Fails where `ino` is neither, where the
    /// remote library fails, and where no handle is free.
    fn open<R: UniqRequest>(&mut self, _req: &R, ino: u64, _flags: u32) -> (r: FuseResult<
        OpenResponse,
    >)
        ensures
            final(self).db() == old(self).db(),
            final(self).dirs() == old(self).dirs(),
            if ino == FIXED_INODE_HELLO_WORLD {
                opens(old(self).files(), final(self).files(), ino, hello_txt_content(), r)
            } else if old(self).db().by_inode_of_kind(ino as nat, MediaTypes::MediaItem) is None {
                r == Err::<OpenResponse, FuseError>(FuseError::FunctionNotImplemented)
                    && final(self).files() == old(self).files()
            } else {
                ||| r == Err::<OpenResponse, FuseError>(FuseError::FunctionNotImplemented)
                    && final(self).files() == old(self).files()
                ||| exists|data: Seq<u8>|
                    opens(old(self).files(), final(self).files(), ino, data, r)
            },
    {
        let fetched: Result<Vec<u8>, RemotePhotoLibError> = match self.plan_open(ino) {
            Err(error) => {
                return Err(error);
            },
            Ok(OpenPlan::Content(data)) => Ok(data),
            Ok(OpenPlan::Fetch { google_id, is_video }) => self.photo_lib.media_item(
                google_id.as_str(),
                is_video,
            ),
        };
        let ghost content = if fetched is Ok {
            fetched->Ok_0@
        } else {
            Seq::empty()
        };
        let ghost fetching_failed = fetched is Err;
        let r = self.finish_open(ino, fetched);
        proof {
            if !fetching_failed {
                assert(opens(old(self).files(), self.files(), ino, content, r));
            }
        }
        r
    }

    /// Reads up to `size` bytes at `offset` through the handle `fh` of
    /// the node `ino`. Fails unless the handle is open for that node.
    fn read<R: UniqRequest>(&mut self, _req: &R, ino: u64, fh: u64, offset: i64, size: u32) -> (r:
        FuseResult<ReadResponse<'_>>)
        ensures
            match read_target(old(self).files(), ino, fh, offset as int, size as int) {
                Some(bytes) => r matches Ok(response) && response.data@ == bytes,
                None => r is Err,
            },
            *final(self) == *old(self),
    {
        match self.open_files.get(fh) {
            None => Err(FuseError::FunctionNotImplemented),
            Some(entry) => {
                if entry.inode != ino {
                    return Err(FuseError::FunctionNotImplemented);
                }
                let data = entry.data.as_slice();
                let data_len = data.len();
                if offset < 0 || offset as u64 >= data_len as u64 {
                    return Ok(ReadResponse { data: slice_subrange(data, 0, 0) });
                }
                let start = offset as usize;
                let slice_end: usize = if size as u64 >= (data_len - start) as u64 {
                    data_len
                } else {
                    start + size as usize
                };
                Ok(ReadResponse { data: slice_subrange(data, start, slice_end) })
            },
        }
    }

    /// Closes the file handle `fh`. Fails where it is not open.
    fn release<R: UniqRequest>(
        &mut self,
        _req: &R,
        _ino: u64,
        fh: u64,
        _flags: u32,
        _lock_owner: u64,
        _flush: bool,
    ) -> (r: FuseResult<()>)
        ensures
            r is Ok <==> old(self).files().contains_key(fh),
            final(self).files() == old(self).files().remove(fh),
            final(self).db() == old(self).db(),
            final(self).dirs() == old(self).dirs(),
    {
        let removed = self.open_files.remove(fh);
        assert(self.files() =~= old(self).files().remove(fh));
        match removed {
            None => Err(FuseError::FunctionNotImplemented),
            Some(_) => Ok(()),
        }
    }

    /// Opens the directory `ino` and keeps its entries, as they are now,
    /// under a new handle. Fails where `ino` is no directory and where no
    /// handle is free.
    fn opendir<R: UniqRequest>(&mut self, _req: &R, ino: u64, _flags: u32) -> (r: FuseResult<
        OpenResponse,
    >)
        ensures
            match directory(old(self).db(), ino) {
                Some(entries) => opens_dir(old(self).dirs(), final(self).dirs(), ino, entries, r),
                None => r == Err::<OpenResponse, FuseError>(FuseError::FunctionNotImplemented)
                    && final(self).dirs() == old(self).dirs(),
            },
            final(self).db() == old(self).db(),
            final(self).files() == old(self).files(),
    {
        let album_for_inode: Option<PhotoDbAlbum> = if ino == FIXED_INODE_ROOT || ino
            == FIXED_INODE_MEDIA || ino == FIXED_INODE_ALBUMS {
            None
        } else {
            match self.photo_db.album_by_inode(ino) {
                Err(_) => {
                    return Err(FuseError::FunctionNotImplemented);
                },
                Ok(None) => {
                    return Err(FuseError::FunctionNotImplemented);
                },
                Ok(Some(album)) => Some(album),
            }
        };
        let entries = self.opendir_entries(ino, &album_for_inode);
        let ghost listing = entries_view(entries@);
        assert(self.dirs().dom() =~= self.open_dirs@.dom());
        match self.open_dirs.open_at(ino, ReadDirFhEntry { inode: ino, entries }) {
            Some(fh) => {
                assert(self.dirs() =~= old(self).dirs().insert(
                    fh,
                    OpenDir { inode: ino, entries: listing },
                ));
                Ok(OpenResponse { fh, flags: 0 })
            },
            None => Err(FuseError::FunctionNotImplemented),
        }
    }

    /// The entries of the open directory `fh` of the node `ino` that
    /// follow `offset`, each with the offset to resume after it. Fails
    /// unless the handle is open for that node.
    fn readdir<R: UniqRequest>(&mut self, _req: &R, ino: u64, fh: u64, offset: i64) -> (r:
        FuseResult<ReadDirResponse<'_>>)
        ensures
            answers_readdir(r, old(self).dirs(), ino, fh, offset as int),
            *final(self) == *old(self),
    {
        let fh_entry = match self.open_dirs.get(fh) {
            None => {
                return Err(FuseError::FunctionNotImplemented);
            },
            Some(entry) => entry,
        };
        if fh_entry.inode != ino {
            return Err(FuseError::FunctionNotImplemented);
        }
        let len = fh_entry.entries.len();
        let end: u64 = if len as u64 > i64::MAX as u64 {
            i64::MAX as u64
        } else {
            len as u64
        };
        let start: u64 = if offset <= 0 {
            0
        } else if offset as u64 >= end {
            end
        } else {
            offset as u64
        };
        let ghost listing = self.dirs()[fh].entries;
        let mut result_entries: Vec<ReadDirEntry<'_>> = Vec::new();
        let mut position: u64 = start;
        while position < end
            invariant
                start <= position <= end <= len,
                end <= i64::MAX,
                len == fh_entry.entries.len(),
                listing == entries_view(fh_entry.entries@),
                result_entries@.len() == position - start,
                forall|k: int|
                    #![trigger result_entries@[k]]
                    0 <= k < position - start ==> {
                        &&& result_entries@[k].ino == listing[start + k].ino
                        &&& result_entries@[k].kind == listing[start + k].kind
                        &&& result_entries@[k].name@ == listing[start + k].name
                        &&& result_entries@[k].offset == start + k + 1
                    },
            decreases end - position,
        {
            let entry = &fh_entry.entries[position as usize];
            result_entries.push(
                ReadDirEntry {
                    ino: entry.0,
                    offset: (position + 1) as i64,
                    kind: entry.1,
                    name: entry.2.as_str(),
                },
            );
            position += 1;
        }
        Ok(ReadDirResponse { entries: result_entries })
    }

    /// Closes the directory handle `fh`. Fails where it is not open.
    fn releasedir<R: UniqRequest>(&mut self, _req: &R, _ino: u64, fh: u64, _flags: u32) -> (r:
        FuseResult<()>)
        ensures
            r is Ok <==> old(self).dirs().contains_key(fh),
            final(self).dirs() == old(self).dirs().remove(fh),
            final(self).db() == old(self).db(),
            final(self).files() == old(self).files(),
    {
        let removed = self.open_dirs.remove(fh);
        assert(self.dirs() =~= old(self).dirs().remove(fh));
        match removed {
            None => Err(FuseError::FunctionNotImplemented),
            Some(_) => Ok(()),
        }
    }

    /// Ends the filesystem. There is nothing to give back.
    fn destroy<R: UniqRequest>(&mut self, _req: &R)
        ensures
            *final(self) == *old(self),
    {
    }
}

} // verus!
