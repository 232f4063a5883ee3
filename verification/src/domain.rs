//! The records of the catalogue: what kind of thing a remote item is, and
//! what the cache remembers about it.

use crate::text::{str_eq, TextKeyed};
use vstd::prelude::*;

verus! {

/// Filesystem-visible identifier of a node.
pub type Inode = u64;

/// A point in time, in whole seconds since the Unix epoch (UTC).
pub type UtcDateTime = i64;

/// Identifier that the remote service gives to an album or a media item.
pub type GoogleId = str;

/// The two kinds of remote item that the cache holds.
#[derive(Clone, Copy, PartialEq, Eq, Debug, Hash, Structural)]
pub enum MediaTypes {
    Album,
    MediaItem,
}

impl MediaTypes {
    /// The name under which a kind is persisted.
    pub open spec fn spec_name(self) -> Seq<char> {
        match self {
            MediaTypes::Album => "album"@,
            MediaTypes::MediaItem => "media_item"@,
        }
    }

    /// The persisted name of this kind: `album` or `media_item`.
    pub fn to_string(&self) -> (name: String)
        ensures
            name@ == self.spec_name(),
    {
        match self {
            MediaTypes::Album => "album".to_owned(),
            MediaTypes::MediaItem => "media_item".to_owned(),
        }
    }

    /// The kind that a persisted name stands for, if it names one.
    pub open spec fn spec_parse(media_type: Seq<char>) -> Option<MediaTypes> {
        if media_type == "album"@ {
            Some(MediaTypes::Album)
        } else if media_type == "media_item"@ {
            Some(MediaTypes::MediaItem)
        } else {
            None
        }
    }

    /// The kind that a persisted name stands for, if it names one.
    pub fn parse(media_type: &str) -> (kind: Option<MediaTypes>)
        ensures
            kind == MediaTypes::spec_parse(media_type@),
    {
        if str_eq(media_type, "album") {
            Some(MediaTypes::Album)
        } else if str_eq(media_type, "media_item") {
            Some(MediaTypes::MediaItem)
        } else {
            None
        }
    }

    /// The kind that a persisted name stands for. Only the two persisted
    /// names are accepted.
    pub fn from(media_type: &str) -> (kind: MediaTypes)
        requires
            media_type@ == "album"@ || media_type@ == "media_item"@,
        ensures
            Some(kind) == MediaTypes::spec_parse(media_type@),
            kind.spec_name() == media_type@,
    {
        if str_eq(media_type, "album") {
            MediaTypes::Album
        } else {
            MediaTypes::MediaItem
        }
    }
}

/// The number that stands for an inode number in a signed column of 64
/// bits: the number with the same bits.
pub open spec fn column_of(inode: Inode) -> i64 {
    if inode <= i64::MAX as u64 {
        inode as i64
    } else {
        (inode - 0x1_0000_0000_0000_0000) as i64
    }
}

/// The number that stands for an inode number in a signed column of 64
/// bits.
pub fn inode_to_column(inode: Inode) -> (column: i64)
    ensures
        column == column_of(inode),
{
    if inode <= i64::MAX as u64 {
        inode as i64
    } else {
        (inode - 0x8000_0000_0000_0000) as i64 + i64::MIN
    }
}

/// The inode number that a number in a signed column of 64 bits stands
/// for.
pub fn inode_from_column(column: i64) -> (inode: Inode)
    ensures
        column_of(inode) == column,
{
    if column >= 0 {
        column as u64
    } else {
        (column - i64::MIN) as u64 + 0x8000_0000_0000_0000
    }
}

/// Every inode number comes back from its column as it went in.
pub proof fn lemma_column_round_trip(a: Inode, b: Inode)
    ensures
        column_of(a) == column_of(b) ==> a == b,
{
}

/// What the cache knows of one remote item, as a mathematical value.
pub struct EntityRecord {
    /// The remote service's identifier: the primary key.
    pub remote_id: Seq<char>,
    /// Album or media item.
    pub kind: MediaTypes,
    /// The name shown in the filesystem.
    pub display_name: Seq<char>,
    /// The inode number, assigned once.
    pub stable_id: nat,
    /// When the item was last seen in a remote listing.
    pub last_synced: int,
}

/// The cached metadata of one remote album or media item.
#[derive(Debug)]
pub struct PhotoDbMediaItemAlbum {
    pub id: String,
    pub name: String,
    pub media_type: MediaTypes,
    pub last_remote_check: UtcDateTime,
    pub inode: Inode,
}

/// A record whose kind is `Album`.
pub type PhotoDbAlbum = PhotoDbMediaItemAlbum;

/// A record whose kind is `MediaItem`.
pub type PhotoDbMediaItem = PhotoDbMediaItemAlbum;

impl View for PhotoDbMediaItemAlbum {
    type V = EntityRecord;

    open spec fn view(&self) -> EntityRecord {
        EntityRecord {
            remote_id: self.id@,
            kind: self.media_type,
            display_name: self.name@,
            stable_id: self.inode as nat,
            last_synced: self.last_remote_check as int,
        }
    }
}

/// The mathematical values of a row of records.
pub open spec fn records(items: Seq<PhotoDbMediaItemAlbum>) -> Seq<EntityRecord> {
    items.map_values(|item: PhotoDbMediaItemAlbum| item@)
}

/// The mathematical value of a record that may be absent.
pub open spec fn optional_record(item: Option<PhotoDbMediaItemAlbum>) -> Option<EntityRecord> {
    match item {
        Some(item) => Some(item@),
        None => None,
    }
}

impl Clone for PhotoDbMediaItemAlbum {
    fn clone(&self) -> (copy: Self)
        ensures
            copy == *self,
    {
        PhotoDbMediaItemAlbum {
            id: self.id.clone(),
            name: self.name.clone(),
            media_type: self.media_type,
            last_remote_check: self.last_remote_check,
            inode: self.inode,
        }
    }
}

impl TextKeyed for PhotoDbMediaItemAlbum {
    open spec fn spec_key(&self) -> Seq<char> {
        self.id@
    }

    fn key(&self) -> (key: &str) {
        self.id.as_str()
    }
}

impl PhotoDbMediaItemAlbum {
    /// The record that a persisted row stands for: none where the row
    /// names no kind.
    pub fn from_row(
        google_id: String,
        media_type: &str,
        name: String,
        last_remote_check: UtcDateTime,
        inode: i64,
    ) -> (item: Option<PhotoDbMediaItemAlbum>)
        ensures
            match MediaTypes::spec_parse(media_type@) {
                Some(kind) => item matches Some(item) && {
                    &&& item.id == google_id
                    &&& item.name == name
                    &&& item.media_type == kind
                    &&& item.last_remote_check == last_remote_check
                    &&& column_of(item.inode) == inode
                },
                None => item is None,
            },
    {
        match MediaTypes::parse(media_type) {
            Some(media_type) => Some(
                PhotoDbMediaItemAlbum {
                    id: google_id,
                    name,
                    media_type,
                    last_remote_check,
                    inode: inode_from_column(inode),
                },
            ),
            None => None,
        }
    }

    /// A record of the given values.
    pub fn new(
        id: String,
        name: String,
        media_type: MediaTypes,
        last_remote_check: UtcDateTime,
        inode: Inode,
    ) -> (item: PhotoDbMediaItemAlbum)
        ensures
            item == (PhotoDbMediaItemAlbum { id, name, media_type, last_remote_check, inode }),
    {
        PhotoDbMediaItemAlbum { id, name, media_type, last_remote_check, inode }
    }

    /// The remote identifier of the record.
    pub fn google_id(&self) -> (id: &GoogleId)
        ensures
            id@ == self.id@,
    {
        self.id.as_str()
    }
}

} // verus!
