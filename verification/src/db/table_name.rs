//! The relations of the persisted cache and the names they are stored
//! under.

use vstd::prelude::*;

verus! {

/// A relation of the persisted cache.
#[derive(Clone, Copy, PartialEq, Eq, PartialOrd, Ord, Debug, Hash, Structural)]
pub enum TableName {
    /// One row per album or media item.
    AlbumsAndMediaItems,
    /// The single row of the inode counter.
    NextInode,
    /// Which media item belongs to which album.
    MediaItemsInAlbum,
    /// The credentials of the remote service.
    OauthTokenStorage,
}

impl TableName {
    /// The name of the table that holds a relation.
    pub open spec fn spec_to_string(self) -> Seq<char> {
        match self {
            TableName::AlbumsAndMediaItems => "albums_and_media_item"@,
            TableName::NextInode => "next_inode"@,
            TableName::MediaItemsInAlbum => "media_items_in_album"@,
            TableName::OauthTokenStorage => "oauth_token_storage"@,
        }
    }

    /// The name of the table that holds this relation.
    pub fn to_string(&self) -> (name: String)
        ensures
            name@ == self.spec_to_string(),
    {
        match self {
            TableName::AlbumsAndMediaItems => "albums_and_media_item".to_owned(),
            TableName::NextInode => "next_inode".to_owned(),
            TableName::MediaItemsInAlbum => "media_items_in_album".to_owned(),
            TableName::OauthTokenStorage => "oauth_token_storage".to_owned(),
        }
    }
}

} // verus!
