//! What the filesystem and the synchroniser ask of the remote photo
//! library.

use crate::domain::GoogleId;
use crate::text::TextKeyed;
use vstd::prelude::*;

verus! {

/// Why a call to the remote photo library failed.
#[derive(PartialEq, Eq, Debug)]
pub enum RemotePhotoLibError {
    /// The photo service refused or garbled the call.
    GoogleBackendError(String),
    /// The request could not be sent or the answer could not be read.
    HttpClientError(String),
    /// The download answered with this HTTP status.
    HttpApiError(u16),
    /// Reading the downloaded bytes failed.
    IoError(String),
}

impl Clone for RemotePhotoLibError {
    fn clone(&self) -> (copy: Self)
        ensures
            copy == *self,
    {
        match self {
            RemotePhotoLibError::GoogleBackendError(text) => {
                RemotePhotoLibError::GoogleBackendError(text.clone())
            },
            RemotePhotoLibError::HttpClientError(text) => RemotePhotoLibError::HttpClientError(
                text.clone(),
            ),
            RemotePhotoLibError::HttpApiError(status) => RemotePhotoLibError::HttpApiError(*status),
            RemotePhotoLibError::IoError(text) => RemotePhotoLibError::IoError(text.clone()),
        }
    }
}

/// Which media items a listing asks for.
#[derive(Clone, Copy, Debug)]
pub enum MediaListFilter<'a> {
    /// Those of the album with this remote identifier.
    Album(&'a GoogleId),
    /// Those taken in this year.
    Year(i32),
}

/// One row of a remote listing: an album or a media item.
#[derive(Debug)]
pub struct ItemListing {
    pub id: String,
    pub name: String,
}

impl Clone for ItemListing {
    fn clone(&self) -> (copy: Self)
        ensures
            copy == *self,
    {
        ItemListing { id: self.id.clone(), name: self.name.clone() }
    }
}

impl TextKeyed for ItemListing {
    open spec fn spec_key(&self) -> Seq<char> {
        self.id@
    }

    fn key(&self) -> (key: &str) {
        self.id.as_str()
    }
}

impl ItemListing {
    /// A row of the given values.
    pub fn new(id: String, name: String) -> (item: ItemListing)
        ensures
            item == (ItemListing { id, name }),
    {
        ItemListing { id, name }
    }

    /// The remote identifier of the row.
    pub fn google_id(&self) -> (id: &GoogleId)
        ensures
            id@ == self.id@,
    {
        self.id.as_str()
    }
}

/// The listings of the remote photo library. Every call returns the whole
/// listing, however many pages the service splits it into.
pub trait RemotePhotoLibMetaData: Sized {
    /// The media items of the library, all or those that the filter
    /// selects.
    fn media_items(&self, filter: Option<MediaListFilter<'_>>) -> Result<
        Vec<ItemListing>,
        RemotePhotoLibError,
    >;

    /// The albums of the library.
    fn albums(&self) -> Result<Vec<ItemListing>, RemotePhotoLibError>;

    /// The media items of one album.
    fn album(&self, google_id: &GoogleId) -> Result<Vec<ItemListing>, RemotePhotoLibError>;
}

/// The contents of the remote photo library.
pub trait RemotePhotoLibData: Sized {
    /// The bytes of one media item: of the video where `is_video` holds,
    /// else of the still image.
    fn media_item(&self, google_id: &GoogleId, is_video: bool) -> Result<
        Vec<u8>,
        RemotePhotoLibError,
    >;
}

} // verus!
