//! The synchroniser: it copies the listings of the remote photo library
//! into the cache store.

use crate::db::model::{all_rosters_read, ended_at_failure, AlbumVisit, CacheView};
use crate::db::photo_db::{CacheStore, PhotoDb, PhotoDbRo};
use crate::domain::{MediaTypes, UtcDateTime};
use crate::photolib::{ItemListing, RemotePhotoLibError, RemotePhotoLibMetaData};
use crate::text::keys_of;
use vstd::prelude::*;

verus! {

/// How long the albums job waits before its first pass over an empty
/// cache, in seconds.
pub const ALBUMS_FIRST_DELAY: u64 = 5;

/// How long the albums job waits between two passes, in seconds: twelve
/// hours.
pub const ALBUMS_INTERVAL: u64 = 43_200;

/// How long the media items job waits before its first pass over an
/// empty cache, in seconds.
pub const MEDIA_FIRST_DELAY: u64 = 15;

/// How long the media items job waits between two passes, in seconds:
/// two days.
pub const MEDIA_INTERVAL: u64 = 172_800;

/// Calls chrono's `Utc::now` and `DateTime::timestamp`: the system clock,
/// in whole seconds since the Unix epoch. Nothing is known of the value
/// beforehand. Chrono panics where the clock stands before 1970.
#[verifier::external_body]
fn utc_now() -> UtcDateTime {
    chrono::Utc::now().timestamp()
}

/// The rows of a listing: the remote identifier and the name of each.
pub open spec fn listed(listing: Seq<ItemListing>) -> Seq<(Seq<char>, Seq<char>)> {
    listing.map_values(|item: ItemListing| (item.id@, item.name@))
}

/// The delay before the first pass of a job: short while the cache holds
/// nothing of the job's kind, a whole interval once it does.
pub open spec fn first_delay(db: CacheView, kind: MediaTypes, short: u64, interval: u64) -> u64 {
    if db.has_kind(kind) {
        interval
    } else {
        short
    }
}

/// A job that keeps a part of the cache up to date.
pub trait BackgroundUpdate {
    /// One pass: reads the whole remote listing and records it. A
    /// failure of the remote library ends the pass; what was recorded
    /// until then stays.
    fn update(&self, db: &mut CacheStore) -> (r: Result<(), RemotePhotoLibError>)
        ensures
            old(db)@.wf() ==> final(db)@.wf() && final(db)@.extends(old(db)@),
    ;

    /// The seconds to wait before the first pass.
    fn delay(&self, db: &CacheStore) -> u64;

    /// The seconds to wait between two passes.
    fn interval(&self) -> u64;

    /// The name of the job.
    fn name(&self) -> &'static str;
}

/// Records every row of a remote listing of media items as seen at the
/// time `now`. A row that would need a new inode number when the counter
/// cannot grow any more is passed over.
pub fn record_media_items(db: &mut CacheStore, media_items: &Vec<ItemListing>, now: UtcDateTime)
    ensures
        old(db)@.wf() ==> final(db)@ == old(db)@.record_all(
            listed(media_items@),
            MediaTypes::MediaItem,
            now as int,
        ) && final(db)@.wf(),
{
    let ghost before = db@;
    let ghost rows = listed(media_items@);
    let mut i: usize = 0;
    proof {
        assert(rows.take(0) =~= Seq::empty());
    }
    while i < media_items.len()
        invariant
            i <= media_items.len(),
            rows == listed(media_items@),
            before.wf() ==> db@ == before.record_all(
                rows.take(i as int),
                MediaTypes::MediaItem,
                now as int,
            ) && db@.wf(),
        decreases media_items.len() - i,
    {
        let media_item = &media_items[i];
        proof {
            assert(rows.take(i as int + 1).drop_last() =~= rows.take(i as int));
            assert(rows.take(i as int + 1).last() == (media_item.id@, media_item.name@));
        }
        let _ = db.upsert_media_item(media_item.google_id(), media_item.name.as_str(), &now);
        i += 1;
    }
    proof {
        assert(rows.take(media_items.len() as int) =~= rows);
    }
}

/// The job that records the albums and what belongs to them.
pub struct BackgroundAlbumUpdate<R> where R: RemotePhotoLibMetaData {
    pub remote_photo_lib: R,
}

impl<R> BackgroundUpdate for BackgroundAlbumUpdate<R> where R: RemotePhotoLibMetaData {
    /// One pass: reads the listing of all albums, and for each album in
    /// turn records it as seen now, reads its roster and puts the media
    /// items of the roster into it. Where the remote library fails, the
    /// pass ends; what it has recorded by then stays. So the cache ends
    /// as the albums that the pass came to leave it: after a pass that
    /// succeeded, each with its roster; after one that failed, none at
    /// all or the last without its roster.
    fn update(&self, db: &mut CacheStore) -> (r: Result<(), RemotePhotoLibError>)
        ensures
            old(db)@.wf() ==> exists|visits: Seq<AlbumVisit>|
                final(db)@ == #[trigger] old(db)@.record_albums(visits) && (match r {
                    Ok(_) => all_rosters_read(visits),
                    Err(_) => ended_at_failure(visits),
                }),
    {
        let ghost mut visits: Seq<AlbumVisit> = Seq::empty();
        let albums = match self.remote_photo_lib.albums() {
            Ok(albums) => albums,
            Err(error) => {
                proof {
                    assert(db@.extends(db@));
                    assert(db@ == old(db)@.record_albums(visits) && ended_at_failure(visits));
                }
                return Err(error);
            },
        };
        let mut i: usize = 0;
        while i < albums.len()
            invariant
                i <= albums.len(),
                old(db)@.wf() ==> db@.wf() && db@.extends(old(db)@),
                old(db)@.wf() ==> db@ == old(db)@.record_albums(visits),
                all_rosters_read(visits),
            decreases albums.len() - i,
        {
            let album = &albums[i];
            let ghost before = db@;
            let ghost earlier = visits;
            let now = utc_now();
            let _ = db.upsert_album(album.google_id(), album.name.as_str(), &now);
            let ghost recorded = db@;
            proof {
                if old(db)@.wf() {
                    before.lemma_upsert(album.id@, MediaTypes::Album, album.name@, now as int);
                    before.lemma_upsert_extends(
                        album.id@,
                        MediaTypes::Album,
                        album.name@,
                        now as int,
                    );
                    db@.lemma_extends_transitive(before, old(db)@);
                    assert(recorded == before.record_row(
                        album.id@,
                        MediaTypes::Album,
                        album.name@,
                        now as int,
                    ));
                }
            }
            let media_items_in_album = match self.remote_photo_lib.album(album.google_id()) {
                Ok(media_items_in_album) => media_items_in_album,
                Err(error) => {
                    proof {
                        let visit = AlbumVisit {
                            remote_id: album.id@,
                            display_name: album.name@,
                            seen_at: now as int,
                            roster: None,
                        };
                        visits = earlier.push(visit);
                        assert(visits.drop_last() =~= earlier);
                        assert(visits.last() == visit);
                        if old(db)@.wf() {
                            assert(db@ == old(db)@.record_albums(visits));
                        }
                        assert(ended_at_failure(visits));
                    }
                    return Err(error);
                },
            };
            db.upsert_media_items_in_album(album.google_id(), &media_items_in_album);
            proof {
                let visit = AlbumVisit {
                    remote_id: album.id@,
                    display_name: album.name@,
                    seen_at: now as int,
                    roster: Some(keys_of(media_items_in_album@)),
                };
                visits = earlier.push(visit);
                assert(visits.drop_last() =~= earlier);
                assert(visits.last() == visit);
                if old(db)@.wf() {
                    recorded.lemma_link_members(album.id@, keys_of(media_items_in_album@));
                    db@.lemma_extends_transitive(recorded, old(db)@);
                    assert(db@ == old(db)@.record_albums(visits));
                }
            }
            i += 1;
        }
        proof {
            if old(db)@.wf() {
                assert(db@ == old(db)@.record_albums(visits) && all_rosters_read(visits));
            }
        }
        Ok(())
    }

    fn delay(&self, db: &CacheStore) -> (seconds: u64)
        ensures
            seconds == first_delay(db@, MediaTypes::Album, ALBUMS_FIRST_DELAY, ALBUMS_INTERVAL),
    {
        match db.last_updated_album() {
            Ok(None) => ALBUMS_FIRST_DELAY,
            _ => ALBUMS_INTERVAL,
        }
    }

    fn interval(&self) -> (seconds: u64)
        ensures
            seconds == ALBUMS_INTERVAL,
    {
        ALBUMS_INTERVAL
    }

    fn name(&self) -> (name: &'static str)
        ensures
            name@ == "Albums"@,
    {
        "Albums"
    }
}

/// The job that records the media items.
pub struct BackgroundMediaUpdate<R> where R: RemotePhotoLibMetaData {
    pub remote_photo_lib: R,
}

impl<R> BackgroundUpdate for BackgroundMediaUpdate<R> where R: RemotePhotoLibMetaData {
    /// One pass: reads the listing of all media items and the clock, and
    /// records every row of the listing as seen at that time. Where the
    /// remote library fails, nothing is recorded.
    fn update(&self, db: &mut CacheStore) -> (r: Result<(), RemotePhotoLibError>)
        ensures
            old(db)@.wf() ==> match r {
                Ok(_) => exists|listing: Seq<(Seq<char>, Seq<char>)>, now: int|
                    final(db)@ == #[trigger] old(db)@.record_all(
                        listing,
                        MediaTypes::MediaItem,
                        now,
                    ),
                Err(_) => final(db)@ == old(db)@,
            },
    {
        let media_items = match self.remote_photo_lib.media_items(None) {
            Ok(media_items) => media_items,
            Err(error) => {
                proof {
                    assert(db@.extends(db@));
                }
                return Err(error);
            },
        };
        let now = utc_now();
        proof {
            if db@.wf() {
                db@.lemma_record_all(listed(media_items@), MediaTypes::MediaItem, now as int);
            }
        }
        record_media_items(db, &media_items, now);
        Ok(())
    }

    fn delay(&self, db: &CacheStore) -> (seconds: u64)
        ensures
            seconds == first_delay(db@, MediaTypes::MediaItem, MEDIA_FIRST_DELAY, MEDIA_INTERVAL),
    {
        match db.last_updated_media() {
            Ok(None) => MEDIA_FIRST_DELAY,
            _ => MEDIA_INTERVAL,
        }
    }

    fn interval(&self) -> (seconds: u64)
        ensures
            seconds == MEDIA_INTERVAL,
    {
        MEDIA_INTERVAL
    }

    fn name(&self) -> (name: &'static str)
        ensures
            name@ == "Media Items"@,
    {
        "Media Items"
    }
}

} // verus!
