//! The cache store itself: records ordered by remote identifier, the
//! membership relation and the inode counter.

use crate::db::error::{DbError, SqlFault};
use crate::db::inode_db::NextInodeDb;
use crate::db::model::{
    first_of, has_inode, is_kind, is_member, is_named, is_named_member, lemma_filter_first,
    lemma_filter_nothing, lemma_filter_step, restorable, CacheView, INODE_SEED,
};
use crate::domain::{
    optional_record, records, EntityRecord, GoogleId, Inode, MediaTypes, PhotoDbAlbum,
    PhotoDbMediaItem, PhotoDbMediaItemAlbum, UtcDateTime,
};
use crate::text::{keys_of, lower_bound, str_eq, TextKeyed};
use crate::text_set::TextSet;
use vstd::prelude::*;

verus! {

/// Which media items a lookup by name considers.
#[derive(Clone, Copy, Debug)]
pub enum Filter<'a> {
    /// All of them.
    NoFilter,
    /// Those that belong to the album with this remote identifier.
    ByAlbum(&'a GoogleId),
}

impl<'a> Filter<'a> {
    /// The album that the filter names, if it names one.
    pub open spec fn album(self) -> Option<Seq<char>> {
        match self {
            Filter::NoFilter => None,
            Filter::ByAlbum(album_id) => Some(album_id@),
        }
    }
}

/// What the filesystem reads from a cache store.
pub trait PhotoDbRo: Sized {
    /// All media items, ordered by remote identifier.
    fn media_items(&self) -> Result<Vec<PhotoDbMediaItem>, DbError>;

    /// All albums, ordered by remote identifier.
    fn albums(&self) -> Result<Vec<PhotoDbAlbum>, DbError>;

    /// The media items of the album with the given inode number.
    fn media_items_in_album(&self, inode: Inode) -> Result<Vec<PhotoDbMediaItem>, DbError>;

    /// How many media items the album with the given inode number has.
    fn media_items_in_album_length(&self, inode: Inode) -> Result<usize, DbError>;

    /// The media item that is shown under `name`.
    fn media_item_by_name(&self, name: &str, filter: Filter<'_>) -> Result<
        Option<PhotoDbMediaItem>,
        DbError,
    >;

    /// The media item with the given inode number.
    fn media_item_by_inode(&self, inode: Inode) -> Result<Option<PhotoDbMediaItem>, DbError>;

    /// The album that is shown under `name`.
    fn album_by_name(&self, name: &str) -> Result<Option<PhotoDbAlbum>, DbError>;

    /// The album with the given inode number.
    fn album_by_inode(&self, inode: Inode) -> Result<Option<PhotoDbAlbum>, DbError>;

    /// The album or media item with the given inode number.
    fn item_by_inode(&self, inode: Inode) -> Result<Option<PhotoDbMediaItemAlbum>, DbError>;

    /// Whether the remote item has a record.
    fn is_known(&self, id: &GoogleId) -> Result<bool, DbError>;

    /// The earliest time at which a media item was last synchronised.
    fn last_updated_media(&self) -> Result<Option<UtcDateTime>, DbError>;

    /// The earliest time at which an album was last synchronised.
    fn last_updated_album(&self) -> Result<Option<UtcDateTime>, DbError>;
}

/// What the synchroniser writes to a cache store.
pub trait PhotoDb: PhotoDbRo + Sized {
    /// Records a media item and returns its inode number.
    fn upsert_media_item(
        &mut self,
        id: &GoogleId,
        filename: &str,
        last_modified_time: &UtcDateTime,
    ) -> Result<Inode, DbError>;

    /// Records an album and returns its inode number.
    fn upsert_album(
        &mut self,
        id: &GoogleId,
        title: &str,
        last_modified_time: &UtcDateTime,
    ) -> Result<Inode, DbError>;

    /// Records that a media item belongs to an album.
    fn upsert_media_item_in_album(
        &mut self,
        album_id: &GoogleId,
        media_item_id: &GoogleId,
    ) -> Result<(), DbError>;
}

/// The remote identifiers of a membership row.
pub open spec fn pair_view(row: (String, String)) -> (Seq<char>, Seq<char>) {
    (row.0@, row.1@)
}

/// The membership relation that a row of pairs stands for.
pub open spec fn pairs(rows: Seq<(String, String)>) -> Set<(Seq<char>, Seq<char>)> {
    Set::new(
        |p: (Seq<char>, Seq<char>)|
            exists|i: int| 0 <= i < rows.len() && pair_view(#[trigger] rows[i]) == p,
    )
}

/// A row of pairs with one more pair stands for the relation with one
/// more membership.
proof fn lemma_pairs_push(rows: Seq<(String, String)>, row: (String, String))
    ensures
        pairs(rows.push(row)) == pairs(rows).insert(pair_view(row)),
{
    let longer = rows.push(row);
    assert(pair_view(longer[rows.len() as int]) == pair_view(row));
    assert forall|p: (Seq<char>, Seq<char>)|
        pairs(longer).contains(p) <==> pairs(rows).insert(pair_view(row)).contains(p) by {
        if pairs(rows).contains(p) {
            let i = choose|i: int| 0 <= i < rows.len() && pair_view(#[trigger] rows[i]) == p;
            assert(pair_view(longer[i]) == p);
        }
        if pairs(longer).contains(p) {
            let i = choose|i: int| 0 <= i < longer.len() && pair_view(#[trigger] longer[i]) == p;
            if i < rows.len() {
                assert(pair_view(rows[i]) == p);
            }
        }
    }
    assert(pairs(longer) =~= pairs(rows).insert(pair_view(row)));
}

/// What a scan of the records looks for.
enum Query<'a> {
    Kind(MediaTypes),
    Inode(Inode),
    Named(&'a str, MediaTypes),
    Member(&'a str, &'a TextSet),
    NamedMember(&'a str, &'a TextSet, &'a str),
}

impl<'a> Query<'a> {
    /// The records that a query selects.
    spec fn selects(self, memberships: Set<(Seq<char>, Seq<char>)>) -> spec_fn(
        EntityRecord,
    ) -> bool {
        match self {
            Query::Kind(kind) => is_kind(kind),
            Query::Inode(inode) => has_inode(inode as nat),
            Query::Named(name, kind) => is_named(name@, kind),
            Query::Member(album_id, _) => is_member(memberships, album_id@),
            Query::NamedMember(album_id, _, name) => is_named_member(
                memberships,
                album_id@,
                name@,
            ),
        }
    }

    /// Whether the set that a query for the members of an album brings
    /// along holds just the members of that album.
    spec fn fits(self, memberships: Set<(Seq<char>, Seq<char>)>) -> bool {
        match self {
            Query::Member(album_id, members) => holds_members(*members, memberships, album_id@),
            Query::NamedMember(album_id, members, _) => holds_members(
                *members,
                memberships,
                album_id@,
            ),
            _ => true,
        }
    }
}

/// Whether a set holds just the media items of an album.
spec fn holds_members(
    members: TextSet,
    memberships: Set<(Seq<char>, Seq<char>)>,
    album_id: Seq<char>,
) -> bool {
    &&& members.wf()
    &&& forall|id: Seq<char>| members@.contains(id) <==> memberships.contains((album_id, id))
}

/// The cache store.
pub struct CacheStore {
    items: Vec<PhotoDbMediaItemAlbum>,
    members: Vec<(String, String)>,
    next_inode: u64,
}

impl View for CacheStore {
    type V = CacheView;

    closed spec fn view(&self) -> CacheView {
        CacheView {
            entities: records(self.items@),
            memberships: pairs(self.members@),
            next_inode: self.next_inode as nat,
        }
    }
}

impl CacheStore {
    /// An empty cache, with the counter at its seed.
    pub fn new() -> (db: CacheStore)
        ensures
            db@ == CacheView::empty(),
            db@.wf(),
    {
        let db = CacheStore { items: Vec::new(), members: Vec::new(), next_inode: INODE_SEED };
        proof {
            assert(db@.entities =~= Seq::empty());
            assert(db@.memberships =~= Set::empty());
        }
        db
    }

    fn lower_bound(&self, id: &str) -> (p: usize)
        ensures
            p <= self.items.len(),
            self@.wf() ==> p == self@.lower_bound(id@),
    {
        proof {
            assert(keys_of(self.items@) =~= self@.ids());
            if self@.wf() {
                self@.lemma_ascending();
            }
        }
        lower_bound(&self.items, id)
    }

    fn upsert_x(
        &mut self,
        id: &GoogleId,
        media_type: MediaTypes,
        name: &str,
        last_modified_time: UtcDateTime,
    ) -> (r: Result<Inode, DbError>)
        ensures
            old(self)@.wf() ==> {
                &&& match r {
                    Ok(inode) => final(self)@ == old(self)@.upsert(
                        id@,
                        media_type,
                        name@,
                        last_modified_time as int,
                    ) && inode == old(self)@.inode_for(id@),
                    Err(e) => e == DbError::SqlError(SqlFault::InodeOverflow) && final(self)@
                        == old(self)@,
                }
                &&& r is Err <==> !old(self)@.contains(id@) && old(self)@.next_inode >= u64::MAX
                &&& final(self)@.wf()
            },
    {
        proof {
            if self@.wf() {
                self@.lemma_position(id@);
                self@.lemma_upsert(id@, media_type, name@, last_modified_time as int);
            }
        }
        let p = self.lower_bound(id);
        if p < self.items.len() && str_eq(self.items[p].google_id(), id) {
            let inode = self.items[p].inode;
            let rec = PhotoDbMediaItemAlbum::new(
                id.to_owned(),
                name.to_owned(),
                media_type,
                last_modified_time,
                inode,
            );
            proof {
                assert(records(self.items@.update(p as int, rec)) =~= self@.entities.update(
                    p as int,
                    rec@,
                ));
            }
            self.items.set(p, rec);
            Ok(inode)
        } else if self.next_inode == u64::MAX {
            Err(DbError::SqlError(SqlFault::InodeOverflow))
        } else {
            let inode = self.next_inode + 1;
            let rec = PhotoDbMediaItemAlbum::new(
                id.to_owned(),
                name.to_owned(),
                media_type,
                last_modified_time,
                inode,
            );
            proof {
                assert(records(self.items@.insert(p as int, rec)) =~= self@.entities.insert(
                    p as int,
                    rec@,
                ));
            }
            self.next_inode = inode;
            self.items.insert(p, rec);
            Ok(inode)
        }
    }

    fn is_linked(&self, album_id: &str, media_item_id: &str) -> (linked: bool)
        ensures
            linked == self@.memberships.contains((album_id@, media_item_id@)),
    {
        let mut i: usize = 0;
        while i < self.members.len()
            invariant
                i <= self.members.len(),
                forall|j: int|
                    0 <= j < i ==> pair_view(#[trigger] self.members@[j]) != (
                        album_id@,
                        media_item_id@,
                    ),
            decreases self.members.len() - i,
        {
            if str_eq(self.members[i].0.as_str(), album_id) && str_eq(
                self.members[i].1.as_str(),
                media_item_id,
            ) {
                assert(pair_view(self.members@[i as int]) == (album_id@, media_item_id@));
                return true;
            }
            i += 1;
        }
        false
    }

    fn members_of(&self, album_id: &str) -> (members: TextSet)
        ensures
            holds_members(members, self@.memberships, album_id@),
    {
        let mut members = TextSet::new();
        let mut i: usize = 0;
        while i < self.members.len()
            invariant
                i <= self.members.len(),
                members.wf(),
                forall|id: Seq<char>|
                    members@.contains(id) <==> exists|j: int|
                        0 <= j < i && pair_view(#[trigger] self.members@[j]) == (album_id@, id),
            decreases self.members.len() - i,
        {
            let ghost so_far = members@;
            if str_eq(self.members[i].0.as_str(), album_id) {
                members.insert(self.members[i].1.as_str());
            }
            proof {
                assert forall|id: Seq<char>|
                    members@.contains(id) <==> exists|j: int|
                        0 <= j < i + 1 && pair_view(#[trigger] self.members@[j]) == (
                            album_id@,
                            id,
                        ) by {
                    if so_far.contains(id) {
                        let j = choose|j: int|
                            0 <= j < i && pair_view(#[trigger] self.members@[j]) == (album_id@, id);
                        assert(pair_view(self.members@[j]) == (album_id@, id));
                    }
                    if pair_view(self.members@[i as int]) == (album_id@, id) {
                        assert(members@.contains(id));
                    }
                    if exists|j: int|
                        0 <= j < i + 1 && pair_view(#[trigger] self.members@[j]) == (
                            album_id@,
                            id,
                        ) {
                        let j = choose|j: int|
                            0 <= j < i + 1 && pair_view(#[trigger] self.members@[j]) == (
                                album_id@,
                                id,
                            );
                        if j < i {
                            assert(so_far.contains(id));
                        }
                    }
                }
            }
            i += 1;
        }
        proof {
            assert forall|id: Seq<char>|
                members@.contains(id) <==> self@.memberships.contains((album_id@, id)) by {
                if members@.contains(id) {
                    let j = choose|j: int|
                        0 <= j < self.members.len() && pair_view(#[trigger] self.members@[j]) == (
                            album_id@,
                            id,
                        );
                    assert(pair_view(self.members@[j]) == (album_id@, id));
                }
                if self@.memberships.contains((album_id@, id)) {
                    let j = choose|j: int|
                        0 <= j < self.members@.len() && pair_view(#[trigger] self.members@[j]) == (
                            album_id@,
                            id,
                        );
                    assert(pair_view(self.members@[j]) == (album_id@, id));
                }
            }
        }
        members
    }

    fn is_selected(&self, item: &PhotoDbMediaItemAlbum, query: &Query<'_>) -> (selected: bool)
        requires
            query.fits(self@.memberships),
        ensures
            selected == (query.selects(self@.memberships))(item@),
    {
        match query {
            Query::Kind(kind) => item.media_type == *kind,
            Query::Inode(inode) => item.inode == *inode,
            Query::Named(name, kind) => item.media_type == *kind && str_eq(
                item.name.as_str(),
                name,
            ),
            Query::Member(_, members) => item.media_type == MediaTypes::MediaItem
                && members.contains(item.google_id()),
            Query::NamedMember(_, members, name) => item.media_type == MediaTypes::MediaItem
                && str_eq(item.name.as_str(), name) && members.contains(item.google_id()),
        }
    }

    fn select(&self, query: &Query<'_>) -> (found: Vec<PhotoDbMediaItemAlbum>)
        requires
            query.fits(self@.memberships),
        ensures
            records(found@) == self@.entities.filter(query.selects(self@.memberships)),
    {
        let ghost pred = query.selects(self@.memberships);
        let mut found: Vec<PhotoDbMediaItemAlbum> = Vec::new();
        let mut i: usize = 0;
        proof {
            self@.entities.take(0).lemma_filter_len(pred);
            assert(records(found@) =~= self@.entities.take(0).filter(pred));
        }
        while i < self.items.len()
            invariant
                i <= self.items.len(),
                query.fits(self@.memberships),
                pred == query.selects(self@.memberships),
                records(found@) == self@.entities.take(i as int).filter(pred),
            decreases self.items.len() - i,
        {
            proof {
                lemma_filter_step(self@.entities, pred, i as int);
            }
            if self.is_selected(&self.items[i], query) {
                let ghost before = found@;
                found.push(self.items[i].clone());
                assert(records(found@) =~= records(before).push(self.items@[i as int]@));
            }
            i += 1;
        }
        proof {
            assert(self@.entities.take(self.items.len() as int) =~= self@.entities);
        }
        found
    }

    fn first(&self, query: &Query<'_>) -> (found: Option<PhotoDbMediaItemAlbum>)
        requires
            query.fits(self@.memberships),
        ensures
            optional_record(found) == first_of(
                self@.entities.filter(query.selects(self@.memberships)),
            ),
    {
        let ghost pred = query.selects(self@.memberships);
        let mut i: usize = 0;
        while i < self.items.len()
            invariant
                i <= self.items.len(),
                query.fits(self@.memberships),
                pred == query.selects(self@.memberships),
                forall|j: int| 0 <= j < i ==> !pred(#[trigger] self@.entities[j]),
            decreases self.items.len() - i,
        {
            if self.is_selected(&self.items[i], query) {
                proof {
                    lemma_filter_first(self@.entities, pred, i as int);
                }
                return Some(self.items[i].clone());
            }
            i += 1;
        }
        proof {
            lemma_filter_nothing(self@.entities, pred);
        }
        None
    }

    fn last_updated_x(&self, media_type: MediaTypes) -> (r: Result<Option<UtcDateTime>, DbError>)
        ensures
            r matches Ok(answer) && (match answer {
                None => !self@.has_kind(media_type),
                Some(at) => self@.is_oldest(media_type, at as int),
            }),
    {
        let mut oldest: Option<UtcDateTime> = None;
        let mut i: usize = 0;
        while i < self.items.len()
            invariant
                i <= self.items.len(),
                match oldest {
                    None => forall|j: int|
                        0 <= j < i ==> (#[trigger] self@.entities[j]).kind != media_type,
                    Some(at) => {
                        &&& exists|j: int|
                            0 <= j < i && (#[trigger] self@.entities[j]).kind == media_type
                                && self@.entities[j].last_synced == at
                        &&& forall|j: int|
                            0 <= j < i && (#[trigger] self@.entities[j]).kind == media_type ==> at
                                <= self@.entities[j].last_synced
                    },
                },
            decreases self.items.len() - i,
        {
            if self.items[i].media_type == media_type {
                let at = self.items[i].last_remote_check;
                assert(self@.entities[i as int].kind == media_type && self@.entities[i as int].last_synced == at);
                oldest =
                match oldest {
                    Some(best) => if best <= at {
                        Some(best)
                    } else {
                        Some(at)
                    },
                    None => Some(at),
                };
            }
            i += 1;
        }
        Ok(oldest)
    }

    fn inode_in_use(&self, inode: Inode) -> (used: bool)
        ensures
            used == self@.in_use(inode as nat),
    {
        let mut i: usize = 0;
        while i < self.items.len()
            invariant
                i <= self.items.len(),
                forall|k: int| 0 <= k < i ==> (#[trigger] self@.entities[k]).stable_id != inode,
            decreases self.items.len() - i,
        {
            if self.items[i].inode == inode {
                assert(self@.entities[i as int].stable_id == inode);
                return true;
            }
            i += 1;
        }
        false
    }

    /// The inode number that was handed out last.
    pub fn next_inode(&self) -> (inode: Inode)
        ensures
            inode == self@.next_inode,
    {
        self.next_inode
    }

    /// Records that the media items of a roster belong to an album:
    /// those that have a record, and none unless the album has one.
    pub fn upsert_media_items_in_album<T: TextKeyed>(
        &mut self,
        album_id: &GoogleId,
        media_items: &Vec<T>,
    )
        ensures
            old(self)@.wf() ==> final(self)@ == old(self)@.link_members(
                album_id@,
                keys_of(media_items@),
            ) && final(self)@.wf(),
    {
        let ghost before = self@;
        let ghost roster = keys_of(media_items@);
        let album_known = match self.is_known(album_id) {
            Ok(known) => known,
            Err(_) => false,
        };
        if !album_known {
            proof {
                if before.wf() {
                    assert(before.link_members(album_id@, roster).memberships
                        =~= before.memberships);
                }
            }
            return ;
        }
        let mut members = self.members_of(album_id);
        let mut i: usize = 0;
        proof {
            assert(before.link_members(album_id@, roster.take(0)).memberships
                =~= before.memberships);
        }
        while i < media_items.len()
            invariant
                i <= media_items.len(),
                roster == keys_of(media_items@),
                before.wf() ==> before.contains(album_id@),
                holds_members(members, self@.memberships, album_id@),
                before.wf() ==> self@ == before.link_members(album_id@, roster.take(i as int))
                    && self@.wf(),
            decreases media_items.len() - i,
        {
            let id = media_items[i].key();
            let ghost so_far = self@;
            let ghost shorter = roster.take(i as int);
            let ghost longer = roster.take(i as int + 1);
            proof {
                assert(longer =~= shorter.push(id@));
                assert(longer[i as int] == id@);
                if before.wf() {
                    before.lemma_link_members(album_id@, longer);
                }
            }
            let known = match self.is_known(id) {
                Ok(known) => known,
                Err(_) => false,
            };
            if known && members.insert(id) {
                let row = (album_id.to_owned(), id.to_owned());
                proof {
                    lemma_pairs_push(self.members@, row);
                }
                self.members.push(row);
            }
            proof {
                if before.wf() {
                    let next = before.link_members(album_id@, longer);
                    assert(so_far.entities == before.entities);
                    assert forall|pair: (Seq<char>, Seq<char>)|
                        self@.memberships.contains(pair) <==> next.memberships.contains(pair) by {
                        if pair.0 == album_id@ && longer.contains(pair.1) {
                            let k = choose|k: int| 0 <= k < longer.len() && longer[k] == pair.1;
                            if k < i {
                                assert(shorter[k] == pair.1);
                            }
                        }
                        if pair.0 == album_id@ && shorter.contains(pair.1) {
                            let k = choose|k: int| 0 <= k < shorter.len() && shorter[k] == pair.1;
                            assert(longer[k] == pair.1);
                        }
                    }
                    assert(self@.memberships =~= next.memberships);
                }
            }
            i += 1;
        }
        proof {
            assert(roster.take(media_items.len() as int) =~= roster);
        }
    }

    /// All membership rows, each with the remote identifier of the album
    /// and that of the media item.
    pub fn memberships(&self) -> (rows: Vec<(String, String)>)
        ensures
            pairs(rows@) == self@.memberships,
    {
        let mut rows: Vec<(String, String)> = Vec::new();
        let mut i: usize = 0;
        while i < self.members.len()
            invariant
                i <= self.members.len(),
                rows@.len() == i,
                forall|k: int| 0 <= k < i ==> pair_view(#[trigger] rows@[k]) == pair_view(self.members@[k]),
            decreases self.members.len() - i,
        {
            rows.push((self.members[i].0.clone(), self.members[i].1.clone()));
            i += 1;
        }
        proof {
            assert forall|p: (Seq<char>, Seq<char>)|
                pairs(rows@).contains(p) <==> pairs(self.members@).contains(p) by {
                if pairs(rows@).contains(p) {
                    let k = choose|k: int| 0 <= k < rows@.len() && pair_view(#[trigger] rows@[k]) == p;
                    assert(pair_view(self.members@[k]) == p);
                }
                if pairs(self.members@).contains(p) {
                    let k = choose|k: int|
                        0 <= k < self.members@.len() && pair_view(#[trigger] self.members@[k]) == p;
                    assert(pair_view(rows@[k]) == p);
                }
            }
            assert(pairs(rows@) =~= pairs(self.members@));
        }
        rows
    }

    /// Builds a cache from persisted rows: the records, the membership
    /// rows and the value of the counter. Fails unless the rows form a
    /// valid cache.
    pub fn restore(
        items: Vec<PhotoDbMediaItemAlbum>,
        members: Vec<(String, String)>,
        next_inode: Inode,
    ) -> (r: Result<CacheStore, DbError>)
        ensures
            match r {
                Ok(db) => {
                    &&& db@.wf()
                    &&& db@.next_inode == next_inode
                    &&& db@.memberships == pairs(members@)
                    &&& forall|e: EntityRecord| #[trigger]
                        db@.entities.contains(e) <==> records(items@).contains(e)
                },
                Err(e) => e == DbError::SqlError(SqlFault::Malformed),
            },
            r is Ok <==> restorable(records(items@), pairs(members@), next_inode as nat),
    {
        let ghost rows = records(items@);
        let ghost links = pairs(members@);
        if next_inode < INODE_SEED {
            return Err(DbError::SqlError(SqlFault::Malformed));
        }
        let mut db = CacheStore { items: Vec::new(), members: Vec::new(), next_inode };
        proof {
            assert(db@.entities =~= Seq::empty());
            assert(db@.memberships =~= Set::empty());
        }
        let mut i: usize = 0;
        while i < items.len()
            invariant
                i <= items.len(),
                rows == records(items@),
                db.next_inode == next_inode,
                db.members@.len() == 0,
                db@.wf(),
                forall|e: EntityRecord| #[trigger]
                    db@.entities.contains(e) <==> rows.take(i as int).contains(e),
                forall|a: int, b: int|
                    #![trigger rows[a], rows[b]]
                    0 <= a < b < i ==> rows[a].remote_id != rows[b].remote_id && rows[a].stable_id
                        != rows[b].stable_id,
                forall|a: int| 0 <= a < i ==> INODE_SEED < (#[trigger] rows[a]).stable_id <= next_inode,
            decreases items.len() - i,
        {
            let item = &items[i];
            let ghost before = db@;
            let ghost row = rows[i as int];
            let ghost shorter = rows.take(i as int);
            let ghost longer = rows.take(i as int + 1);
            proof {
                before.lemma_position(row.remote_id);
                before.lemma_lower_bound(row.remote_id);
                assert(longer =~= shorter.push(row));
            }
            let p = db.lower_bound(item.google_id());
            if p < db.items.len() && str_eq(db.items[p].google_id(), item.google_id()) {
                proof {
                    let e = before.entities[p as int];
                    assert(before.entities.contains(e));
                    let k = choose|k: int| 0 <= k < shorter.len() && shorter[k] == e;
                    assert(rows[k].remote_id == rows[i as int].remote_id);
                }
                return Err(DbError::SqlError(SqlFault::Malformed));
            }
            if item.inode <= INODE_SEED || item.inode > next_inode {
                proof {
                    assert(!(INODE_SEED < rows[i as int].stable_id <= next_inode));
                }
                return Err(DbError::SqlError(SqlFault::Malformed));
            }
            if db.inode_in_use(item.inode) {
                proof {
                    let j = choose|j: int|
                        0 <= j < before.entities.len() && (#[trigger] before.entities[j]).stable_id
                            == item.inode;
                    let e = before.entities[j];
                    assert(before.entities.contains(e));
                    let k = choose|k: int| 0 <= k < shorter.len() && shorter[k] == e;
                    assert(rows[k].stable_id == rows[i as int].stable_id);
                }
                return Err(DbError::SqlError(SqlFault::Malformed));
            }
            let rec = item.clone();
            proof {
                before.lemma_insert(p as int, row, next_inode as nat);
                assert(records(db.items@.insert(p as int, rec)) =~= before.entities.insert(
                    p as int,
                    row,
                ));
                assert forall|a: int, b: int|
                    #![trigger rows[a], rows[b]]
                    0 <= a < b < i + 1 implies rows[a].remote_id != rows[b].remote_id
                    && rows[a].stable_id != rows[b].stable_id by {
                    if b == i {
                        assert(shorter[a] == rows[a]);
                        assert(shorter.contains(rows[a]));
                        assert(before.entities.contains(rows[a]));
                        let j = choose|j: int|
                            0 <= j < before.entities.len() && before.entities[j] == rows[a];
                        assert(before.entities[j].stable_id != row.stable_id);
                        assert(before.contains(rows[a].remote_id));
                    }
                }
            }
            db.items.insert(p, rec);
            proof {
                assert forall|e: EntityRecord| #[trigger]
                    db@.entities.contains(e) <==> longer.contains(e) by {
                    if longer.contains(e) {
                        let k = choose|k: int|
                            0 <= k < longer.len() && longer[k] == e;
                        if k < i {
                            assert(shorter[k] == e);
                            assert(before.entities.contains(e));
                            let j = choose|j: int|
                                0 <= j < before.entities.len() && before.entities[j] == e;
                            assert(before.contains(e.remote_id));
                        }
                    }
                    if before.entities.contains(e) {
                        let k = choose|k: int| 0 <= k < shorter.len() && shorter[k] == e;
                        assert(longer[k] == e);
                    }
                    if e == row {
                        assert(longer[i as int] == e);
                    }
                }
            }
            i += 1;
        }
        proof {
            assert(rows.take(items.len() as int) =~= rows);
        }
        let mut k: usize = 0;
        while k < members.len()
            invariant
                k <= members.len(),
                db@.wf(),
                db.next_inode == next_inode,
                db.members@.len() == 0,
                rows == records(items@),
                links == pairs(members@),
                forall|e: EntityRecord| #[trigger] db@.entities.contains(e) <==> rows.contains(e),
                forall|a: int, b: int|
                    #![trigger rows[a], rows[b]]
                    0 <= a < b < rows.len() ==> rows[a].remote_id != rows[b].remote_id
                        && rows[a].stable_id != rows[b].stable_id,
                forall|a: int|
                    0 <= a < rows.len() ==> INODE_SEED < (#[trigger] rows[a]).stable_id
                        <= next_inode,
                forall|m: int|
                    0 <= m < k ==> db@.contains((#[trigger] members@[m]).0@) && db@.contains(
                        members@[m].1@,
                    ),
            decreases members.len() - k,
        {
            let album_known = db.is_known(members[k].0.as_str())?;
            let media_item_known = db.is_known(members[k].1.as_str())?;
            if !album_known || !media_item_known {
                proof {
                    let missing = if album_known {
                        members@[k as int].1@
                    } else {
                        members@[k as int].0@
                    };
                    assert(links.contains(pair_view(members@[k as int])));
                    if exists|a: int| 0 <= a < rows.len() && (#[trigger] rows[a]).remote_id == missing {
                        let a = choose|a: int|
                            0 <= a < rows.len() && (#[trigger] rows[a]).remote_id == missing;
                        assert(rows.contains(rows[a]));
                        assert(db@.entities.contains(rows[a]));
                        let j = choose|j: int|
                            0 <= j < db@.entities.len() && db@.entities[j] == rows[a];
                        assert(db@.entities[j].remote_id == missing);
                    }
                }
                return Err(DbError::SqlError(SqlFault::Malformed));
            }
            k += 1;
        }
        let restored = CacheStore { items: db.items, members, next_inode };
        proof {
            assert(restored@.entities == db@.entities);
            assert forall|a: Seq<char>, b: Seq<char>| #[trigger]
                restored@.memberships.contains((a, b)) implies restored@.contains(a)
                && restored@.contains(b) by {
                let m = choose|m: int|
                    0 <= m < members@.len() && pair_view(#[trigger] members@[m]) == (a, b);
                assert(db@.contains(members@[m].0@));
            }
            assert forall|a: Seq<char>, b: Seq<char>| #[trigger]
                links.contains((a, b)) implies (exists|x: int|
                0 <= x < rows.len() && (#[trigger] rows[x]).remote_id == a) && (exists|x: int|
                0 <= x < rows.len() && (#[trigger] rows[x]).remote_id == b) by {
                assert(restored@.contains(a) && restored@.contains(b));
                let ja = choose|j: int|
                    0 <= j < db@.entities.len() && (#[trigger] db@.entities[j]).remote_id == a;
                assert(db@.entities.contains(db@.entities[ja]));
                let xa = choose|x: int| 0 <= x < rows.len() && rows[x] == db@.entities[ja];
                assert(rows[xa].remote_id == a);
                let jb = choose|j: int|
                    0 <= j < db@.entities.len() && (#[trigger] db@.entities[j]).remote_id == b;
                assert(db@.entities.contains(db@.entities[jb]));
                let xb = choose|x: int| 0 <= x < rows.len() && rows[x] == db@.entities[jb];
                assert(rows[xb].remote_id == b);
            }
        }
        Ok(restored)
    }
}

impl NextInodeDb for CacheStore {
    /// Moves the counter on by one and returns its new value. Fails only
    /// where the counter cannot grow any more.
    fn get_and_update_inode(&mut self) -> (r: Result<Inode, DbError>)
        ensures
            match r {
                Ok(inode) => inode == old(self)@.next_inode + 1 && final(self)@ == old(
                    self,
                )@.allocate(),
                Err(e) => e == DbError::SqlError(SqlFault::InodeOverflow) && final(self)@ == old(
                    self,
                )@,
            },
            r is Err <==> old(self)@.next_inode >= u64::MAX,
            old(self)@.wf() ==> final(self)@.wf(),
    {
        proof {
            if self@.wf() {
                self@.lemma_allocate();
            }
        }
        if self.next_inode == u64::MAX {
            Err(DbError::SqlError(SqlFault::InodeOverflow))
        } else {
            self.next_inode = self.next_inode + 1;
            Ok(self.next_inode)
        }
    }
}

impl PhotoDbRo for CacheStore {
    /// All media items, ordered by remote identifier.
    fn media_items(&self) -> (r: Result<Vec<PhotoDbMediaItem>, DbError>)
        ensures
            r matches Ok(found) && records(found@) == self@.of_kind(MediaTypes::MediaItem),
    {
        Ok(self.select(&Query::Kind(MediaTypes::MediaItem)))
    }

    /// All albums, ordered by remote identifier.
    fn albums(&self) -> (r: Result<Vec<PhotoDbAlbum>, DbError>)
        ensures
            r matches Ok(found) && records(found@) == self@.of_kind(MediaTypes::Album),
    {
        Ok(self.select(&Query::Kind(MediaTypes::Album)))
    }

    /// The media items that belong to the album with the given inode
    /// number, ordered by remote identifier; none where no record has that
    /// number.
    fn media_items_in_album(&self, inode: Inode) -> (r: Result<Vec<PhotoDbMediaItem>, DbError>)
        ensures
            r matches Ok(found) && records(found@) == self@.in_album(inode as nat),
    {
        match self.first(&Query::Inode(inode)) {
            Some(album) => {
                let members = self.members_of(album.google_id());
                Ok(self.select(&Query::Member(album.google_id(), &members)))
            },
            None => {
                let found: Vec<PhotoDbMediaItem> = Vec::new();
                assert(records(found@) =~= Seq::empty());
                Ok(found)
            },
        }
    }

    /// How many media items belong to the album with the given inode
    /// number.
    fn media_items_in_album_length(&self, inode: Inode) -> (r: Result<usize, DbError>)
        ensures
            r matches Ok(count) && count == self@.in_album(inode as nat).len(),
    {
        let found = self.media_items_in_album(inode)?;
        Ok(found.len())
    }

    /// The media item that is shown under `name`, among all media items
    /// or among those of one album. Of several, the first by remote
    /// identifier.
    fn media_item_by_name(&self, name: &str, filter: Filter<'_>) -> (r: Result<
        Option<PhotoDbMediaItem>,
        DbError,
    >)
        ensures
            r matches Ok(found) && optional_record(found) == (match filter.album() {
                None => self@.by_name(name@, MediaTypes::MediaItem),
                Some(album_id) => self@.by_name_in_album(name@, album_id),
            }),
    {
        match filter {
            Filter::NoFilter => Ok(self.first(&Query::Named(name, MediaTypes::MediaItem))),
            Filter::ByAlbum(album_id) => {
                let members = self.members_of(album_id);
                Ok(self.first(&Query::NamedMember(album_id, &members, name)))
            },
        }
    }

    /// The media item with the given inode number.
    fn media_item_by_inode(&self, inode: Inode) -> (r: Result<
        Option<PhotoDbMediaItem>,
        DbError,
    >)
        ensures
            r matches Ok(found) && optional_record(found) == self@.by_inode_of_kind(
                inode as nat,
                MediaTypes::MediaItem,
            ),
    {
        match self.first(&Query::Inode(inode)) {
            Some(item) => match item.media_type {
                MediaTypes::MediaItem => Ok(Some(item)),
                MediaTypes::Album => Ok(None),
            },
            None => Ok(None),
        }
    }

    /// The album that is shown under `name`. Of several, the first by
    /// remote identifier.
    fn album_by_name(&self, name: &str) -> (r: Result<Option<PhotoDbAlbum>, DbError>)
        ensures
            r matches Ok(found) && optional_record(found) == self@.by_name(
                name@,
                MediaTypes::Album,
            ),
    {
        Ok(self.first(&Query::Named(name, MediaTypes::Album)))
    }

    /// The album with the given inode number.
    fn album_by_inode(&self, inode: Inode) -> (r: Result<Option<PhotoDbAlbum>, DbError>)
        ensures
            r matches Ok(found) && optional_record(found) == self@.by_inode_of_kind(
                inode as nat,
                MediaTypes::Album,
            ),
    {
        match self.first(&Query::Inode(inode)) {
            Some(item) => match item.media_type {
                MediaTypes::Album => Ok(Some(item)),
                MediaTypes::MediaItem => Ok(None),
            },
            None => Ok(None),
        }
    }

    /// The album or media item with the given inode number.
    fn item_by_inode(&self, inode: Inode) -> (r: Result<
        Option<PhotoDbMediaItemAlbum>,
        DbError,
    >)
        ensures
            r matches Ok(found) && optional_record(found) == self@.by_inode(inode as nat),
    {
        Ok(self.first(&Query::Inode(inode)))
    }

    /// Whether the remote item has a record.
    fn is_known(&self, id: &GoogleId) -> (r: Result<bool, DbError>)
        ensures
            r is Ok,
            self@.wf() ==> r == Ok::<bool, DbError>(self@.contains(id@)),
    {
        proof {
            if self@.wf() {
                self@.lemma_position(id@);
            }
        }
        let p = self.lower_bound(id);
        Ok(p < self.items.len() && str_eq(self.items[p].google_id(), id))
    }

    /// The earliest time at which a media item was last synchronised;
    /// nothing while the cache holds no media item.
    fn last_updated_media(&self) -> (r: Result<Option<UtcDateTime>, DbError>)
        ensures
            r matches Ok(answer) && (match answer {
                None => !self@.has_kind(MediaTypes::MediaItem),
                Some(at) => self@.is_oldest(MediaTypes::MediaItem, at as int),
            }),
    {
        self.last_updated_x(MediaTypes::MediaItem)
    }

    /// The earliest time at which an album was last synchronised; nothing
    /// while the cache holds no album.
    fn last_updated_album(&self) -> (r: Result<Option<UtcDateTime>, DbError>)
        ensures
            r matches Ok(answer) && (match answer {
                None => !self@.has_kind(MediaTypes::Album),
                Some(at) => self@.is_oldest(MediaTypes::Album, at as int),
            }),
    {
        self.last_updated_x(MediaTypes::Album)
    }
}

impl PhotoDb for CacheStore {
    /// Records a media item and returns its inode number: the one it
    /// already has, or a new one. Fails only where a new number is needed
    /// and the counter cannot grow any more.
    fn upsert_media_item(
        &mut self,
        id: &GoogleId,
        filename: &str,
        last_modified_time: &UtcDateTime,
    ) -> (r: Result<Inode, DbError>)
        ensures
            old(self)@.wf() ==> {
                &&& match r {
                    Ok(inode) => final(self)@ == old(self)@.upsert(
                        id@,
                        MediaTypes::MediaItem,
                        filename@,
                        *last_modified_time as int,
                    ) && inode == old(self)@.inode_for(id@),
                    Err(e) => e == DbError::SqlError(SqlFault::InodeOverflow) && final(self)@
                        == old(self)@,
                }
                &&& r is Err <==> !old(self)@.contains(id@) && old(self)@.next_inode >= u64::MAX
                &&& final(self)@.wf()
            },
    {
        self.upsert_x(id, MediaTypes::MediaItem, filename, *last_modified_time)
    }

    /// Records an album and returns its inode number: the one it already
    /// has, or a new one. Fails only where a new number is needed and the
    /// counter cannot grow any more.
    fn upsert_album(
        &mut self,
        id: &GoogleId,
        title: &str,
        last_modified_time: &UtcDateTime,
    ) -> (r: Result<Inode, DbError>)
        ensures
            old(self)@.wf() ==> {
                &&& match r {
                    Ok(inode) => final(self)@ == old(self)@.upsert(
                        id@,
                        MediaTypes::Album,
                        title@,
                        *last_modified_time as int,
                    ) && inode == old(self)@.inode_for(id@),
                    Err(e) => e == DbError::SqlError(SqlFault::InodeOverflow) && final(self)@
                        == old(self)@,
                }
                &&& r is Err <==> !old(self)@.contains(id@) && old(self)@.next_inode >= u64::MAX
                &&& final(self)@.wf()
            },
    {
        self.upsert_x(id, MediaTypes::Album, title, *last_modified_time)
    }

    /// Records that a media item belongs to an album. Fails, and changes
    /// nothing, unless both have a record.
    fn upsert_media_item_in_album(
        &mut self,
        album_id: &GoogleId,
        media_item_id: &GoogleId,
    ) -> (r: Result<(), DbError>)
        ensures
            old(self)@.wf() ==> {
                &&& match r {
                    Ok(_) => final(self)@ == old(self)@.link(album_id@, media_item_id@),
                    Err(e) => e == DbError::SqlError(SqlFault::ForeignKey) && final(self)@ == old(
                        self,
                    )@,
                }
                &&& r is Ok <==> old(self)@.contains(album_id@) && old(self)@.contains(
                    media_item_id@,
                )
                &&& final(self)@.wf()
            },
    {
        let album_known = self.is_known(album_id)?;
        let media_item_known = self.is_known(media_item_id)?;
        if !album_known || !media_item_known {
            return Err(DbError::SqlError(SqlFault::ForeignKey));
        }
        proof {
            if self@.wf() {
                self@.lemma_link(album_id@, media_item_id@);
            }
        }
        if self.is_linked(album_id, media_item_id) {
            assert(self@.memberships.insert((album_id@, media_item_id@)) =~= self@.memberships);
        } else {
            let row = (album_id.to_owned(), media_item_id.to_owned());
            proof {
                lemma_pairs_push(self.members@, row);
            }
            self.members.push(row);
        }
        Ok(())
    }
}

} // verus!
