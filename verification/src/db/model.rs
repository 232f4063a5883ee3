//! The cache store as a mathematical value, and what its operations do to
//! it.

use crate::domain::{EntityRecord, MediaTypes};
use crate::text::{
    ascending, lemma_rank, lemma_text_less_irreflexive, lemma_text_less_total,
    lemma_text_less_transitive, rank, text_less,
};
use vstd::prelude::*;

verus! {

/// The value that the inode counter starts from. Numbers up to it are
/// reserved for the fixed nodes of the filesystem; the first number that
/// is handed out is the next one.
pub const INODE_SEED: u64 = 100;

/// The contents of a cache store.
pub struct CacheView {
    /// One record per remote item, ordered by remote identifier.
    pub entities: Seq<EntityRecord>,
    /// Pairs of an album's and a media item's remote identifier.
    pub memberships: Set<(Seq<char>, Seq<char>)>,
    /// The inode number that was handed out last.
    pub next_inode: nat,
}

/// One call that records a remote item.
pub struct Upsert {
    pub remote_id: Seq<char>,
    pub kind: MediaTypes,
    pub display_name: Seq<char>,
    pub synced_at: int,
}

/// Whether persisted rows form a valid cache: no remote identifier and no
/// inode number occurs twice, every inode number lies above the reserved
/// range and at or below the counter, and every membership joins two
/// items that have a row.
pub open spec fn restorable(
    rows: Seq<EntityRecord>,
    memberships: Set<(Seq<char>, Seq<char>)>,
    next_inode: nat,
) -> bool {
    &&& INODE_SEED <= next_inode
    &&& forall|i: int, j: int|
        #![trigger rows[i], rows[j]]
        0 <= i < j < rows.len() ==> rows[i].remote_id != rows[j].remote_id && rows[i].stable_id
            != rows[j].stable_id
    &&& forall|i: int| 0 <= i < rows.len() ==> INODE_SEED < (#[trigger] rows[i]).stable_id <= next_inode
    &&& forall|a: Seq<char>, b: Seq<char>| #[trigger]
        memberships.contains((a, b)) ==> {
            &&& exists|i: int| 0 <= i < rows.len() && (#[trigger] rows[i]).remote_id == a
            &&& exists|i: int| 0 <= i < rows.len() && (#[trigger] rows[i]).remote_id == b
        }
}

/// What a pass over the albums met at one album: the row of the remote
/// listing, the time at which it was recorded, and the roster of the
/// album, unless reading the roster failed.
pub struct AlbumVisit {
    pub remote_id: Seq<char>,
    pub display_name: Seq<char>,
    pub seen_at: int,
    pub roster: Option<Seq<Seq<char>>>,
}

/// Whether the roster of every album of a pass was read.
pub open spec fn all_rosters_read(visits: Seq<AlbumVisit>) -> bool {
    forall|i: int| 0 <= i < visits.len() ==> (#[trigger] visits[i]).roster is Some
}

/// Whether a pass ended on a failure of the remote library: before its
/// first album, or at the roster of the last album it came to.
pub open spec fn ended_at_failure(visits: Seq<AlbumVisit>) -> bool {
    visits.len() == 0 || (visits.last().roster is None && all_rosters_read(visits.drop_last()))
}

/// The first record of a listing, if it has one.
pub open spec fn first_of(listing: Seq<EntityRecord>) -> Option<EntityRecord> {
    if listing.len() == 0 {
        None
    } else {
        Some(listing[0])
    }
}

/// Records of one kind.
pub open spec fn is_kind(kind: MediaTypes) -> spec_fn(EntityRecord) -> bool {
    |e: EntityRecord| e.kind == kind
}

/// Records with a given inode number.
pub open spec fn has_inode(inode: nat) -> spec_fn(EntityRecord) -> bool {
    |e: EntityRecord| e.stable_id == inode
}

/// Records of one kind that are shown under a given name.
pub open spec fn is_named(name: Seq<char>, kind: MediaTypes) -> spec_fn(EntityRecord) -> bool {
    |e: EntityRecord| e.kind == kind && e.display_name == name
}

/// Media items that belong to the album with a given remote identifier.
pub open spec fn is_member(
    memberships: Set<(Seq<char>, Seq<char>)>,
    album_id: Seq<char>,
) -> spec_fn(EntityRecord) -> bool {
    |e: EntityRecord| e.kind == MediaTypes::MediaItem && memberships.contains((album_id, e.remote_id))
}

/// Media items of an album that are shown under a given name.
pub open spec fn is_named_member(
    memberships: Set<(Seq<char>, Seq<char>)>,
    album_id: Seq<char>,
    name: Seq<char>,
) -> spec_fn(EntityRecord) -> bool {
    |e: EntityRecord|
        e.kind == MediaTypes::MediaItem && e.display_name == name && memberships.contains(
            (album_id, e.remote_id),
        )
}

impl CacheView {
    /// A cache that has seen nothing yet.
    pub open spec fn empty() -> CacheView {
        CacheView {
            entities: Seq::empty(),
            memberships: Set::empty(),
            next_inode: INODE_SEED as nat,
        }
    }

    /// Whether a remote item has a record.
    pub open spec fn contains(self, id: Seq<char>) -> bool {
        exists|i: int| 0 <= i < self.entities.len() && (#[trigger] self.entities[i]).remote_id == id
    }

    /// Whether an inode number belongs to a record.
    pub open spec fn in_use(self, inode: nat) -> bool {
        exists|i: int| 0 <= i < self.entities.len() && (#[trigger] self.entities[i]).stable_id == inode
    }

    /// The remote identifiers of the records, in their order.
    pub open spec fn ids(self) -> Seq<Seq<char>> {
        self.entities.map_values(|e: EntityRecord| e.remote_id)
    }

    /// The position at which a record for `id` stands or would be put.
    pub open spec fn lower_bound(self, id: Seq<char>) -> int {
        rank(self.ids(), id)
    }

    /// The position of the record for `id`.
    pub open spec fn position(self, id: Seq<char>) -> Option<int> {
        let p = self.lower_bound(id);
        if p < self.entities.len() && self.entities[p].remote_id == id {
            Some(p)
        } else {
            None
        }
    }

    /// The record for `id`.
    pub open spec fn record(self, id: Seq<char>) -> Option<EntityRecord> {
        match self.position(id) {
            Some(p) => Some(self.entities[p]),
            None => None,
        }
    }

    /// The validity of a cache: records are ordered by remote identifier,
    /// no inode number is used twice, every inode number lies above the
    /// reserved range and was handed out by the counter, and every
    /// membership joins two items that have a record.
    pub open spec fn wf(self) -> bool {
        &&& forall|i: int, j: int|
            #![trigger self.entities[i], self.entities[j]]
            0 <= i < j < self.entities.len() ==> text_less(
                self.entities[i].remote_id,
                self.entities[j].remote_id,
            )
        &&& forall|i: int, j: int|
            #![trigger self.entities[i], self.entities[j]]
            0 <= i < j < self.entities.len() ==> self.entities[i].stable_id
                != self.entities[j].stable_id
        &&& forall|i: int|
            0 <= i < self.entities.len() ==> INODE_SEED < (#[trigger] self.entities[i]).stable_id
                <= self.next_inode
        &&& INODE_SEED <= self.next_inode
        &&& forall|a: Seq<char>, b: Seq<char>| #[trigger]
            self.memberships.contains((a, b)) ==> self.contains(a) && self.contains(b)
    }

    /// The inode number that recording `id` returns: the one it has, or
    /// the next one of the counter.
    pub open spec fn inode_for(self, id: Seq<char>) -> nat {
        match self.record(id) {
            Some(e) => e.stable_id,
            None => self.next_inode + 1,
        }
    }

    /// The cache after a remote item was recorded. A known item keeps its
    /// inode number and its memberships; a new one takes the next number.
    pub open spec fn upsert(
        self,
        id: Seq<char>,
        kind: MediaTypes,
        name: Seq<char>,
        at: int,
    ) -> CacheView {
        let rec = EntityRecord {
            remote_id: id,
            kind,
            display_name: name,
            stable_id: self.inode_for(id),
            last_synced: at,
        };
        match self.position(id) {
            Some(p) => CacheView { entities: self.entities.update(p, rec), ..self },
            None => CacheView {
                entities: self.entities.insert(self.lower_bound(id), rec),
                next_inode: self.next_inode + 1,
                ..self
            },
        }
    }

    /// The cache after a media item was put into an album.
    pub open spec fn link(self, album_id: Seq<char>, media_item_id: Seq<char>) -> CacheView {
        CacheView { memberships: self.memberships.insert((album_id, media_item_id)), ..self }
    }

    /// The cache after the media items of a roster were put into an album:
    /// those that have a record, and none unless the album has one.
    pub open spec fn link_members(self, album_id: Seq<char>, roster: Seq<Seq<char>>) -> CacheView {
        CacheView {
            memberships: self.memberships.union(
                Set::new(
                    |pair: (Seq<char>, Seq<char>)|
                        pair.0 == album_id && self.contains(album_id) && roster.contains(pair.1)
                            && self.contains(pair.1),
                ),
            ),
            ..self
        }
    }

    /// The cache after every row of a remote listing was recorded as an
    /// item of the given kind, seen at the given time, the first row
    /// first. A row that would need a new inode number when the counter
    /// cannot grow any more is passed over.
    pub open spec fn record_all(
        self,
        listing: Seq<(Seq<char>, Seq<char>)>,
        kind: MediaTypes,
        at: int,
    ) -> CacheView
        decreases listing.len(),
    {
        if listing.len() == 0 {
            self
        } else {
            let before = self.record_all(listing.drop_last(), kind, at);
            let row = listing.last();
            if before.contains(row.0) || before.next_inode < u64::MAX {
                before.upsert(row.0, kind, row.1, at)
            } else {
                before
            }
        }
    }

    /// The cache after one row of a remote listing was recorded, or the
    /// cache as it is where the row would need a new inode number and the
    /// counter cannot grow any more.
    pub open spec fn record_row(
        self,
        id: Seq<char>,
        kind: MediaTypes,
        name: Seq<char>,
        at: int,
    ) -> CacheView {
        if self.contains(id) || self.next_inode < u64::MAX {
            self.upsert(id, kind, name, at)
        } else {
            self
        }
    }

    /// The cache after a pass came to one album: the album is recorded,
    /// and where its roster was read, the media items of the roster that
    /// have a record are put into it.
    pub open spec fn record_album(self, visit: AlbumVisit) -> CacheView {
        let recorded = self.record_row(
            visit.remote_id,
            MediaTypes::Album,
            visit.display_name,
            visit.seen_at,
        );
        match visit.roster {
            Some(roster) => recorded.link_members(visit.remote_id, roster),
            None => recorded,
        }
    }

    /// The cache after a pass came to a row of albums, the first of them
    /// first.
    pub open spec fn record_albums(self, visits: Seq<AlbumVisit>) -> CacheView
        decreases visits.len(),
    {
        if visits.len() == 0 {
            self
        } else {
            self.record_albums(visits.drop_last()).record_album(visits.last())
        }
    }

    /// Whether this cache has grown out of an earlier one: every item
    /// that had a record still has it, under the same inode number, every
    /// membership is still there, and the counter has not gone back.
    pub open spec fn extends(self, before: CacheView) -> bool {
        &&& before.next_inode <= self.next_inode
        &&& before.memberships.subset_of(self.memberships)
        &&& forall|id: Seq<char>| #[trigger]
            before.contains(id) ==> self.contains(id) && self.inode_for(id) == before.inode_for(
                id,
            )
    }

    /// The cache after a row of calls, the first of them applied first.
    pub open spec fn replay(self, calls: Seq<Upsert>) -> CacheView
        decreases calls.len(),
    {
        if calls.len() == 0 {
            self
        } else {
            let call = calls.last();
            self.replay(calls.drop_last()).upsert(
                call.remote_id,
                call.kind,
                call.display_name,
                call.synced_at,
            )
        }
    }

    /// The inode number that call number `i` of a row of calls returns.
    pub open spec fn returned(self, calls: Seq<Upsert>, i: int) -> nat {
        self.replay(calls.take(i)).inode_for(calls[i].remote_id)
    }

    /// All records of one kind, ordered by remote identifier.
    pub open spec fn of_kind(self, kind: MediaTypes) -> Seq<EntityRecord> {
        self.entities.filter(is_kind(kind))
    }

    /// The record with a given inode number.
    pub open spec fn by_inode(self, inode: nat) -> Option<EntityRecord> {
        first_of(self.entities.filter(has_inode(inode)))
    }

    /// The record of a given kind and inode number.
    pub open spec fn by_inode_of_kind(self, inode: nat, kind: MediaTypes) -> Option<
        EntityRecord,
    > {
        match self.by_inode(inode) {
            Some(e) => if e.kind == kind {
                Some(e)
            } else {
                None
            },
            None => None,
        }
    }

    /// The record of a given kind that is shown under a given name: of
    /// several, the first by remote identifier.
    pub open spec fn by_name(self, name: Seq<char>, kind: MediaTypes) -> Option<EntityRecord> {
        first_of(self.entities.filter(is_named(name, kind)))
    }

    /// The media items that belong to the item with a given inode number,
    /// ordered by remote identifier.
    pub open spec fn in_album(self, inode: nat) -> Seq<EntityRecord> {
        match self.by_inode(inode) {
            Some(album) => self.entities.filter(is_member(self.memberships, album.remote_id)),
            None => Seq::empty(),
        }
    }

    /// The media item of an album that is shown under a given name: of
    /// several, the first by remote identifier.
    pub open spec fn by_name_in_album(self, name: Seq<char>, album_id: Seq<char>) -> Option<
        EntityRecord,
    > {
        first_of(self.entities.filter(is_named_member(self.memberships, album_id, name)))
    }

    /// Whether there is a record of the given kind.
    pub open spec fn has_kind(self, kind: MediaTypes) -> bool {
        exists|i: int| 0 <= i < self.entities.len() && (#[trigger] self.entities[i]).kind == kind
    }

    /// Whether `at` is the earliest time at which a record of the given
    /// kind was last synchronised.
    pub open spec fn is_oldest(self, kind: MediaTypes, at: int) -> bool {
        &&& exists|i: int|
            0 <= i < self.entities.len() && (#[trigger] self.entities[i]).kind == kind
                && self.entities[i].last_synced == at
        &&& forall|i: int|
            0 <= i < self.entities.len() && (#[trigger] self.entities[i]).kind == kind ==> at
                <= self.entities[i].last_synced
    }

    /// The cache after the counter handed out one inode number.
    pub open spec fn allocate(self) -> CacheView {
        CacheView { next_inode: self.next_inode + 1, ..self }
    }

    /// Every record before the lower bound comes before `id`, and the
    /// record at the lower bound does not.
    pub proof fn lemma_lower_bound(self, id: Seq<char>)
        ensures
            0 <= self.lower_bound(id) <= self.entities.len(),
            forall|j: int|
                0 <= j < self.lower_bound(id) ==> text_less(
                    (#[trigger] self.entities[j]).remote_id,
                    id,
                ),
            self.lower_bound(id) < self.entities.len() ==> !text_less(
                self.entities[self.lower_bound(id)].remote_id,
                id,
            ),
    {
        lemma_rank(self.ids(), id, 0);
        assert forall|j: int| 0 <= j < self.lower_bound(id) implies text_less(
            (#[trigger] self.entities[j]).remote_id,
            id,
        ) by {
            assert(self.ids()[j] == self.entities[j].remote_id);
        }
    }

    /// The records of a valid cache are in ascending order.
    pub proof fn lemma_ascending(self)
        requires
            self.wf(),
        ensures
            ascending(self.ids()),
    {
        assert forall|i: int, j: int|
            #![trigger self.ids()[i], self.ids()[j]]
            0 <= i < j < self.ids().len() implies text_less(self.ids()[i], self.ids()[j]) by {
            assert(text_less(self.entities[i].remote_id, self.entities[j].remote_id));
        }
    }

    /// In a valid cache a record for `id` is found at `position(id)` and
    /// nowhere else.
    pub proof fn lemma_position(self, id: Seq<char>)
        requires
            self.wf(),
        ensures
            self.contains(id) <==> self.position(id) is Some,
            self.contains(id) <==> self.record(id) is Some,
            self.record(id) matches Some(e) ==> e.remote_id == id,
            forall|i: int|
                0 <= i < self.entities.len() && (#[trigger] self.entities[i]).remote_id == id
                    ==> self.position(id) == Some(i),
            self.position(id) matches Some(p) ==> 0 <= p < self.entities.len()
                && self.entities[p].remote_id == id,
            self.position(id) is None ==> forall|i: int|
                self.lower_bound(id) <= i < self.entities.len() ==> text_less(
                    id,
                    (#[trigger] self.entities[i]).remote_id,
                ),
    {
        let p = self.lower_bound(id);
        self.lemma_lower_bound(id);
        lemma_text_less_irreflexive(id);
        assert forall|i: int|
            0 <= i < self.entities.len() && (#[trigger] self.entities[i]).remote_id
                == id implies self.position(id) == Some(i) by {
            if i < p {
                assert(text_less(self.entities[i].remote_id, id));
            } else if i > p {
                assert(text_less(self.entities[p].remote_id, self.entities[i].remote_id));
            }
        }
        if self.position(id) is None {
            assert forall|i: int| p <= i < self.entities.len() implies text_less(
                id,
                (#[trigger] self.entities[i]).remote_id,
            ) by {
                lemma_text_less_total(id, self.entities[p].remote_id);
                if i > p {
                    assert(text_less(self.entities[p].remote_id, self.entities[i].remote_id));
                    lemma_text_less_transitive(
                        id,
                        self.entities[p].remote_id,
                        self.entities[i].remote_id,
                    );
                }
            }
        }
        if self.position(id) is Some {
            assert(self.entities[p].remote_id == id);
        }
    }

    /// Replacing a record by one with the same remote identifier and
    /// inode number keeps the cache valid.
    proof fn lemma_replace(self, p: int, rec: EntityRecord)
        requires
            self.wf(),
            0 <= p < self.entities.len(),
            rec.remote_id == self.entities[p].remote_id,
            rec.stable_id == self.entities[p].stable_id,
        ensures
            (CacheView { entities: self.entities.update(p, rec), ..self }).wf(),
            forall|x: Seq<char>|
                (#[trigger] (CacheView { entities: self.entities.update(p, rec), ..self }).contains(
                    x,
                )) <==> self.contains(x),
            forall|e: EntityRecord| #[trigger]
                self.entities.update(p, rec).contains(e) <==> e == rec || e.remote_id
                    != rec.remote_id && self.entities.contains(e),
    {
        let t = CacheView { entities: self.entities.update(p, rec), ..self };
        let n = self.entities.len() as int;
        assert forall|x: Seq<char>| self.contains(x) implies t.contains(x) by {
            let i = choose|i: int| 0 <= i < n && (#[trigger] self.entities[i]).remote_id == x;
            assert(t.entities[i].remote_id == x);
        }
        assert forall|x: Seq<char>| t.contains(x) implies self.contains(x) by {
            let i = choose|i: int| 0 <= i < n && (#[trigger] t.entities[i]).remote_id == x;
            assert(self.entities[i].remote_id == x);
        }
        assert forall|i: int, j: int|
            #![trigger t.entities[i], t.entities[j]]
            0 <= i < j < n implies text_less(t.entities[i].remote_id, t.entities[j].remote_id)
            && t.entities[i].stable_id != t.entities[j].stable_id by {
            assert(text_less(self.entities[i].remote_id, self.entities[j].remote_id));
            assert(self.entities[i].stable_id != self.entities[j].stable_id);
        }
        assert forall|i: int| 0 <= i < n implies INODE_SEED < (#[trigger] t.entities[i]).stable_id
            <= t.next_inode by {
            assert(INODE_SEED < self.entities[i].stable_id <= self.next_inode);
        }
        assert forall|e: EntityRecord| #[trigger]
            t.entities.contains(e) <==> e == rec || e.remote_id != rec.remote_id
                && self.entities.contains(e) by {
            assert(t.entities[p] == rec);
            if t.entities.contains(e) {
                let i = choose|i: int| 0 <= i < n && t.entities[i] == e;
                if i != p {
                    assert(self.entities[i] == e);
                    lemma_text_less_irreflexive(rec.remote_id);
                    if i < p {
                        assert(text_less(self.entities[i].remote_id, self.entities[p].remote_id));
                    } else {
                        assert(text_less(self.entities[p].remote_id, self.entities[i].remote_id));
                    }
                }
            }
            if e.remote_id != rec.remote_id && self.entities.contains(e) {
                let i = choose|i: int| 0 <= i < n && self.entities[i] == e;
                assert(t.entities[i] == e);
            }
        }
    }

    /// Putting a record with a new remote identifier and an unused inode
    /// number at its place in the order keeps the cache valid, with the
    /// counter at or above that number.
    pub proof fn lemma_insert(self, p: int, rec: EntityRecord, next: nat)
        requires
            self.wf(),
            0 <= p <= self.entities.len(),
            forall|j: int| 0 <= j < p ==> text_less((#[trigger] self.entities[j]).remote_id, rec.remote_id),
            forall|j: int|
                p <= j < self.entities.len() ==> text_less(
                    rec.remote_id,
                    (#[trigger] self.entities[j]).remote_id,
                ),
            self.next_inode <= next,
            INODE_SEED < rec.stable_id <= next,
            !self.in_use(rec.stable_id),
        ensures
            (CacheView { entities: self.entities.insert(p, rec), next_inode: next, ..self }).wf(),
            forall|x: Seq<char>|
                (#[trigger] (CacheView {
                    entities: self.entities.insert(p, rec),
                    next_inode: next,
                    ..self
                }).contains(x)) <==> x == rec.remote_id || self.contains(x),
            forall|e: EntityRecord| #[trigger]
                self.entities.insert(p, rec).contains(e) <==> e == rec || e.remote_id
                    != rec.remote_id && self.entities.contains(e),
    {
        let t = CacheView { entities: self.entities.insert(p, rec), next_inode: next, ..self };
        let n = self.entities.len() as int;
        lemma_text_less_irreflexive(rec.remote_id);
        assert forall|i: int| 0 <= i < n + 1 implies #[trigger] t.entities[i] == (if i < p {
            self.entities[i]
        } else if i == p {
            rec
        } else {
            self.entities[i - 1]
        }) by {}
        assert forall|x: Seq<char>| self.contains(x) implies t.contains(x) by {
            let i = choose|i: int| 0 <= i < n && (#[trigger] self.entities[i]).remote_id == x;
            if i < p {
                assert(t.entities[i].remote_id == x);
            } else {
                assert(t.entities[i + 1].remote_id == x);
            }
        }
        assert forall|x: Seq<char>| t.contains(x) implies x == rec.remote_id || self.contains(
            x,
        ) by {
            let i = choose|i: int| 0 <= i < n + 1 && (#[trigger] t.entities[i]).remote_id == x;
            if i < p {
                assert(self.entities[i].remote_id == x);
            } else if i > p {
                assert(self.entities[i - 1].remote_id == x);
            }
        }
        assert(t.entities[p].remote_id == rec.remote_id);
        assert forall|i: int, j: int|
            #![trigger t.entities[i], t.entities[j]]
            0 <= i < j < n + 1 implies text_less(t.entities[i].remote_id, t.entities[j].remote_id)
            && t.entities[i].stable_id != t.entities[j].stable_id by {
            let a = if i < p {
                i
            } else {
                i - 1
            };
            let b = if j < p {
                j
            } else {
                j - 1
            };
            if i != p && j != p {
                assert(text_less(self.entities[a].remote_id, self.entities[b].remote_id));
                assert(self.entities[a].stable_id != self.entities[b].stable_id);
            } else if i == p {
                assert(text_less(rec.remote_id, self.entities[b].remote_id));
                assert(self.entities[b].stable_id != rec.stable_id);
            } else {
                assert(text_less(self.entities[a].remote_id, rec.remote_id));
                assert(self.entities[a].stable_id != rec.stable_id);
            }
        }
        assert forall|i: int| 0 <= i < n + 1 implies INODE_SEED < (
        #[trigger] t.entities[i]).stable_id <= t.next_inode by {
            if i < p {
                assert(INODE_SEED < self.entities[i].stable_id <= self.next_inode);
            } else if i > p {
                assert(INODE_SEED < self.entities[i - 1].stable_id <= self.next_inode);
            }
        }
        assert forall|e: EntityRecord| #[trigger]
            t.entities.contains(e) <==> e == rec || e.remote_id != rec.remote_id
                && self.entities.contains(e) by {
            if t.entities.contains(e) {
                let i = choose|i: int| 0 <= i < n + 1 && t.entities[i] == e;
                if i < p {
                    assert(self.entities[i] == e);
                } else if i > p {
                    assert(self.entities[i - 1] == e);
                }
            }
            if e.remote_id != rec.remote_id && self.entities.contains(e) {
                let i = choose|i: int| 0 <= i < n && self.entities[i] == e;
                if i < p {
                    assert(t.entities[i] == e);
                } else {
                    assert(t.entities[i + 1] == e);
                }
            }
        }
    }

    /// In a valid cache the record for `x` is the one record with that
    /// remote identifier.
    pub proof fn lemma_record(self, x: Seq<char>, e: EntityRecord)
        requires
            self.wf(),
        ensures
            self.record(x) == Some(e) <==> e.remote_id == x && self.entities.contains(e),
    {
        self.lemma_position(x);
        if e.remote_id == x && self.entities.contains(e) {
            let i = choose|i: int| 0 <= i < self.entities.len() && self.entities[i] == e;
            assert(self.position(x) == Some(i));
        }
    }

    /// Recording an item keeps the cache valid, touches no other record
    /// and no membership, and moves the counter only for a new item.
    pub proof fn lemma_upsert(self, id: Seq<char>, kind: MediaTypes, name: Seq<char>, at: int)
        requires
            self.wf(),
        ensures
            self.upsert(id, kind, name, at).wf(),
            self.upsert(id, kind, name, at).record(id) == Some(
                EntityRecord {
                    remote_id: id,
                    kind,
                    display_name: name,
                    stable_id: self.inode_for(id),
                    last_synced: at,
                },
            ),
            forall|x: Seq<char>|
                x != id ==> (#[trigger] self.upsert(id, kind, name, at).record(x)) == self.record(
                    x,
                ),
            forall|x: Seq<char>| #[trigger]
                self.upsert(id, kind, name, at).contains(x) <==> x == id || self.contains(x),
            forall|e: EntityRecord| #[trigger]
                self.upsert(id, kind, name, at).entities.contains(e) <==> e.remote_id == id
                    && Some(e) == self.upsert(id, kind, name, at).record(id) || e.remote_id != id
                    && self.entities.contains(e),
            self.upsert(id, kind, name, at).memberships == self.memberships,
            self.upsert(id, kind, name, at).next_inode == (if self.contains(id) {
                self.next_inode
            } else {
                self.next_inode + 1
            }),
    {
        let t = self.upsert(id, kind, name, at);
        let p = self.lower_bound(id);
        let rec = EntityRecord {
            remote_id: id,
            kind,
            display_name: name,
            stable_id: self.inode_for(id),
            last_synced: at,
        };
        self.lemma_position(id);
        self.lemma_lower_bound(id);
        if self.position(id) is Some {
            self.lemma_replace(p, rec);
        } else {
            self.lemma_allocate();
            self.lemma_insert(p, rec, self.next_inode + 1);
        }
        assert(t.wf());
        assert(t.entities.contains(rec)) by {
            assert(t.entities[p] == rec);
        }
        t.lemma_record(id, rec);
        assert forall|x: Seq<char>| x != id implies #[trigger] t.record(x) == self.record(x) by {
            t.lemma_position(x);
            self.lemma_position(x);
            if self.record(x) is Some {
                self.lemma_record(x, self.record(x)->0);
                t.lemma_record(x, self.record(x)->0);
            }
        }
        assert forall|e: EntityRecord| #[trigger]
            t.entities.contains(e) <==> e.remote_id == id && Some(e) == t.record(id) || e.remote_id
                != id && self.entities.contains(e) by {}
    }

    /// Putting a media item into an album keeps the cache valid, as long
    /// as both have a record.
    pub proof fn lemma_link(self, album_id: Seq<char>, media_item_id: Seq<char>)
        requires
            self.wf(),
            self.contains(album_id),
            self.contains(media_item_id),
        ensures
            self.link(album_id, media_item_id).wf(),
    {
        let t = self.link(album_id, media_item_id);
        assert(t.entities == self.entities);
        assert forall|a: Seq<char>, b: Seq<char>| #[trigger]
            t.memberships.contains((a, b)) implies t.contains(a) && t.contains(b) by {
            if (a, b) != (album_id, media_item_id) {
                assert(self.memberships.contains((a, b)));
            }
        }
    }

    /// Handing out an inode number keeps the cache valid, and no record
    /// holds the number.
    pub proof fn lemma_allocate(self)
        requires
            self.wf(),
        ensures
            self.allocate().wf(),
            !self.in_use(self.next_inode + 1),
    {
        let t = self.allocate();
        assert(t.entities == self.entities);
        assert forall|a: Seq<char>, b: Seq<char>| #[trigger]
            t.memberships.contains((a, b)) implies t.contains(a) && t.contains(b) by {
            assert(self.memberships.contains((a, b)));
        }
        if self.in_use(self.next_inode + 1) {
            let k = choose|k: int|
                0 <= k < self.entities.len() && (#[trigger] self.entities[k]).stable_id
                    == self.next_inode + 1;
            assert(self.entities[k].stable_id <= self.next_inode);
        }
    }

    /// Recording an item leaves every other item under its inode number.
    pub proof fn lemma_upsert_extends(
        self,
        id: Seq<char>,
        kind: MediaTypes,
        name: Seq<char>,
        at: int,
    )
        requires
            self.wf(),
        ensures
            self.upsert(id, kind, name, at).extends(self),
    {
        let after = self.upsert(id, kind, name, at);
        self.lemma_upsert(id, kind, name, at);
        assert forall|x: Seq<char>| #[trigger] self.contains(x) implies after.contains(x)
            && after.inode_for(x) == self.inode_for(x) by {
            self.lemma_position(x);
            if x != id {
                assert(after.record(x) == self.record(x));
            }
        }
    }

    /// Putting the media items of a roster into an album keeps the cache
    /// valid and every item under its inode number.
    pub proof fn lemma_link_members(self, album_id: Seq<char>, roster: Seq<Seq<char>>)
        requires
            self.wf(),
        ensures
            self.link_members(album_id, roster).wf(),
            self.link_members(album_id, roster).extends(self),
    {
        let after = self.link_members(album_id, roster);
        assert(after.entities == self.entities);
        assert forall|a: Seq<char>, b: Seq<char>| #[trigger]
            after.memberships.contains((a, b)) implies after.contains(a) && after.contains(b) by {
            if self.memberships.contains((a, b)) {
                assert(self.contains(a) && self.contains(b));
            }
        }
        assert forall|id: Seq<char>| #[trigger] self.contains(id) implies after.contains(id)
            && after.inode_for(id) == self.inode_for(id) by {
            assert(after.lower_bound(id) == self.lower_bound(id));
        }
    }

    /// Recording a remote listing keeps the cache valid and every item
    /// under its inode number.
    pub proof fn lemma_record_all(
        self,
        listing: Seq<(Seq<char>, Seq<char>)>,
        kind: MediaTypes,
        at: int,
    )
        requires
            self.wf(),
        ensures
            self.record_all(listing, kind, at).wf(),
            self.record_all(listing, kind, at).extends(self),
        decreases listing.len(),
    {
        if listing.len() > 0 {
            let before = self.record_all(listing.drop_last(), kind, at);
            let row = listing.last();
            self.lemma_record_all(listing.drop_last(), kind, at);
            before.lemma_upsert(row.0, kind, row.1, at);
            before.lemma_upsert_extends(row.0, kind, row.1, at);
            if before.contains(row.0) || before.next_inode < u64::MAX {
                before.upsert(row.0, kind, row.1, at).lemma_extends_transitive(before, self);
            }
        }
    }

    /// A cache that has grown out of one that has grown out of a third
    /// has grown out of the third.
    pub proof fn lemma_extends_transitive(self, middle: CacheView, before: CacheView)
        requires
            middle.extends(before),
            self.extends(middle),
        ensures
            self.extends(before),
    {
        assert forall|id: Seq<char>| #[trigger] before.contains(id) implies self.contains(id)
            && self.inode_for(id) == before.inode_for(id) by {
            assert(middle.contains(id));
        }
    }

    /// The staleness signal follows the oldest record. An empty cache has
    /// none. After two items of one kind were recorded at `t1 < t2`, it is
    /// `t1`; after the first of them was recorded again at `t3 > t2`, it
    /// is `t2`.
    pub proof fn lemma_staleness_follows_upserts(
        first: Upsert,
        second: Upsert,
        again: Upsert,
        kind: MediaTypes,
    )
        requires
            first.kind == kind,
            second.kind == kind,
            again.kind == kind,
            first.remote_id != second.remote_id,
            again.remote_id == first.remote_id,
            first.synced_at < second.synced_at < again.synced_at,
        ensures
            !CacheView::empty().has_kind(kind),
            CacheView::empty().replay(seq![first, second]).is_oldest(kind, first.synced_at),
            CacheView::empty().replay(seq![first, second, again]).is_oldest(
                kind,
                second.synced_at,
            ),
    {
        let s0 = CacheView::empty();
        let s1 = s0.upsert(first.remote_id, kind, first.display_name, first.synced_at);
        let s2 = s1.upsert(second.remote_id, kind, second.display_name, second.synced_at);
        let s3 = s2.upsert(again.remote_id, kind, again.display_name, again.synced_at);
        assert(s0.replay(seq![first, second]) == s2 && s0.replay(seq![first, second, again])
            == s3) by {
            let one = seq![first];
            let two = seq![first, second];
            let three = seq![first, second, again];
            assert(one.drop_last() =~= Seq::<Upsert>::empty());
            assert(two.drop_last() =~= one);
            assert(three.drop_last() =~= two);
            assert(s0.replay(Seq::<Upsert>::empty()) == s0);
            assert(s0.replay(one) == s1);
            assert(s0.replay(two) == s2);
        }
        s0.lemma_upsert(first.remote_id, kind, first.display_name, first.synced_at);
        s1.lemma_upsert(second.remote_id, kind, second.display_name, second.synced_at);
        s2.lemma_upsert(again.remote_id, kind, again.display_name, again.synced_at);
        let r1 = s1.record(first.remote_id)->0;
        let r2 = s2.record(second.remote_id)->0;
        let r3 = s3.record(first.remote_id)->0;
        assert(s1.entities.contains(r1));
        assert(s2.entities.contains(r1));
        assert(s2.entities.contains(r2));
        assert(s3.entities.contains(r2));
        assert(s3.entities.contains(r3));
        assert(s2.is_oldest(kind, first.synced_at)) by {
            let i = choose|i: int| 0 <= i < s2.entities.len() && s2.entities[i] == r1;
            assert(s2.entities[i].kind == kind && s2.entities[i].last_synced == first.synced_at);
            assert forall|k: int|
                0 <= k < s2.entities.len() && (#[trigger] s2.entities[k]).kind
                    == kind implies first.synced_at <= s2.entities[k].last_synced by {
                assert(s2.entities.contains(s2.entities[k]));
                if s2.entities[k].remote_id != second.remote_id {
                    assert(s1.entities.contains(s2.entities[k]));
                }
            }
        }
        assert(s3.is_oldest(kind, second.synced_at)) by {
            let i = choose|i: int| 0 <= i < s3.entities.len() && s3.entities[i] == r2;
            assert(s3.entities[i].kind == kind && s3.entities[i].last_synced == second.synced_at);
            assert forall|k: int|
                0 <= k < s3.entities.len() && (#[trigger] s3.entities[k]).kind
                    == kind implies second.synced_at <= s3.entities[k].last_synced by {
                let e = s3.entities[k];
                assert(s3.entities.contains(e));
                if e.remote_id != first.remote_id {
                    assert(s2.entities.contains(e));
                    if e.remote_id != second.remote_id {
                        assert(s1.entities.contains(e));
                    }
                }
            }
        }
    }

    /// Listings are ordered and complete: the listing of a kind holds
    /// every record of the kind and no other, each before those with a
    /// larger remote identifier.
    pub proof fn lemma_listing_ordered(self, kind: MediaTypes)
        requires
            self.wf(),
        ensures
            forall|e: EntityRecord| #[trigger]
                self.of_kind(kind).contains(e) <==> self.entities.contains(e) && e.kind == kind,
            forall|i: int, j: int|
                #![trigger self.of_kind(kind)[i], self.of_kind(kind)[j]]
                0 <= i < j < self.of_kind(kind).len() ==> text_less(
                    self.of_kind(kind)[i].remote_id,
                    self.of_kind(kind)[j].remote_id,
                ),
    {
        self.lemma_listing_prefix(kind, self.entities.len() as int);
        assert(self.entities.take(self.entities.len() as int) =~= self.entities);
        let listing = self.of_kind(kind);
        assert forall|e: EntityRecord| #[trigger]
            listing.contains(e) <==> self.entities.contains(e) && e.kind == kind by {
            if listing.contains(e) {
                let i = choose|i: int| 0 <= i < listing.len() && listing[i] == e;
                assert(self.among_first(self.entities.len() as int, kind, listing[i]));
                let k = choose|k: int|
                    0 <= k < self.entities.len() && #[trigger] self.entities[k] == e && e.kind
                        == kind;
                assert(self.entities.contains(e));
            }
            if self.entities.contains(e) && e.kind == kind {
                let k = choose|k: int| 0 <= k < self.entities.len() && self.entities[k] == e;
                assert(is_kind(kind)(self.entities[k]));
            }
        }
    }

    /// Whether `e` is one of the first `n` records and of the given kind.
    spec fn among_first(self, n: int, kind: MediaTypes, e: EntityRecord) -> bool {
        exists|k: int| 0 <= k < n && #[trigger] self.entities[k] == e && e.kind == kind
    }

    /// The listing of the first `n` records holds exactly those of them
    /// that are of the kind, in their order.
    proof fn lemma_listing_prefix(self, kind: MediaTypes, n: int)
        requires
            self.wf(),
            0 <= n <= self.entities.len(),
        ensures
            forall|i: int|
                0 <= i < self.entities.take(n).filter(is_kind(kind)).len() ==> self.among_first(
                    n,
                    kind,
                    #[trigger] self.entities.take(n).filter(is_kind(kind))[i],
                ),
            forall|k: int|
                0 <= k < n && is_kind(kind)(#[trigger] self.entities[k]) ==> self.entities.take(
                    n,
                ).filter(is_kind(kind)).contains(self.entities[k]),
            forall|i: int, j: int|
                #![trigger self.entities.take(n).filter(is_kind(kind))[i], self.entities.take(n).filter(is_kind(kind))[j]]
                0 <= i < j < self.entities.take(n).filter(is_kind(kind)).len() ==> text_less(
                    self.entities.take(n).filter(is_kind(kind))[i].remote_id,
                    self.entities.take(n).filter(is_kind(kind))[j].remote_id,
                ),
        decreases n,
    {
        let pred = is_kind(kind);
        let now = self.entities.take(n).filter(pred);
        if n == 0 {
            self.entities.take(0).lemma_filter_len(pred);
        } else {
            let before = self.entities.take(n - 1).filter(pred);
            let last = self.entities[n - 1];
            self.lemma_listing_prefix(kind, n - 1);
            lemma_filter_step(self.entities, pred, n - 1);
            assert(now == if pred(last) {
                before.push(last)
            } else {
                before
            });
            assert forall|i: int| 0 <= i < now.len() implies self.among_first(
                n,
                kind,
                #[trigger] now[i],
            ) by {
                if i < before.len() {
                    assert(now[i] == before[i]);
                    assert(self.among_first(n - 1, kind, before[i]));
                    let k = choose|k: int|
                        0 <= k < n - 1 && #[trigger] self.entities[k] == before[i]
                            && before[i].kind == kind;
                    assert(self.entities[k] == now[i]);
                } else {
                    assert(now[i] == last);
                    assert(self.entities[n - 1] == now[i] && last.kind == kind);
                }
            }
            assert forall|k: int| 0 <= k < n && pred(#[trigger] self.entities[k]) implies now.contains(
                self.entities[k],
            ) by {
                if k < n - 1 {
                    assert(before.contains(self.entities[k]));
                    let i = choose|i: int| 0 <= i < before.len() && before[i] == self.entities[k];
                    assert(now[i] == self.entities[k]);
                } else {
                    assert(now[now.len() - 1] == self.entities[k]);
                }
            }
            assert forall|i: int, j: int|
                #![trigger now[i], now[j]]
                0 <= i < j < now.len() implies text_less(now[i].remote_id, now[j].remote_id) by {
                if j < before.len() {
                    assert(now[i] == before[i] && now[j] == before[j]);
                } else {
                    assert(now[i] == before[i]);
                    assert(now[j] == last);
                    assert(self.among_first(n - 1, kind, before[i]));
                    let k = choose|k: int|
                        0 <= k < n - 1 && #[trigger] self.entities[k] == before[i]
                            && before[i].kind == kind;
                    assert(text_less(self.entities[k].remote_id, self.entities[n - 1].remote_id));
                }
            }
        }
    }

    /// Listings are determined by the records: two caches with the same
    /// records list the same, in the same order, whatever else differs, so
    /// a listing that is taken twice without a write in between comes out
    /// the same.
    pub proof fn lemma_listing_deterministic(self, other: CacheView, kind: MediaTypes)
        requires
            self.entities == other.entities,
        ensures
            self.of_kind(kind) == other.of_kind(kind),
    {
    }

    /// A row of calls keeps the cache valid and never moves the counter
    /// back.
    pub proof fn lemma_replay(self, calls: Seq<Upsert>)
        requires
            self.wf(),
        ensures
            self.replay(calls).wf(),
            self.next_inode <= self.replay(calls).next_inode,
        decreases calls.len(),
    {
        if calls.len() > 0 {
            let call = calls.last();
            let before = self.replay(calls.drop_last());
            self.lemma_replay(calls.drop_last());
            before.lemma_upsert(call.remote_id, call.kind, call.display_name, call.synced_at);
        }
    }

    /// The counter after the first `i` calls is not above the counter
    /// after the first `j`, where `i <= j`.
    pub proof fn lemma_replay_monotone(self, calls: Seq<Upsert>, i: int, j: int)
        requires
            self.wf(),
            0 <= i <= j <= calls.len(),
        ensures
            self.replay(calls.take(i)).next_inode <= self.replay(calls.take(j)).next_inode,
        decreases j - i,
    {
        if i < j {
            self.lemma_replay_monotone(calls, i, j - 1);
            let call = calls[j - 1];
            assert(calls.take(j).drop_last() =~= calls.take(j - 1));
            assert(calls.take(j).last() == call);
            let before = self.replay(calls.take(j - 1));
            self.lemma_replay(calls.take(j - 1));
            before.lemma_upsert(call.remote_id, call.kind, call.display_name, call.synced_at);
        }
    }

    /// Inode numbers only grow. In any row of calls, a call that meets a
    /// remote item for the first time returns a number above every number
    /// that an earlier call returned, and one that no record holds.
    pub proof fn lemma_stable_ids_increase(self, calls: Seq<Upsert>, i: int, j: int)
        requires
            self.wf(),
            0 <= i < j < calls.len(),
            !self.replay(calls.take(j)).contains(calls[j].remote_id),
        ensures
            self.returned(calls, i) < self.returned(calls, j),
            !self.replay(calls.take(j)).in_use(self.returned(calls, j)),
    {
        let at_i = self.replay(calls.take(i));
        let after_i = self.replay(calls.take(i + 1));
        let at_j = self.replay(calls.take(j));
        let call = calls[i];
        self.lemma_replay(calls.take(i));
        self.lemma_replay(calls.take(j));
        assert(calls.take(i + 1).drop_last() =~= calls.take(i));
        assert(calls.take(i + 1).last() == call);
        at_i.lemma_upsert(call.remote_id, call.kind, call.display_name, call.synced_at);
        at_i.lemma_position(call.remote_id);
        self.lemma_replay_monotone(calls, i + 1, j);
        at_j.lemma_position(calls[j].remote_id);
        assert(self.returned(calls, j) == at_j.next_inode + 1);
        assert(self.returned(calls, i) <= after_i.next_inode) by {
            if at_i.position(call.remote_id) is Some {
                let p = at_i.position(call.remote_id)->0;
                assert(at_i.entities[p].stable_id <= at_i.next_inode);
            }
        }
        if at_j.in_use(at_j.next_inode + 1) {
            let k = choose|k: int|
                0 <= k < at_j.entities.len() && (#[trigger] at_j.entities[k]).stable_id
                    == at_j.next_inode + 1;
            assert(at_j.entities[k].stable_id <= at_j.next_inode);
        }
    }

    /// Recording a known item again changes its name, kind and time and
    /// nothing else: it returns the inode number that the first call
    /// returned, and the item keeps that number.
    pub proof fn lemma_reupsert_keeps_stable_id(
        self,
        id: Seq<char>,
        kind1: MediaTypes,
        name1: Seq<char>,
        at1: int,
        kind2: MediaTypes,
        name2: Seq<char>,
        at2: int,
    )
        requires
            self.wf(),
        ensures
            ({
                let once = self.upsert(id, kind1, name1, at1);
                let twice = once.upsert(id, kind2, name2, at2);
                &&& once.inode_for(id) == self.inode_for(id)
                &&& twice.record(id) == Some(
                    EntityRecord {
                        remote_id: id,
                        kind: kind2,
                        display_name: name2,
                        stable_id: self.inode_for(id),
                        last_synced: at2,
                    },
                )
                &&& twice.next_inode == once.next_inode
                &&& twice.entities.len() == once.entities.len()
            }),
    {
        let once = self.upsert(id, kind1, name1, at1);
        self.lemma_upsert(id, kind1, name1, at1);
        once.lemma_upsert(id, kind2, name2, at2);
        once.lemma_position(id);
    }
}

/// Scanning one record further adds it to the selection if it is
/// selected, and nothing else.
pub proof fn lemma_filter_step(
    s: Seq<EntityRecord>,
    pred: spec_fn(EntityRecord) -> bool,
    i: int,
)
    requires
        0 <= i < s.len(),
    ensures
        s.take(i + 1).filter(pred) == (if pred(s[i]) {
            s.take(i).filter(pred).push(s[i])
        } else {
            s.take(i).filter(pred)
        }),
{
    s.lemma_take_succ_push(i);
    s.take(i).lemma_filter_push(s[i], pred);
}

/// Where none of the first `n` records is selected, their selection is
/// empty.
pub proof fn lemma_filter_none_upto(
    s: Seq<EntityRecord>,
    pred: spec_fn(EntityRecord) -> bool,
    n: int,
)
    requires
        0 <= n <= s.len(),
        forall|j: int| 0 <= j < n ==> !pred(#[trigger] s[j]),
    ensures
        s.take(n).filter(pred).len() == 0,
    decreases n,
{
    if n == 0 {
        s.take(0).lemma_filter_len(pred);
    } else {
        lemma_filter_none_upto(s, pred, n - 1);
        lemma_filter_step(s, pred, n - 1);
    }
}

/// The selection among the first `n` records starts with the first
/// record that is selected.
pub proof fn lemma_filter_first_upto(
    s: Seq<EntityRecord>,
    pred: spec_fn(EntityRecord) -> bool,
    i: int,
    n: int,
)
    requires
        0 <= i < n <= s.len(),
        pred(s[i]),
        forall|j: int| 0 <= j < i ==> !pred(#[trigger] s[j]),
    ensures
        first_of(s.take(n).filter(pred)) == Some(s[i]),
    decreases n,
{
    lemma_filter_step(s, pred, n - 1);
    if n == i + 1 {
        lemma_filter_none_upto(s, pred, i);
    } else {
        lemma_filter_first_upto(s, pred, i, n - 1);
    }
}

/// The first selected record is the first of the selection.
pub proof fn lemma_filter_first(s: Seq<EntityRecord>, pred: spec_fn(EntityRecord) -> bool, i: int)
    requires
        0 <= i < s.len(),
        pred(s[i]),
        forall|j: int| 0 <= j < i ==> !pred(#[trigger] s[j]),
    ensures
        first_of(s.filter(pred)) == Some(s[i]),
{
    lemma_filter_first_upto(s, pred, i, s.len() as int);
    assert(s.take(s.len() as int) =~= s);
}

/// Where no record is selected, the selection has no first record.
pub proof fn lemma_filter_nothing(s: Seq<EntityRecord>, pred: spec_fn(EntityRecord) -> bool)
    requires
        forall|j: int| 0 <= j < s.len() ==> !pred(#[trigger] s[j]),
    ensures
        first_of(s.filter(pred)) is None,
        s.filter(pred).len() == 0,
{
    lemma_filter_none_upto(s, pred, s.len() as int);
    assert(s.take(s.len() as int) =~= s);
}

} // verus!
