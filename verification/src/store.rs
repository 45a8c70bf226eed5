//! The local persistence layer: five record collections with upsert
//! semantics, time-gated reads and recency-ordered listings.
//!
//! The authoritative state is held in verified memory and every operation
//! is specified against it. A SQLite database mirrors the state: writes go
//! through best-effort, failures are swallowed (a lost write costs at most
//! a stale cache entry), and the rows found on disk are read back once
//! when a store is opened. Timestamps are plain integers supplied by the
//! caller; the store never moves its own clock backwards.

use vstd::prelude::*;
use vstd::seq_lib::*;

use rusqlite::Connection;

use crate::db::db_append_history;
use crate::db::db_clear_caches;
use crate::db::db_delete_bookmark;
use crate::db::db_init;
use crate::db::db_load_bookmarks;
use crate::db::db_load_entities;
use crate::db::db_load_history;
use crate::db::db_load_searches;
use crate::db::db_load_views;
use crate::db::db_open_at;
use crate::db::db_open_memory;
use crate::db::db_upsert_bookmark;
use crate::db::db_upsert_entity;
use crate::db::db_upsert_search;
use crate::db::db_upsert_view;
use crate::text::str_eq;

verus! {

/// One cached response, keyed by the query text that produced it.
pub struct CacheRecord {
    /// The normalized query text.
    pub key: String,
    /// The serialized payload, opaque to the store.
    pub payload: String,
    /// When the record was written.
    pub cached_at: i64,
}

impl View for CacheRecord {
    type V = (Seq<char>, Seq<char>, int);

    open spec fn view(&self) -> (Seq<char>, Seq<char>, int) {
        (self.key@, self.payload@, self.cached_at as int)
    }
}

/// One cached entity, keyed by its stable numeric id.
pub struct EntityRecord {
    /// The entity's stable numeric id.
    pub number: i64,
    /// The serialized payload, opaque to the store.
    pub payload: String,
    /// When the record was written.
    pub cached_at: i64,
}

impl View for EntityRecord {
    type V = (int, Seq<char>, int);

    open spec fn view(&self) -> (int, Seq<char>, int) {
        (self.number as int, self.payload@, self.cached_at as int)
    }
}

/// One appended search, never updated.
pub struct HistoryEntry {
    /// The query text as searched.
    pub query: String,
    /// When the search happened.
    pub searched_at: i64,
}

impl View for HistoryEntry {
    type V = (Seq<char>, int);

    open spec fn view(&self) -> (Seq<char>, int) {
        (self.query@, self.searched_at as int)
    }
}

/// The view ledger for one entity: when it was last viewed and how often.
pub struct ViewRecord {
    /// The entity's stable numeric id.
    pub number: i64,
    /// The time of the most recent view.
    pub viewed_at: i64,
    /// How many times the entity has been viewed.
    pub view_count: i64,
}

impl View for ViewRecord {
    type V = (int, int, int);

    open spec fn view(&self) -> (int, int, int) {
        (self.number as int, self.viewed_at as int, self.view_count as int)
    }
}

/// One bookmark, unique per entity, independent of cache expiry.
pub struct Bookmark {
    /// The entity's stable numeric id.
    pub number: i64,
    /// When the bookmark was last written.
    pub bookmarked_at: i64,
    /// Free-form notes, if any.
    pub notes: Option<String>,
}

impl View for Bookmark {
    type V = (int, int, Option<Seq<char>>);

    open spec fn view(&self) -> (int, int, Option<Seq<char>>) {
        (
            self.number as int,
            self.bookmarked_at as int,
            match self.notes {
                Some(ref s) => Some(s@),
                None => None,
            },
        )
    }
}

/// One row of the recently-viewed listing: a view-ledger record joined
/// with the cached payload of its entity.
pub struct RecentViewRow {
    /// The entity's stable numeric id.
    pub number: i64,
    /// The serialized payload cached for the entity.
    pub payload: String,
    /// How many times the entity has been viewed.
    pub view_count: i64,
    /// The time of the most recent view.
    pub viewed_at: i64,
}

impl View for RecentViewRow {
    type V = (int, Seq<char>, int, int);

    open spec fn view(&self) -> (int, Seq<char>, int, int) {
        (self.number as int, self.payload@, self.view_count as int, self.viewed_at as int)
    }
}

/// Counts of the five collections, saturated at `i32::MAX`.
#[derive(Debug, Clone, Copy, PartialEq, Eq, Structural)]
pub struct CacheStats {
    /// Records in the response cache.
    pub cached_searches: i32,
    /// Records in the entity cache.
    pub cached_sequences: i32,
    /// Entries in the search history.
    pub total_searches: i32,
    /// Entities in the view ledger.
    pub viewed_sequences: i32,
    /// Bookmarks.
    pub bookmarked_sequences: i32,
}

/// A collection length as the saturated 32-bit count `stats` reports.
pub open spec fn count_i32(n: nat) -> int {
    if n > i32::MAX {
        i32::MAX as int
    } else {
        n as int
    }
}

/// The larger of two times.
pub open spec fn max_i64(a: i64, b: i64) -> i64 {
    if a > b {
        a
    } else {
        b
    }
}

/// The first response-cache record for `key`: its payload and timestamp.
pub open spec fn lookup_search(sv: Seq<(Seq<char>, Seq<char>, int)>, key: Seq<char>) -> Option<
    (Seq<char>, int),
>
    decreases sv.len(),
{
    if sv.len() == 0 {
        None
    } else if sv[0].0 == key {
        Some((sv[0].1, sv[0].2))
    } else {
        lookup_search(sv.drop_first(), key)
    }
}

/// The first entity-cache record for `number`: its payload and timestamp.
pub open spec fn lookup_entity(ev: Seq<(int, Seq<char>, int)>, number: int) -> Option<
    (Seq<char>, int),
>
    decreases ev.len(),
{
    if ev.len() == 0 {
        None
    } else if ev[0].0 == number {
        Some((ev[0].1, ev[0].2))
    } else {
        lookup_entity(ev.drop_first(), number)
    }
}

/// The first view-ledger record for `number`: its timestamp and count.
pub open spec fn lookup_view(vv: Seq<(int, int, int)>, number: int) -> Option<(int, int)>
    decreases vv.len(),
{
    if vv.len() == 0 {
        None
    } else if vv[0].0 == number {
        Some((vv[0].1, vv[0].2))
    } else {
        lookup_view(vv.drop_first(), number)
    }
}

/// The first bookmark for `number`: its timestamp and notes.
pub open spec fn lookup_bookmark(bv: Seq<(int, int, Option<Seq<char>>)>, number: int) -> Option<
    (int, Option<Seq<char>>),
>
    decreases bv.len(),
{
    if bv.len() == 0 {
        None
    } else if bv[0].0 == number {
        Some((bv[0].1, bv[0].2))
    } else {
        lookup_bookmark(bv.drop_first(), number)
    }
}

/// A record is fresh at `now` under the staleness threshold `max_age`
/// when its age does not exceed the threshold. Expiry is evaluated only
/// at read time; stale records stay stored until overwritten.
pub open spec fn fresh_at(cached_at: int, max_age: int, now: int) -> bool {
    now - cached_at <= max_age
}

/// The response-cache records whose key is not `key`.
pub open spec fn others_cache(sv: Seq<(Seq<char>, Seq<char>, int)>, key: Seq<char>) -> Seq<
    (Seq<char>, Seq<char>, int),
> {
    sv.filter(|r: (Seq<char>, Seq<char>, int)| r.0 != key)
}

/// The entity-cache records whose id is not `number`.
pub open spec fn others_entities(ev: Seq<(int, Seq<char>, int)>, number: int) -> Seq<
    (int, Seq<char>, int),
> {
    ev.filter(|r: (int, Seq<char>, int)| r.0 != number)
}

/// The view-ledger records whose id is not `number`.
pub open spec fn others_views(vv: Seq<(int, int, int)>, number: int) -> Seq<(int, int, int)> {
    vv.filter(|r: (int, int, int)| r.0 != number)
}

/// The bookmarks whose id is not `number`.
pub open spec fn others_bookmarks(bv: Seq<(int, int, Option<Seq<char>>)>, number: int) -> Seq<
    (int, int, Option<Seq<char>>),
> {
    bv.filter(|r: (int, int, Option<Seq<char>>)| r.0 != number)
}

/// The response cache after an unconditional upsert: the new record in
/// front, every record under another key kept, any old record under the
/// same key gone.
pub open spec fn upsert_cache(
    sv: Seq<(Seq<char>, Seq<char>, int)>,
    key: Seq<char>,
    payload: Seq<char>,
    t: int,
) -> Seq<(Seq<char>, Seq<char>, int)> {
    seq![(key, payload, t)] + others_cache(sv, key)
}

/// The entity cache after an unconditional upsert, as `upsert_cache`.
pub open spec fn upsert_entities(
    ev: Seq<(int, Seq<char>, int)>,
    number: int,
    payload: Seq<char>,
    t: int,
) -> Seq<(int, Seq<char>, int)> {
    seq![(number, payload, t)] + others_entities(ev, number)
}

/// The count a view at time `t` gives `number`: one on the first view,
/// one more than before on every later view, saturating at `i64::MAX`.
pub open spec fn bumped_count(vv: Seq<(int, int, int)>, number: int) -> int {
    match lookup_view(vv, number) {
        None => 1,
        Some((_at, c)) => if c < i64::MAX {
            c + 1
        } else {
            c
        },
    }
}

/// The view ledger after recording a view of `number` at time `t`: its
/// record moves to the front with the bumped count and fresh timestamp;
/// nothing is ever deleted.
pub open spec fn bump_views(vv: Seq<(int, int, int)>, number: int, t: int) -> Seq<(int, int, int)> {
    seq![(number, t, bumped_count(vv, number))] + others_views(vv, number)
}

/// The bookmark set after an upsert of `number` at time `t`.
pub open spec fn upsert_bookmarks(
    bv: Seq<(int, int, Option<Seq<char>>)>,
    number: int,
    notes: Option<Seq<char>>,
    t: int,
) -> Seq<(int, int, Option<Seq<char>>)> {
    seq![(number, t, notes)] + others_bookmarks(bv, number)
}

/// The bookmark set after removing `number`.
pub open spec fn drop_bookmark(bv: Seq<(int, int, Option<Seq<char>>)>, number: int) -> Seq<
    (int, int, Option<Seq<char>>),
> {
    others_bookmarks(bv, number)
}

/// The history as read back: walking newest first, an entry is kept
/// exactly when its query text has not been seen yet, so each query
/// appears once, at its most recent time.
pub open spec fn dedup_history(h: Seq<(Seq<char>, int)>, seen: Set<Seq<char>>) -> Seq<
    (Seq<char>, int),
>
    decreases h.len(),
{
    if h.len() == 0 {
        Seq::empty()
    } else if seen.contains(h[0].0) {
        dedup_history(h.drop_first(), seen)
    } else {
        seq![h[0]] + dedup_history(h.drop_first(), seen.insert(h[0].0))
    }
}

/// The recently-viewed listing joined with the entity cache: the first
/// `limit` ledger records, newest first, each paired with its cached
/// payload; records whose entity has no cached payload are skipped.
pub open spec fn spec_recent_rows(
    vv: Seq<(int, int, int)>,
    ev: Seq<(int, Seq<char>, int)>,
    limit: int,
) -> Seq<(int, Seq<char>, int, int)>
    decreases vv.len(),
{
    if vv.len() == 0 || limit <= 0 {
        Seq::empty()
    } else {
        let rest = spec_recent_rows(vv.drop_first(), ev, limit - 1);
        match lookup_entity(ev, vv[0].0) {
            Some(pt) => seq![(vv[0].0, pt.0, vv[0].2, vv[0].1)] + rest,
            None => rest,
        }
    }
}

/// Joined listing rows paired with the caller's attempt to decode each
/// payload: rows whose payload failed to decode are dropped, so one
/// corrupt record never blanks the whole list.
pub open spec fn spec_resolved(
    rows: Seq<(int, Seq<char>, int, int)>,
    names: Seq<Option<Seq<char>>>,
) -> Seq<(int, Seq<char>, int, int)>
    decreases rows.len(),
{
    if rows.len() == 0 || names.len() == 0 {
        Seq::empty()
    } else {
        let rest = spec_resolved(rows.drop_first(), names.drop_first());
        match names[0] {
            Some(nm) => seq![(rows[0].0, nm, rows[0].2, rows[0].3)] + rest,
            None => rest,
        }
    }
}

/// The five collections plus the mirror connection and the store's own
/// clock, which never moves backwards.
pub struct LocalStore {
    /// The mirror database; writes to it are best effort.
    pub conn: Connection,
    /// The latest time the store has seen; at least every stored
    /// timestamp.
    pub clock: i64,
    /// The response cache, unique per query text.
    pub searches: Vec<CacheRecord>,
    /// The entity cache, unique per entity id.
    pub entities: Vec<EntityRecord>,
    /// The append-only search log, newest first.
    pub history: Vec<HistoryEntry>,
    /// The view ledger, unique per entity id, newest first.
    pub views: Vec<ViewRecord>,
    /// The bookmarks, unique per entity id, newest first.
    pub bookmarks: Vec<Bookmark>,
}

impl LocalStore {
    /// The response cache as (key, payload, written-at) triples.
    pub open spec fn searches_view(self) -> Seq<(Seq<char>, Seq<char>, int)> {
        self.searches@.map_values(|r: CacheRecord| r@)
    }

    /// The entity cache as (id, payload, written-at) triples.
    pub open spec fn entities_view(self) -> Seq<(int, Seq<char>, int)> {
        self.entities@.map_values(|r: EntityRecord| r@)
    }

    /// The search log as (query, searched-at) pairs, newest first.
    pub open spec fn history_view(self) -> Seq<(Seq<char>, int)> {
        self.history@.map_values(|r: HistoryEntry| r@)
    }

    /// The view ledger as (id, viewed-at, count) triples, newest first.
    pub open spec fn views_view(self) -> Seq<(int, int, int)> {
        self.views@.map_values(|r: ViewRecord| r@)
    }

    /// The bookmarks as (id, bookmarked-at, notes) triples, newest first.
    pub open spec fn bookmarks_view(self) -> Seq<(int, int, Option<Seq<char>>)> {
        self.bookmarks@.map_values(|r: Bookmark| r@)
    }

    /// Well-formedness: keyed collections hold at most one record per
    /// key, listed collections are ordered newest first, view counts are
    /// positive, and no stored timestamp is ahead of the clock.
    pub open spec fn wf(self) -> bool {
        let sv = self.searches_view();
        let ev = self.entities_view();
        let hv = self.history_view();
        let vv = self.views_view();
        let bv = self.bookmarks_view();
        &&& forall|i: int, j: int|
            #![trigger sv[i], sv[j]]
            0 <= i < j < sv.len() ==> sv[i].0 != sv[j].0
        &&& forall|i: int| #![trigger sv[i]] 0 <= i < sv.len() ==> sv[i].2 <= self.clock
        &&& forall|i: int, j: int|
            #![trigger ev[i], ev[j]]
            0 <= i < j < ev.len() ==> ev[i].0 != ev[j].0
        &&& forall|i: int| #![trigger ev[i]] 0 <= i < ev.len() ==> ev[i].2 <= self.clock
        &&& forall|i: int, j: int|
            #![trigger hv[i], hv[j]]
            0 <= i <= j < hv.len() ==> hv[i].1 >= hv[j].1
        &&& forall|i: int| #![trigger hv[i]] 0 <= i < hv.len() ==> hv[i].1 <= self.clock
        &&& forall|i: int, j: int|
            #![trigger vv[i], vv[j]]
            0 <= i < j < vv.len() ==> vv[i].0 != vv[j].0
        &&& forall|i: int, j: int|
            #![trigger vv[i], vv[j]]
            0 <= i <= j < vv.len() ==> vv[i].1 >= vv[j].1
        &&& forall|i: int| #![trigger vv[i]] 0 <= i < vv.len() ==> 1 <= vv[i].2
            && vv[i].1 <= self.clock
        &&& forall|i: int, j: int|
            #![trigger bv[i], bv[j]]
            0 <= i < j < bv.len() ==> bv[i].0 != bv[j].0
        &&& forall|i: int, j: int|
            #![trigger bv[i], bv[j]]
            0 <= i <= j < bv.len() ==> bv[i].1 >= bv[j].1
        &&& forall|i: int| #![trigger bv[i]] 0 <= i < bv.len() ==> bv[i].1 <= self.clock
    }

    /// Open a store backed by a fresh in-memory database, mainly for
    /// tests; `None` when the storage engine fails.
    pub fn open_in_memory() -> (r: Option<LocalStore>)
        ensures
            r matches Some(s) ==> s.wf(),
    {
        match db_open_memory() {
            Some(conn) => Self::from_connection(conn),
            None => None,
        }
    }

    /// Open a store backed by the database file at `path`, creating it
    /// when absent and reading back whatever rows it holds; `None` when
    /// the storage engine fails.
    pub fn open_at(path: &str) -> (r: Option<LocalStore>)
        ensures
            r matches Some(s) ==> s.wf(),
    {
        match db_open_at(path) {
            Some(conn) => Self::from_connection(conn),
            None => None,
        }
    }

    fn from_connection(conn: Connection) -> (r: Option<LocalStore>)
        ensures
            r matches Some(s) ==> s.wf(),
    {
        if !db_init(&conn) {
            return None;
        }
        let searches = load_searches(&conn);
        let entities = load_entities(&conn);
        let history = load_history(&conn);
        let views = load_views(&conn);
        let bookmarks = load_bookmarks(&conn);
        let mut clock: i64 = 0;
        let mut i: usize = 0;
        while i < searches.len()
            invariant
                forall|k: int| #![trigger searches@[k]] 0 <= k < i ==> searches@[k]@.2 <= clock,
                i <= searches@.len(),
                clock >= 0,
            decreases searches@.len() - i,
        {
            if searches[i].cached_at > clock {
                clock = searches[i].cached_at;
            }
            i = i + 1;
        }
        let mut i: usize = 0;
        while i < entities.len()
            invariant
                forall|k: int| #![trigger searches@[k]] 0 <= k < searches@.len() ==> searches@[k]@.2 <= clock,
                forall|k: int| #![trigger entities@[k]] 0 <= k < i ==> entities@[k]@.2 <= clock,
                i <= entities@.len(),
                clock >= 0,
            decreases entities@.len() - i,
        {
            if entities[i].cached_at > clock {
                clock = entities[i].cached_at;
            }
            i = i + 1;
        }
        let mut i: usize = 0;
        while i < history.len()
            invariant
                forall|k: int| #![trigger searches@[k]] 0 <= k < searches@.len() ==> searches@[k]@.2 <= clock,
                forall|k: int| #![trigger entities@[k]] 0 <= k < entities@.len() ==> entities@[k]@.2 <= clock,
                forall|k: int| #![trigger history@[k]] 0 <= k < i ==> history@[k]@.1 <= clock,
                i <= history@.len(),
                clock >= 0,
            decreases history@.len() - i,
        {
            if history[i].searched_at > clock {
                clock = history[i].searched_at;
            }
            i = i + 1;
        }
        let mut i: usize = 0;
        while i < views.len()
            invariant
                forall|k: int| #![trigger searches@[k]] 0 <= k < searches@.len() ==> searches@[k]@.2 <= clock,
                forall|k: int| #![trigger entities@[k]] 0 <= k < entities@.len() ==> entities@[k]@.2 <= clock,
                forall|k: int| #![trigger history@[k]] 0 <= k < history@.len() ==> history@[k]@.1 <= clock,
                forall|k: int| #![trigger views@[k]] 0 <= k < i ==> views@[k]@.1 <= clock,
                i <= views@.len(),
                clock >= 0,
            decreases views@.len() - i,
        {
            if views[i].viewed_at > clock {
                clock = views[i].viewed_at;
            }
            i = i + 1;
        }
        let mut i: usize = 0;
        while i < bookmarks.len()
            invariant
                forall|k: int| #![trigger searches@[k]] 0 <= k < searches@.len() ==> searches@[k]@.2 <= clock,
                forall|k: int| #![trigger entities@[k]] 0 <= k < entities@.len() ==> entities@[k]@.2 <= clock,
                forall|k: int| #![trigger history@[k]] 0 <= k < history@.len() ==> history@[k]@.1 <= clock,
                forall|k: int| #![trigger views@[k]] 0 <= k < views@.len() ==> views@[k]@.1 <= clock,
                forall|k: int| #![trigger bookmarks@[k]] 0 <= k < i ==> bookmarks@[k]@.1 <= clock,
                i <= bookmarks@.len(),
                clock >= 0,
            decreases bookmarks@.len() - i,
        {
            if bookmarks[i].bookmarked_at > clock {
                clock = bookmarks[i].bookmarked_at;
            }
            i = i + 1;
        }
        let store = LocalStore { conn, clock, searches, entities, history, views, bookmarks };
        Some(store)
    }
}

/// Skipping a key-free prefix does not change a response-cache lookup.
pub proof fn lemma_lookup_search_skip(sv: Seq<(Seq<char>, Seq<char>, int)>, key: Seq<char>, i: int)
    requires
        0 <= i <= sv.len(),
        forall|j: int| #![trigger sv[j]] 0 <= j < i ==> sv[j].0 != key,
    ensures
        lookup_search(sv, key) == lookup_search(sv.skip(i), key),
    decreases i,
{
    if i == 0 {
        assert(sv.skip(0) =~= sv);
    } else {
        lemma_lookup_search_skip(sv, key, i - 1);
        assert(sv.skip(i - 1).drop_first() =~= sv.skip(i));
    }
}

/// Skipping an id-free prefix does not change an entity-cache lookup.
pub proof fn lemma_lookup_entity_skip(ev: Seq<(int, Seq<char>, int)>, number: int, i: int)
    requires
        0 <= i <= ev.len(),
        forall|j: int| #![trigger ev[j]] 0 <= j < i ==> ev[j].0 != number,
    ensures
        lookup_entity(ev, number) == lookup_entity(ev.skip(i), number),
    decreases i,
{
    if i == 0 {
        assert(ev.skip(0) =~= ev);
    } else {
        lemma_lookup_entity_skip(ev, number, i - 1);
        assert(ev.skip(i - 1).drop_first() =~= ev.skip(i));
    }
}

/// Skipping an id-free prefix does not change a view-ledger lookup.
pub proof fn lemma_lookup_view_skip(vv: Seq<(int, int, int)>, number: int, i: int)
    requires
        0 <= i <= vv.len(),
        forall|j: int| #![trigger vv[j]] 0 <= j < i ==> vv[j].0 != number,
    ensures
        lookup_view(vv, number) == lookup_view(vv.skip(i), number),
    decreases i,
{
    if i == 0 {
        assert(vv.skip(0) =~= vv);
    } else {
        lemma_lookup_view_skip(vv, number, i - 1);
        assert(vv.skip(i - 1).drop_first() =~= vv.skip(i));
    }
}

/// Skipping an id-free prefix does not change a bookmark lookup.
pub proof fn lemma_lookup_bookmark_skip(
    bv: Seq<(int, int, Option<Seq<char>>)>,
    number: int,
    i: int,
)
    requires
        0 <= i <= bv.len(),
        forall|j: int| #![trigger bv[j]] 0 <= j < i ==> bv[j].0 != number,
    ensures
        lookup_bookmark(bv, number) == lookup_bookmark(bv.skip(i), number),
    decreases i,
{
    if i == 0 {
        assert(bv.skip(0) =~= bv);
    } else {
        lemma_lookup_bookmark_skip(bv, number, i - 1);
        assert(bv.skip(i - 1).drop_first() =~= bv.skip(i));
    }
}

/// Response-cache rows as admitted from disk: walked in order, a row is
/// kept exactly when its key has not been seen yet, so each key appears
/// once and the first occurrence wins.
pub open spec fn dedup_cache_rows(
    rows: Seq<(Seq<char>, Seq<char>, int)>,
    seen: Set<Seq<char>>,
) -> Seq<(Seq<char>, Seq<char>, int)>
    decreases rows.len(),
{
    if rows.len() == 0 {
        Seq::empty()
    } else if seen.contains(rows[0].0) {
        dedup_cache_rows(rows.drop_first(), seen)
    } else {
        seq![rows[0]] + dedup_cache_rows(rows.drop_first(), seen.insert(rows[0].0))
    }
}

/// Entity-cache rows as admitted from disk, as `dedup_cache_rows`.
pub open spec fn dedup_entity_rows(rows: Seq<(int, Seq<char>, int)>, seen: Set<int>) -> Seq<
    (int, Seq<char>, int),
>
    decreases rows.len(),
{
    if rows.len() == 0 {
        Seq::empty()
    } else if seen.contains(rows[0].0) {
        dedup_entity_rows(rows.drop_first(), seen)
    } else {
        seq![rows[0]] + dedup_entity_rows(rows.drop_first(), seen.insert(rows[0].0))
    }
}

/// View-ledger rows as admitted from disk: first occurrence per id wins,
/// and a non-positive count is clamped to one.
pub open spec fn dedup_view_rows(rows: Seq<(int, int, int)>, seen: Set<int>) -> Seq<
    (int, int, int),
>
    decreases rows.len(),
{
    if rows.len() == 0 {
        Seq::empty()
    } else if seen.contains(rows[0].0) {
        dedup_view_rows(rows.drop_first(), seen)
    } else {
        let kept = (
            rows[0].0,
            rows[0].1,
            if rows[0].2 < 1 {
                1int
            } else {
                rows[0].2
            },
        );
        seq![kept] + dedup_view_rows(rows.drop_first(), seen.insert(rows[0].0))
    }
}

/// Bookmark rows as admitted from disk, as `dedup_cache_rows`.
pub open spec fn dedup_bookmark_rows(
    rows: Seq<(int, int, Option<Seq<char>>)>,
    seen: Set<int>,
) -> Seq<(int, int, Option<Seq<char>>)>
    decreases rows.len(),
{
    if rows.len() == 0 {
        Seq::empty()
    } else if seen.contains(rows[0].0) {
        dedup_bookmark_rows(rows.drop_first(), seen)
    } else {
        seq![rows[0]] + dedup_bookmark_rows(rows.drop_first(), seen.insert(rows[0].0))
    }
}

/// Whether some loaded record already carries the key `key`.
fn searches_have_key(v: &Vec<CacheRecord>, key: &str) -> (r: bool)
    ensures
        r == exists|k: int| 0 <= k < v@.len() && (#[trigger] v@[k])@.0 == key@,
{
    let n = v.len();
    let mut i: usize = 0;
    while i < n
        invariant
            n == v@.len(),
            i <= n,
            forall|k: int| 0 <= k < i ==> (#[trigger] v@[k])@.0 != key@,
        decreases n - i,
    {
        if str_eq(v[i].key.as_str(), key) {
            return true;
        }
        i = i + 1;
    }
    false
}

/// Whether some loaded record already carries the id `number`.
fn entities_have_number(v: &Vec<EntityRecord>, number: i64) -> (r: bool)
    ensures
        r == exists|k: int| 0 <= k < v@.len() && (#[trigger] v@[k])@.0 == number as int,
{
    let n = v.len();
    let mut i: usize = 0;
    while i < n
        invariant
            n == v@.len(),
            i <= n,
            forall|k: int| 0 <= k < i ==> (#[trigger] v@[k])@.0 != number as int,
        decreases n - i,
    {
        if v[i].number == number {
            return true;
        }
        i = i + 1;
    }
    false
}

/// Whether some loaded record already carries the id `number`.
fn views_have_number(v: &Vec<ViewRecord>, number: i64) -> (r: bool)
    ensures
        r == exists|k: int| 0 <= k < v@.len() && (#[trigger] v@[k])@.0 == number as int,
{
    let n = v.len();
    let mut i: usize = 0;
    while i < n
        invariant
            n == v@.len(),
            i <= n,
            forall|k: int| 0 <= k < i ==> (#[trigger] v@[k])@.0 != number as int,
        decreases n - i,
    {
        if v[i].number == number {
            return true;
        }
        i = i + 1;
    }
    false
}

/// Whether some loaded bookmark already carries the id `number`.
fn bookmarks_have_number(v: &Vec<Bookmark>, number: i64) -> (r: bool)
    ensures
        r == exists|k: int| 0 <= k < v@.len() && (#[trigger] v@[k])@.0 == number as int,
{
    let n = v.len();
    let mut i: usize = 0;
    while i < n
        invariant
            n == v@.len(),
            i <= n,
            forall|k: int| 0 <= k < i ==> (#[trigger] v@[k])@.0 != number as int,
        decreases n - i,
    {
        if v[i].number == number {
            return true;
        }
        i = i + 1;
    }
    false
}

fn load_searches(conn: &Connection) -> (r: Vec<CacheRecord>)
    ensures
        forall|i: int, j: int|
            #![trigger r@[i], r@[j]]
            0 <= i < j < r@.len() ==> r@[i]@.0 != r@[j]@.0,
{
    let rows = db_load_searches(conn);
    ingest_searches(&rows)
}

/// Build the response-cache records from raw disk rows: exactly the
/// rows `dedup_cache_rows` admits, so keys end up pairwise distinct
/// whatever the rows hold.
pub fn ingest_searches(rows: &Vec<(String, String, i64)>) -> (r: Vec<CacheRecord>)
    ensures
        r@.map_values(|x: CacheRecord| x@) == dedup_cache_rows(
            rows@.map_values(|t: (String, String, i64)| (t.0@, t.1@, t.2 as int)),
            Set::empty(),
        ),
        forall|i: int, j: int|
            #![trigger r@[i], r@[j]]
            0 <= i < j < r@.len() ==> r@[i]@.0 != r@[j]@.0,
{
    let ghost rv = rows@.map_values(|t: (String, String, i64)| (t.0@, t.1@, t.2 as int));
    let n = rows.len();
    let mut out: Vec<CacheRecord> = Vec::new();
    let ghost mut seen: Set<Seq<char>> = Set::empty();
    let mut i: usize = 0;
    proof {
        assert(rv.skip(0) =~= rv);
        assert(out@.map_values(|x: CacheRecord| x@) + dedup_cache_rows(rv, Set::empty())
            =~= dedup_cache_rows(rv, Set::empty()));
    }
    while i < n
        invariant
            n == rv.len(),
            rv == rows@.map_values(|t: (String, String, i64)| (t.0@, t.1@, t.2 as int)),
            i <= n,
            out@.map_values(|x: CacheRecord| x@) + dedup_cache_rows(rv.skip(i as int), seen)
                == dedup_cache_rows(rv, Set::empty()),
            forall|x: Seq<char>|
                #![trigger seen.contains(x)]
                seen.contains(x) <==> exists|k: int|
                    0 <= k < out@.len() && (#[trigger] out@[k])@.0 == x,
            forall|i2: int, j2: int|
                #![trigger out@[i2], out@[j2]]
                0 <= i2 < j2 < out@.len() ==> out@[i2]@.0 != out@[j2]@.0,
        decreases n - i,
    {
        let ghost out0 = out@.map_values(|x: CacheRecord| x@);
        let ghost osnap = out@;
        let ghost seen0 = seen;
        let row = &rows[i];
        let dup = searches_have_key(&out, row.0.as_str());
        proof {
            assert(rv.skip(i as int)[0] == rv[i as int]);
            assert(rv.skip(i as int).drop_first() =~= rv.skip(i + 1));
            assert(dup == seen.contains(rv[i as int].0));
        }
        if !dup {
            out.push(CacheRecord { key: row.0.clone(), payload: row.1.clone(), cached_at: row.2 });
            proof {
                seen = seen.insert(rv[i as int].0);
                assert(out@.map_values(|x: CacheRecord| x@) =~= out0.push(rv[i as int]));
                assert(dedup_cache_rows(rv.skip(i as int), seen0) == seq![rv[i as int]]
                    + dedup_cache_rows(rv.skip(i + 1), seen));
                assert(out0.push(rv[i as int]) + dedup_cache_rows(rv.skip(i + 1), seen) =~= out0
                    + dedup_cache_rows(rv.skip(i as int), seen0));
                assert forall|x: Seq<char>| #![trigger seen.contains(x)]
                    seen.contains(x) <==> exists|k: int|
                        0 <= k < out@.len() && (#[trigger] out@[k])@.0 == x by {
                    if seen.contains(x) {
                        if x == rv[i as int].0 {
                            assert(out@[out@.len() - 1]@.0 == x);
                        } else {
                            assert(seen0.contains(x));
                            let k = choose|k: int|
                                0 <= k < osnap.len() && (#[trigger] osnap[k])@.0 == x;
                            assert(out@[k]@.0 == x);
                        }
                    }
                    if exists|k: int| 0 <= k < out@.len() && (#[trigger] out@[k])@.0 == x {
                        let k = choose|k: int| 0 <= k < out@.len() && (#[trigger] out@[k])@.0 == x;
                        if k < osnap.len() {
                            assert(osnap[k]@.0 == x);
                            assert(seen0.contains(x));
                        } else {
                            assert(out@[k]@.0 == rv[i as int].0);
                        }
                    }
                }
            }
        }
        i = i + 1;
    }
    proof {
        assert(rv.skip(n as int) =~= Seq::<(Seq<char>, Seq<char>, int)>::empty());
        assert(dedup_cache_rows(rv.skip(n as int), seen) =~= Seq::<
            (Seq<char>, Seq<char>, int),
        >::empty());
        assert(out@.map_values(|x: CacheRecord| x@) =~= dedup_cache_rows(rv, Set::empty()));
    }
    out
}

fn load_entities(conn: &Connection) -> (r: Vec<EntityRecord>)
    ensures
        forall|i: int, j: int|
            #![trigger r@[i], r@[j]]
            0 <= i < j < r@.len() ==> r@[i]@.0 != r@[j]@.0,
{
    let rows = db_load_entities(conn);
    ingest_entities(&rows)
}

/// Build the entity-cache records from raw disk rows: exactly the rows
/// `dedup_entity_rows` admits, so ids end up pairwise distinct whatever
/// the rows hold.
pub fn ingest_entities(rows: &Vec<(i64, String, i64)>) -> (r: Vec<EntityRecord>)
    ensures
        r@.map_values(|x: EntityRecord| x@) == dedup_entity_rows(
            rows@.map_values(|t: (i64, String, i64)| (t.0 as int, t.1@, t.2 as int)),
            Set::empty(),
        ),
        forall|i: int, j: int|
            #![trigger r@[i], r@[j]]
            0 <= i < j < r@.len() ==> r@[i]@.0 != r@[j]@.0,
{
    let ghost rv = rows@.map_values(|t: (i64, String, i64)| (t.0 as int, t.1@, t.2 as int));
    let n = rows.len();
    let mut out: Vec<EntityRecord> = Vec::new();
    let ghost mut seen: Set<int> = Set::empty();
    let mut i: usize = 0;
    proof {
        assert(rv.skip(0) =~= rv);
        assert(out@.map_values(|x: EntityRecord| x@) + dedup_entity_rows(rv, Set::empty())
            =~= dedup_entity_rows(rv, Set::empty()));
    }
    while i < n
        invariant
            n == rv.len(),
            rv == rows@.map_values(|t: (i64, String, i64)| (t.0 as int, t.1@, t.2 as int)),
            i <= n,
            out@.map_values(|x: EntityRecord| x@) + dedup_entity_rows(rv.skip(i as int), seen)
                == dedup_entity_rows(rv, Set::empty()),
            forall|x: int|
                #![trigger seen.contains(x)]
                seen.contains(x) <==> exists|k: int|
                    0 <= k < out@.len() && (#[trigger] out@[k])@.0 == x,
            forall|i2: int, j2: int|
                #![trigger out@[i2], out@[j2]]
                0 <= i2 < j2 < out@.len() ==> out@[i2]@.0 != out@[j2]@.0,
        decreases n - i,
    {
        let ghost out0 = out@.map_values(|x: EntityRecord| x@);
        let ghost osnap = out@;
        let ghost seen0 = seen;
        let row = &rows[i];
        let dup = entities_have_number(&out, row.0);
        proof {
            assert(rv.skip(i as int)[0] == rv[i as int]);
            assert(rv.skip(i as int).drop_first() =~= rv.skip(i + 1));
            assert(dup == seen.contains(rv[i as int].0));
        }
        if !dup {
            out.push(EntityRecord { number: row.0, payload: row.1.clone(), cached_at: row.2 });
            proof {
                seen = seen.insert(rv[i as int].0);
                assert(out@.map_values(|x: EntityRecord| x@) =~= out0.push(rv[i as int]));
                assert(dedup_entity_rows(rv.skip(i as int), seen0) == seq![rv[i as int]]
                    + dedup_entity_rows(rv.skip(i + 1), seen));
                assert(out0.push(rv[i as int]) + dedup_entity_rows(rv.skip(i + 1), seen) =~= out0
                    + dedup_entity_rows(rv.skip(i as int), seen0));
                assert forall|x: int| #![trigger seen.contains(x)]
                    seen.contains(x) <==> exists|k: int|
                        0 <= k < out@.len() && (#[trigger] out@[k])@.0 == x by {
                    if seen.contains(x) {
                        if x == rv[i as int].0 {
                            assert(out@[out@.len() - 1]@.0 == x);
                        } else {
                            assert(seen0.contains(x));
                            let k = choose|k: int|
                                0 <= k < osnap.len() && (#[trigger] osnap[k])@.0 == x;
                            assert(out@[k]@.0 == x);
                        }
                    }
                    if exists|k: int| 0 <= k < out@.len() && (#[trigger] out@[k])@.0 == x {
                        let k = choose|k: int| 0 <= k < out@.len() && (#[trigger] out@[k])@.0 == x;
                        if k < osnap.len() {
                            assert(osnap[k]@.0 == x);
                            assert(seen0.contains(x));
                        } else {
                            assert(out@[k]@.0 == rv[i as int].0);
                        }
                    }
                }
            }
        }
        i = i + 1;
    }
    proof {
        assert(rv.skip(n as int) =~= Seq::<(int, Seq<char>, int)>::empty());
        assert(dedup_entity_rows(rv.skip(n as int), seen) =~= Seq::<(int, Seq<char>, int)>::empty());
        assert(out@.map_values(|x: EntityRecord| x@) =~= dedup_entity_rows(rv, Set::empty()));
    }
    out
}

fn load_history(conn: &Connection) -> (r: Vec<HistoryEntry>)
    ensures
        forall|i: int, j: int|
            #![trigger r@[i], r@[j]]
            0 <= i <= j < r@.len() ==> r@[i]@.1 >= r@[j]@.1,
{
    let rows = db_load_history(conn);
    let mut out: Vec<HistoryEntry> = Vec::new();
    let mut i: usize = 0;
    while i < rows.len()
        invariant
            i <= rows@.len(),
            out@.len() == i,
            forall|k: int| #![trigger out@[k]] 0 <= k < i ==> out@[k]@.1 == rows@[k].1 as int,
            forall|i2: int, j2: int|
                #![trigger rows@[i2], rows@[j2]]
                0 <= i2 <= j2 < rows@.len() ==> rows@[i2].1 >= rows@[j2].1,
        decreases rows@.len() - i,
    {
        let row = &rows[i];
        out.push(HistoryEntry { query: row.0.clone(), searched_at: row.1 });
        i = i + 1;
    }
    out
}

fn load_views(conn: &Connection) -> (r: Vec<ViewRecord>)
    ensures
        forall|i: int, j: int|
            #![trigger r@[i], r@[j]]
            0 <= i < j < r@.len() ==> r@[i]@.0 != r@[j]@.0,
        forall|i: int, j: int|
            #![trigger r@[i], r@[j]]
            0 <= i <= j < r@.len() ==> r@[i]@.1 >= r@[j]@.1,
        forall|i: int| #![trigger r@[i]] 0 <= i < r@.len() ==> r@[i]@.2 >= 1,
{
    let rows = db_load_views(conn);
    ingest_views(&rows)
}

/// Build the view ledger from raw disk rows: exactly the rows
/// `dedup_view_rows` admits, so ids end up pairwise distinct and counts
/// positive whatever the rows hold; rows that come in sorted newest
/// first stay so.
pub fn ingest_views(rows: &Vec<(i64, i64, i64)>) -> (r: Vec<ViewRecord>)
    ensures
        r@.map_values(|x: ViewRecord| x@) == dedup_view_rows(
            rows@.map_values(|t: (i64, i64, i64)| (t.0 as int, t.1 as int, t.2 as int)),
            Set::empty(),
        ),
        forall|i: int, j: int|
            #![trigger r@[i], r@[j]]
            0 <= i < j < r@.len() ==> r@[i]@.0 != r@[j]@.0,
        forall|i: int| #![trigger r@[i]] 0 <= i < r@.len() ==> r@[i]@.2 >= 1,
        (forall|i: int, j: int|
            #![trigger rows@[i], rows@[j]]
            0 <= i <= j < rows@.len() ==> rows@[i].1 >= rows@[j].1) ==> forall|i: int, j: int|
            #![trigger r@[i], r@[j]]
            0 <= i <= j < r@.len() ==> r@[i]@.1 >= r@[j]@.1,
{
    let ghost rv = rows@.map_values(|t: (i64, i64, i64)| (t.0 as int, t.1 as int, t.2 as int));
    let ghost sorted_in: bool = forall|i: int, j: int|
        #![trigger rows@[i], rows@[j]]
        0 <= i <= j < rows@.len() ==> rows@[i].1 >= rows@[j].1;
    let n = rows.len();
    let mut out: Vec<ViewRecord> = Vec::new();
    let ghost mut seen: Set<int> = Set::empty();
    let mut i: usize = 0;
    proof {
        assert(rv.skip(0) =~= rv);
        assert(out@.map_values(|x: ViewRecord| x@) + dedup_view_rows(rv, Set::empty())
            =~= dedup_view_rows(rv, Set::empty()));
    }
    while i < n
        invariant
            n == rv.len(),
            n == rows@.len(),
            rv == rows@.map_values(|t: (i64, i64, i64)| (t.0 as int, t.1 as int, t.2 as int)),
            sorted_in == (forall|i2: int, j2: int|
                #![trigger rows@[i2], rows@[j2]]
                0 <= i2 <= j2 < rows@.len() ==> rows@[i2].1 >= rows@[j2].1),
            i <= n,
            out@.map_values(|x: ViewRecord| x@) + dedup_view_rows(rv.skip(i as int), seen)
                == dedup_view_rows(rv, Set::empty()),
            forall|x: int|
                #![trigger seen.contains(x)]
                seen.contains(x) <==> exists|k: int|
                    0 <= k < out@.len() && (#[trigger] out@[k])@.0 == x,
            forall|i2: int, j2: int|
                #![trigger out@[i2], out@[j2]]
                0 <= i2 < j2 < out@.len() ==> out@[i2]@.0 != out@[j2]@.0,
            forall|k: int| #![trigger out@[k]] 0 <= k < out@.len() ==> out@[k]@.2 >= 1,
            sorted_in ==> forall|i2: int, j2: int|
                #![trigger out@[i2], out@[j2]]
                0 <= i2 <= j2 < out@.len() ==> out@[i2]@.1 >= out@[j2]@.1,
            sorted_in ==> forall|k: int, j: int|
                #![trigger out@[k], rows@[j]]
                0 <= k < out@.len() && i <= j < rows@.len() ==> out@[k]@.1 >= rows@[j].1,
        decreases n - i,
    {
        let ghost out0 = out@.map_values(|x: ViewRecord| x@);
        let ghost osnap = out@;
        let ghost seen0 = seen;
        let row = &rows[i];
        let dup = views_have_number(&out, row.0);
        proof {
            assert(rv.skip(i as int)[0] == rv[i as int]);
            assert(rv.skip(i as int).drop_first() =~= rv.skip(i + 1));
            assert(dup == seen.contains(rv[i as int].0));
        }
        if !dup {
            let count = if row.2 < 1 {
                1
            } else {
                row.2
            };
            out.push(ViewRecord { number: row.0, viewed_at: row.1, view_count: count });
            proof {
                seen = seen.insert(rv[i as int].0);
                let kept = (
                    rv[i as int].0,
                    rv[i as int].1,
                    if rv[i as int].2 < 1 {
                        1int
                    } else {
                        rv[i as int].2
                    },
                );
                assert(out@.map_values(|x: ViewRecord| x@) =~= out0.push(kept));
                assert(dedup_view_rows(rv.skip(i as int), seen0) == seq![kept] + dedup_view_rows(
                    rv.skip(i + 1),
                    seen,
                ));
                assert(out0.push(kept) + dedup_view_rows(rv.skip(i + 1), seen) =~= out0
                    + dedup_view_rows(rv.skip(i as int), seen0));
                assert forall|x: int| #![trigger seen.contains(x)]
                    seen.contains(x) <==> exists|k: int|
                        0 <= k < out@.len() && (#[trigger] out@[k])@.0 == x by {
                    if seen.contains(x) {
                        if x == rv[i as int].0 {
                            assert(out@[out@.len() - 1]@.0 == x);
                        } else {
                            assert(seen0.contains(x));
                            let k = choose|k: int|
                                0 <= k < osnap.len() && (#[trigger] osnap[k])@.0 == x;
                            assert(out@[k]@.0 == x);
                        }
                    }
                    if exists|k: int| 0 <= k < out@.len() && (#[trigger] out@[k])@.0 == x {
                        let k = choose|k: int| 0 <= k < out@.len() && (#[trigger] out@[k])@.0 == x;
                        if k < osnap.len() {
                            assert(osnap[k]@.0 == x);
                            assert(seen0.contains(x));
                        } else {
                            assert(out@[k]@.0 == rv[i as int].0);
                        }
                    }
                }
            }
        }
        i = i + 1;
    }
    proof {
        assert(rv.skip(n as int) =~= Seq::<(int, int, int)>::empty());
        assert(dedup_view_rows(rv.skip(n as int), seen) =~= Seq::<(int, int, int)>::empty());
        assert(out@.map_values(|x: ViewRecord| x@) =~= dedup_view_rows(rv, Set::empty()));
    }
    out
}

fn load_bookmarks(conn: &Connection) -> (r: Vec<Bookmark>)
    ensures
        forall|i: int, j: int|
            #![trigger r@[i], r@[j]]
            0 <= i < j < r@.len() ==> r@[i]@.0 != r@[j]@.0,
        forall|i: int, j: int|
            #![trigger r@[i], r@[j]]
            0 <= i <= j < r@.len() ==> r@[i]@.1 >= r@[j]@.1,
{
    let rows = db_load_bookmarks(conn);
    ingest_bookmarks(&rows)
}

/// Build the bookmarks from raw disk rows: exactly the rows
/// `dedup_bookmark_rows` admits, so ids end up pairwise distinct
/// whatever the rows hold; rows that come in sorted newest first stay
/// so.
pub fn ingest_bookmarks(rows: &Vec<(i64, i64, Option<String>)>) -> (r: Vec<Bookmark>)
    ensures
        r@.map_values(|x: Bookmark| x@) == dedup_bookmark_rows(
            rows@.map_values(
                |t: (i64, i64, Option<String>)|
                    (
                        t.0 as int,
                        t.1 as int,
                        match t.2 {
                            Some(s) => Some(s@),
                            None => None::<Seq<char>>,
                        },
                    ),
            ),
            Set::empty(),
        ),
        forall|i: int, j: int|
            #![trigger r@[i], r@[j]]
            0 <= i < j < r@.len() ==> r@[i]@.0 != r@[j]@.0,
        (forall|i: int, j: int|
            #![trigger rows@[i], rows@[j]]
            0 <= i <= j < rows@.len() ==> rows@[i].1 >= rows@[j].1) ==> forall|i: int, j: int|
            #![trigger r@[i], r@[j]]
            0 <= i <= j < r@.len() ==> r@[i]@.1 >= r@[j]@.1,
{
    let ghost rv = rows@.map_values(
        |t: (i64, i64, Option<String>)|
            (
                t.0 as int,
                t.1 as int,
                match t.2 {
                    Some(s) => Some(s@),
                    None => None::<Seq<char>>,
                },
            ),
    );
    let ghost sorted_in: bool = forall|i: int, j: int|
        #![trigger rows@[i], rows@[j]]
        0 <= i <= j < rows@.len() ==> rows@[i].1 >= rows@[j].1;
    let n = rows.len();
    let mut out: Vec<Bookmark> = Vec::new();
    let ghost mut seen: Set<int> = Set::empty();
    let mut i: usize = 0;
    proof {
        assert(rv.skip(0) =~= rv);
        assert(out@.map_values(|x: Bookmark| x@) + dedup_bookmark_rows(rv, Set::empty())
            =~= dedup_bookmark_rows(rv, Set::empty()));
    }
    while i < n
        invariant
            n == rv.len(),
            n == rows@.len(),
            rv == rows@.map_values(
                |t: (i64, i64, Option<String>)|
                    (
                        t.0 as int,
                        t.1 as int,
                        match t.2 {
                            Some(s) => Some(s@),
                            None => None::<Seq<char>>,
                        },
                    ),
            ),
            sorted_in == (forall|i2: int, j2: int|
                #![trigger rows@[i2], rows@[j2]]
                0 <= i2 <= j2 < rows@.len() ==> rows@[i2].1 >= rows@[j2].1),
            i <= n,
            out@.map_values(|x: Bookmark| x@) + dedup_bookmark_rows(rv.skip(i as int), seen)
                == dedup_bookmark_rows(rv, Set::empty()),
            forall|x: int|
                #![trigger seen.contains(x)]
                seen.contains(x) <==> exists|k: int|
                    0 <= k < out@.len() && (#[trigger] out@[k])@.0 == x,
            forall|i2: int, j2: int|
                #![trigger out@[i2], out@[j2]]
                0 <= i2 < j2 < out@.len() ==> out@[i2]@.0 != out@[j2]@.0,
            sorted_in ==> forall|i2: int, j2: int|
                #![trigger out@[i2], out@[j2]]
                0 <= i2 <= j2 < out@.len() ==> out@[i2]@.1 >= out@[j2]@.1,
            sorted_in ==> forall|k: int, j: int|
                #![trigger out@[k], rows@[j]]
                0 <= k < out@.len() && i <= j < rows@.len() ==> out@[k]@.1 >= rows@[j].1,
        decreases n - i,
    {
        let ghost out0 = out@.map_values(|x: Bookmark| x@);
        let ghost osnap = out@;
        let ghost seen0 = seen;
        let row = &rows[i];
        let dup = bookmarks_have_number(&out, row.0);
        proof {
            assert(rv.skip(i as int)[0] == rv[i as int]);
            assert(rv.skip(i as int).drop_first() =~= rv.skip(i + 1));
            assert(dup == seen.contains(rv[i as int].0));
        }
        if !dup {
            let notes = match &row.2 {
                Some(s) => Some(s.clone()),
                None => None,
            };
            out.push(Bookmark { number: row.0, bookmarked_at: row.1, notes });
            proof {
                seen = seen.insert(rv[i as int].0);
                assert(out@.map_values(|x: Bookmark| x@) =~= out0.push(rv[i as int]));
                assert(dedup_bookmark_rows(rv.skip(i as int), seen0) == seq![rv[i as int]]
                    + dedup_bookmark_rows(rv.skip(i + 1), seen));
                assert(out0.push(rv[i as int]) + dedup_bookmark_rows(rv.skip(i + 1), seen)
                    =~= out0 + dedup_bookmark_rows(rv.skip(i as int), seen0));
                assert forall|x: int| #![trigger seen.contains(x)]
                    seen.contains(x) <==> exists|k: int|
                        0 <= k < out@.len() && (#[trigger] out@[k])@.0 == x by {
                    if seen.contains(x) {
                        if x == rv[i as int].0 {
                            assert(out@[out@.len() - 1]@.0 == x);
                        } else {
                            assert(seen0.contains(x));
                            let k = choose|k: int|
                                0 <= k < osnap.len() && (#[trigger] osnap[k])@.0 == x;
                            assert(out@[k]@.0 == x);
                        }
                    }
                    if exists|k: int| 0 <= k < out@.len() && (#[trigger] out@[k])@.0 == x {
                        let k = choose|k: int| 0 <= k < out@.len() && (#[trigger] out@[k])@.0 == x;
                        if k < osnap.len() {
                            assert(osnap[k]@.0 == x);
                            assert(seen0.contains(x));
                        } else {
                            assert(out@[k]@.0 == rv[i as int].0);
                        }
                    }
                }
            }
        }
        i = i + 1;
    }
    proof {
        assert(rv.skip(n as int) =~= Seq::<(int, int, Option<Seq<char>>)>::empty());
        assert(dedup_bookmark_rows(rv.skip(n as int), seen) =~= Seq::<
            (int, int, Option<Seq<char>>),
        >::empty());
        assert(out@.map_values(|x: Bookmark| x@) =~= dedup_bookmark_rows(rv, Set::empty()));
    }
    out
}

/// A bookmark lookup over a sequence that holds no record for `number`
/// finds nothing.
pub proof fn lemma_lookup_bookmark_absent(bv: Seq<(int, int, Option<Seq<char>>)>, number: int)
    requires
        forall|i: int| #![trigger bv[i]] 0 <= i < bv.len() ==> bv[i].0 != number,
    ensures
        lookup_bookmark(bv, number) is None,
    decreases bv.len(),
{
    if bv.len() > 0 {
        lemma_lookup_bookmark_absent(bv.drop_first(), number);
    }
}

/// Every record of a bookmark sequence filtered to other ids keeps an id
/// other than `number`.
pub proof fn lemma_others_bookmarks_excludes(bv: Seq<(int, int, Option<Seq<char>>)>, number: int)
    ensures
        forall|i: int|
            #![trigger others_bookmarks(bv, number)[i]]
            0 <= i < others_bookmarks(bv, number).len() ==> others_bookmarks(bv, number)[i].0
                != number,
{
    broadcast use vstd::seq_lib::group_filter_ensures;

}

/// Time-gated read symmetry: a put followed by a get under a threshold
/// that covers the elapsed time returns exactly the stored payload, and
/// a zero threshold reads nothing back once any time has passed.
pub proof fn lemma_ttl_read_symmetry(
    sv: Seq<(Seq<char>, Seq<char>, int)>,
    key: Seq<char>,
    payload: Seq<char>,
    t: int,
    now: int,
    max_age: int,
)
    ensures
        lookup_search(upsert_cache(sv, key, payload, t), key) == Some((payload, t)),
        now - t <= max_age ==> fresh_at(t, max_age, now),
        now > t ==> !fresh_at(t, 0, now),
{
    let sv2 = upsert_cache(sv, key, payload, t);
    assert(sv2[0] == (key, payload, t));
}

/// The view ledger after `times.len()` successive views of `number`,
/// the k-th at `times[k]`.
pub open spec fn apply_views(vv: Seq<(int, int, int)>, number: int, times: Seq<int>) -> Seq<
    (int, int, int),
>
    decreases times.len(),
{
    if times.len() == 0 {
        vv
    } else {
        bump_views(apply_views(vv, number, times.drop_last()), number, times.last())
    }
}

/// View-increment law: starting from a ledger with no record for
/// `number`, n successive views leave its count at exactly n and its
/// timestamp at the time of the last view, as long as n stays within the
/// saturation bound of the counter.
pub proof fn lemma_view_increment(vv: Seq<(int, int, int)>, number: int, times: Seq<int>)
    requires
        lookup_view(vv, number) is None,
        1 <= times.len() <= i64::MAX,
    ensures
        lookup_view(apply_views(vv, number, times), number) == Some(
            (times.last(), times.len() as int),
        ),
    decreases times.len(),
{
    if times.len() == 1 {
        let prev = apply_views(vv, number, times.drop_last());
        assert(prev == vv);
        let next = bump_views(prev, number, times.last());
        assert(next[0] == (number, times.last(), 1int));
    } else {
        lemma_view_increment(vv, number, times.drop_last());
        let prev = apply_views(vv, number, times.drop_last());
        let next = bump_views(prev, number, times.last());
        assert(lookup_view(prev, number) == Some(
            (times.drop_last().last(), times.len() - 1 as int),
        ));
        assert(next[0] == (number, times.last(), times.len() as int));
    }
}

/// Bookmark toggle round trip: after an upsert the id reads as
/// bookmarked with the stored notes; after a removal it does not.
pub proof fn lemma_bookmark_round_trip(
    bv: Seq<(int, int, Option<Seq<char>>)>,
    number: int,
    notes: Option<Seq<char>>,
    t: int,
)
    ensures
        lookup_bookmark(upsert_bookmarks(bv, number, notes, t), number) == Some((t, notes)),
        lookup_bookmark(drop_bookmark(bv, number), number) is None,
{
    let bv2 = upsert_bookmarks(bv, number, notes, t);
    assert(bv2[0] == (number, t, notes));
    lemma_others_bookmarks_excludes(bv, number);
    lemma_lookup_bookmark_absent(drop_bookmark(bv, number), number);
}

/// Whether some collected pair already carries the query text `q`.
fn contains_query(v: &Vec<(String, i64)>, q: &str) -> (r: bool)
    ensures
        r == exists|k: int| 0 <= k < v@.len() && #[trigger] v@[k].0@ == q@,
{
    let n = v.len();
    let mut i: usize = 0;
    while i < n
        invariant
            n == v@.len(),
            i <= n,
            forall|k: int| 0 <= k < i ==> #[trigger] v@[k].0@ != q@,
        decreases n - i,
    {
        if str_eq(v[i].0.as_str(), q) {
            return true;
        }
        i = i + 1;
    }
    false
}

/// A collection length saturated to the 32-bit count `stats` reports.
fn len_to_i32(n: usize) -> (r: i32)
    ensures
        r as int == count_i32(n as nat),
{
    if n > i32::MAX as usize {
        i32::MAX
    } else {
        n as i32
    }
}

/// Pair each joined listing row with the caller's attempt to decode its
/// payload into a display name, and keep exactly the rows whose payload
/// decoded: one corrupt cached entity never blanks the whole list.
pub fn resolve_recent_details(rows: &Vec<RecentViewRow>, names: &Vec<Option<String>>) -> (r: Vec<
    (i64, String, i64, i64),
>)
    requires
        rows@.len() == names@.len(),
    ensures
        r@.map_values(|x: (i64, String, i64, i64)| (x.0 as int, x.1@, x.2 as int, x.3 as int))
            == spec_resolved(
            rows@.map_values(|x: RecentViewRow| x@),
            names@.map_values(
                |o: Option<String>|
                    match o {
                        Some(s) => Some(s@),
                        None => None::<Seq<char>>,
                    },
            ),
        ),
{
    let ghost rv = rows@.map_values(|x: RecentViewRow| x@);
    let ghost nv = names@.map_values(
        |o: Option<String>|
            match o {
                Some(s) => Some(s@),
                None => None::<Seq<char>>,
            },
    );
    let n = rows.len();
    let mut out: Vec<(i64, String, i64, i64)> = Vec::new();
    let mut i: usize = 0;
    proof {
        assert(rv.skip(0) =~= rv);
        assert(nv.skip(0) =~= nv);
        assert(out@.map_values(|x: (i64, String, i64, i64)| (x.0 as int, x.1@, x.2 as int, x.3 as int))
            + spec_resolved(rv.skip(0), nv.skip(0)) =~= spec_resolved(rv, nv));
    }
    while i < n
        invariant
            n == rv.len(),
            n == nv.len(),
            rv == rows@.map_values(|x: RecentViewRow| x@),
            nv == names@.map_values(
                |o: Option<String>|
                    match o {
                        Some(s) => Some(s@),
                        None => None::<Seq<char>>,
                    },
            ),
            i <= n,
            out@.map_values(|x: (i64, String, i64, i64)| (x.0 as int, x.1@, x.2 as int, x.3 as int))
                + spec_resolved(rv.skip(i as int), nv.skip(i as int)) == spec_resolved(rv, nv),
        decreases n - i,
    {
        let ghost out0 = out@.map_values(
            |x: (i64, String, i64, i64)| (x.0 as int, x.1@, x.2 as int, x.3 as int),
        );
        proof {
            assert(rv.skip(i as int)[0] == rv[i as int]);
            assert(nv.skip(i as int)[0] == nv[i as int]);
            assert(rv.skip(i as int).drop_first() =~= rv.skip(i + 1));
            assert(nv.skip(i as int).drop_first() =~= nv.skip(i + 1));
        }
        let row = &rows[i];
        match &names[i] {
            Some(nm) => {
                out.push((row.number, nm.clone(), row.view_count, row.viewed_at));
                proof {
                    assert(out@.map_values(
                        |x: (i64, String, i64, i64)| (x.0 as int, x.1@, x.2 as int, x.3 as int),
                    ) =~= out0.push((rv[i as int].0, nv[i as int].unwrap(), rv[i as int].2, rv[i as int].3)));
                    assert(out0.push(
                        (rv[i as int].0, nv[i as int].unwrap(), rv[i as int].2, rv[i as int].3),
                    ) + spec_resolved(rv.skip(i + 1), nv.skip(i + 1)) =~= out0 + spec_resolved(
                        rv.skip(i as int),
                        nv.skip(i as int),
                    ));
                }
            },
            None => {
                proof {
                    assert(spec_resolved(rv.skip(i as int), nv.skip(i as int)) == spec_resolved(
                        rv.skip(i + 1),
                        nv.skip(i + 1),
                    ));
                }
            },
        }
        i = i + 1;
    }
    proof {
        assert(rv.skip(n as int) =~= Seq::<(int, Seq<char>, int, int)>::empty());
        assert(spec_resolved(rv.skip(n as int), nv.skip(n as int)) =~= Seq::<
            (int, Seq<char>, int, int),
        >::empty());
    }
    out
}

impl LocalStore {
    /// Cache the response for `query`: an unconditional upsert, last
    /// write wins; the write is mirrored to disk best effort.
    pub fn cache_search(&mut self, query: &str, payload: &str, now: i64)
        requires
            old(self).wf(),
        ensures
            final(self).wf(),
            final(self).clock == max_i64(old(self).clock, now),
            final(self).searches_view() == upsert_cache(
                old(self).searches_view(),
                query@,
                payload@,
                final(self).clock as int,
            ),
            final(self).entities_view() == old(self).entities_view(),
            final(self).history_view() == old(self).history_view(),
            final(self).views_view() == old(self).views_view(),
            final(self).bookmarks_view() == old(self).bookmarks_view(),
    {
        let t = if now > self.clock {
            now
        } else {
            self.clock
        };
        self.clock = t;
        let ghost osv = self.searches_view();
        proof {
            assert(osv == old(self).searches_view());
        }
        let mut out: Vec<CacheRecord> = Vec::new();
        out.push(
            CacheRecord {
                key: String::from_str(query),
                payload: String::from_str(payload),
                cached_at: t,
            },
        );
        let n = self.searches.len();
        let mut i: usize = 0;
        proof {
            reveal(Seq::filter);
            assert(others_cache(osv.take(0), query@) =~= Seq::<(Seq<char>, Seq<char>, int)>::empty());
            assert(out@.map_values(|r: CacheRecord| r@) =~= upsert_cache(
                osv.take(0),
                query@,
                payload@,
                t as int,
            ));
        }
        while i < n
            invariant
                n == self.searches@.len(),
                self.searches_view() == osv,
                i <= n,
                self.clock == t,
                out@.len() >= 1,
                out@.map_values(|r: CacheRecord| r@) == upsert_cache(
                    osv.take(i as int),
                    query@,
                    payload@,
                    t as int,
                ),
                forall|k: int| #![trigger out@[k]] 1 <= k < out@.len() ==> out@[k]@.0 != query@,
                forall|k: int, j: int|
                    #![trigger out@[k], osv[j]]
                    1 <= k < out@.len() && i <= j < osv.len() ==> out@[k]@.0 != osv[j].0,
                forall|k1: int, k2: int|
                    #![trigger out@[k1], out@[k2]]
                    1 <= k1 < k2 < out@.len() ==> out@[k1]@.0 != out@[k2]@.0,
                forall|k: int| #![trigger out@[k]] 0 <= k < out@.len() ==> out@[k]@.2 <= t,
                forall|i2: int, j2: int|
                    #![trigger osv[i2], osv[j2]]
                    0 <= i2 < j2 < osv.len() ==> osv[i2].0 != osv[j2].0,
                forall|k: int| #![trigger osv[k]] 0 <= k < osv.len() ==> osv[k].2 <= t,
            decreases n - i,
        {
            let ghost out0 = out@.map_values(|r: CacheRecord| r@);
            let rec = &self.searches[i];
            let keep = !str_eq(rec.key.as_str(), query);
            if keep {
                out.push(
                    CacheRecord {
                        key: rec.key.clone(),
                        payload: rec.payload.clone(),
                        cached_at: rec.cached_at,
                    },
                );
            }
            proof {
                reveal(Seq::filter);
                assert(osv.take(i + 1).drop_last() =~= osv.take(i as int));
                assert(osv.take(i + 1).last() == osv[i as int]);
                if keep {
                    assert(out@.map_values(|r: CacheRecord| r@) =~= out0.push(osv[i as int]));
                    assert(upsert_cache(osv.take(i + 1), query@, payload@, t as int)
                        =~= upsert_cache(osv.take(i as int), query@, payload@, t as int).push(
                        osv[i as int],
                    ));
                } else {
                    assert(upsert_cache(osv.take(i + 1), query@, payload@, t as int)
                        == upsert_cache(osv.take(i as int), query@, payload@, t as int));
                }
            }
            i = i + 1;
        }
        proof {
            assert(osv.take(n as int) =~= osv);
        }
        self.searches = out;
        let _ = db_upsert_search(&self.conn, query, payload, t);
        proof {
            assert(self.searches_view() =~= upsert_cache(osv, query@, payload@, t as int));
            assert(self.entities_view() == old(self).entities_view());
            assert(self.history_view() == old(self).history_view());
            assert(self.views_view() == old(self).views_view());
            assert(self.bookmarks_view() == old(self).bookmarks_view());
            let sv2 = self.searches_view();
            assert forall|i: int, j: int|
                #![trigger sv2[i], sv2[j]]
                0 <= i < j < sv2.len() implies sv2[i].0 != sv2[j].0 by {
                assert(sv2[j].0 != query@);
                assert(sv2[0].0 == query@);
            }
        }
    }

    /// Read the cached response for `query`, honouring the staleness
    /// threshold `max_age` at time `now`: an absent key and an expired
    /// record both read as `None`; expired records are not deleted.
    pub fn get_cached_search(&self, query: &str, max_age: i64, now: i64) -> (r: Option<String>)
        requires
            self.wf(),
        ensures
            match lookup_search(self.searches_view(), query@) {
                Some(pt) => if fresh_at(pt.1, max_age as int, now as int) {
                    r matches Some(p) && p@ == pt.0
                } else {
                    r is None
                },
                None => r is None,
            },
    {
        let ghost sv = self.searches_view();
        let n = self.searches.len();
        let mut i: usize = 0;
        while i < n
            invariant
                n == sv.len(),
                sv == self.searches_view(),
                i <= n,
                forall|j: int| #![trigger sv[j]] 0 <= j < i ==> sv[j].0 != query@,
            decreases n - i,
        {
            let rec = &self.searches[i];
            if str_eq(rec.key.as_str(), query) {
                proof {
                    lemma_lookup_search_skip(sv, query@, i as int);
                    assert(sv.skip(i as int)[0] == sv[i as int]);
                }
                let age_ok = (now as i128) - (rec.cached_at as i128) <= (max_age as i128);
                if age_ok {
                    return Some(rec.payload.clone());
                } else {
                    return None;
                }
            }
            i = i + 1;
        }
        proof {
            lemma_lookup_search_skip(sv, query@, n as int);
            assert(sv.skip(n as int) =~= Seq::<(Seq<char>, Seq<char>, int)>::empty());
        }
        None
    }

    /// Cache the payload for entity `number`: an unconditional upsert,
    /// last write wins; the write is mirrored to disk best effort.
    pub fn cache_sequence(&mut self, number: i64, payload: &str, now: i64)
        requires
            old(self).wf(),
        ensures
            final(self).wf(),
            final(self).clock == max_i64(old(self).clock, now),
            final(self).entities_view() == upsert_entities(
                old(self).entities_view(),
                number as int,
                payload@,
                final(self).clock as int,
            ),
            final(self).searches_view() == old(self).searches_view(),
            final(self).history_view() == old(self).history_view(),
            final(self).views_view() == old(self).views_view(),
            final(self).bookmarks_view() == old(self).bookmarks_view(),
    {
        let t = if now > self.clock {
            now
        } else {
            self.clock
        };
        self.clock = t;
        let ghost oev = self.entities_view();
        let ghost nint: int = number as int;
        proof {
            assert(oev == old(self).entities_view());
        }
        let mut out: Vec<EntityRecord> = Vec::new();
        out.push(EntityRecord { number, payload: String::from_str(payload), cached_at: t });
        let n = self.entities.len();
        let mut i: usize = 0;
        proof {
            reveal(Seq::filter);
            assert(oev.take(0).filter(|r: (int, Seq<char>, int)| r.0 != nint) =~= Seq::<
                (int, Seq<char>, int),
            >::empty());
            assert(out@.map_values(|r: EntityRecord| r@) =~= upsert_entities(
                oev.take(0),
                nint,
                payload@,
                t as int,
            ));
        }
        while i < n
            invariant
                n == self.entities@.len(),
                self.entities_view() == oev,
                i <= n,
                self.clock == t,
                out@.len() >= 1,
                nint == number as int,
                out@.map_values(|r: EntityRecord| r@) == upsert_entities(
                    oev.take(i as int),
                    nint,
                    payload@,
                    t as int,
                ),
                forall|k: int| #![trigger out@[k]] 1 <= k < out@.len() ==> out@[k]@.0 != number as int,
                forall|k: int, j: int|
                    #![trigger out@[k], oev[j]]
                    1 <= k < out@.len() && i <= j < oev.len() ==> out@[k]@.0 != oev[j].0,
                forall|k1: int, k2: int|
                    #![trigger out@[k1], out@[k2]]
                    1 <= k1 < k2 < out@.len() ==> out@[k1]@.0 != out@[k2]@.0,
                forall|k: int| #![trigger out@[k]] 0 <= k < out@.len() ==> out@[k]@.2 <= t,
                forall|i2: int, j2: int|
                    #![trigger oev[i2], oev[j2]]
                    0 <= i2 < j2 < oev.len() ==> oev[i2].0 != oev[j2].0,
                forall|k: int| #![trigger oev[k]] 0 <= k < oev.len() ==> oev[k].2 <= t,
            decreases n - i,
        {
            let ghost out0 = out@.map_values(|r: EntityRecord| r@);
            let rec = &self.entities[i];
            let keep = rec.number != number;
            if keep {
                out.push(
                    EntityRecord {
                        number: rec.number,
                        payload: rec.payload.clone(),
                        cached_at: rec.cached_at,
                    },
                );
            }
            proof {
                reveal(Seq::filter);
                assert(oev.take(i + 1).drop_last() =~= oev.take(i as int));
                assert(oev.take(i + 1).last() == oev[i as int]);
                if keep {
                    assert(out@.map_values(|r: EntityRecord| r@) =~= out0.push(oev[i as int]));
                    assert(upsert_entities(oev.take(i + 1), nint, payload@, t as int)
                        =~= upsert_entities(oev.take(i as int), nint, payload@, t as int).push(
                        oev[i as int],
                    ));
                } else {
                    assert(upsert_entities(oev.take(i + 1), nint, payload@, t as int)
                        == upsert_entities(oev.take(i as int), nint, payload@, t as int));
                }
            }
            i = i + 1;
        }
        proof {
            assert(oev.take(n as int) =~= oev);
        }
        self.entities = out;
        let _ = db_upsert_entity(&self.conn, number, payload, t);
        proof {
            assert(self.entities_view() =~= upsert_entities(oev, number as int, payload@, t as int));
            assert(self.searches_view() == old(self).searches_view());
            assert(self.history_view() == old(self).history_view());
            assert(self.views_view() == old(self).views_view());
            assert(self.bookmarks_view() == old(self).bookmarks_view());
            let ev2 = self.entities_view();
            assert forall|i: int, j: int|
                #![trigger ev2[i], ev2[j]]
                0 <= i < j < ev2.len() implies ev2[i].0 != ev2[j].0 by {
                assert(ev2[j].0 != number as int);
                assert(ev2[0].0 == number as int);
            }
        }
    }

    /// Read the cached payload for entity `number`, honouring the
    /// staleness threshold `max_age` at time `now`: an absent id and an
    /// expired record both read as `None`; expired records are not
    /// deleted.
    pub fn get_cached_sequence(&self, number: i64, max_age: i64, now: i64) -> (r: Option<String>)
        requires
            self.wf(),
        ensures
            match lookup_entity(self.entities_view(), number as int) {
                Some(pt) => if fresh_at(pt.1, max_age as int, now as int) {
                    r matches Some(p) && p@ == pt.0
                } else {
                    r is None
                },
                None => r is None,
            },
    {
        let ghost ev = self.entities_view();
        let n = self.entities.len();
        let mut i: usize = 0;
        while i < n
            invariant
                n == ev.len(),
                ev == self.entities_view(),
                i <= n,
                forall|j: int| #![trigger ev[j]] 0 <= j < i ==> ev[j].0 != number as int,
            decreases n - i,
        {
            let rec = &self.entities[i];
            if rec.number == number {
                proof {
                    lemma_lookup_entity_skip(ev, number as int, i as int);
                    assert(ev.skip(i as int)[0] == ev[i as int]);
                }
                let age_ok = (now as i128) - (rec.cached_at as i128) <= (max_age as i128);
                if age_ok {
                    return Some(rec.payload.clone());
                } else {
                    return None;
                }
            }
            i = i + 1;
        }
        proof {
            lemma_lookup_entity_skip(ev, number as int, n as int);
            assert(ev.skip(n as int) =~= Seq::<(int, Seq<char>, int)>::empty());
        }
        None
    }

    /// Record a view of entity `number` at `now`: the first view creates
    /// its ledger record with count one, every later view bumps the count
    /// and refreshes the timestamp; records are never deleted. The write
    /// is mirrored to disk best effort.
    pub fn record_view(&mut self, number: i64, now: i64)
        requires
            old(self).wf(),
        ensures
            final(self).wf(),
            final(self).clock == max_i64(old(self).clock, now),
            final(self).views_view() == bump_views(
                old(self).views_view(),
                number as int,
                final(self).clock as int,
            ),
            final(self).searches_view() == old(self).searches_view(),
            final(self).entities_view() == old(self).entities_view(),
            final(self).history_view() == old(self).history_view(),
            final(self).bookmarks_view() == old(self).bookmarks_view(),
    {
        let t = if now > self.clock {
            now
        } else {
            self.clock
        };
        self.clock = t;
        let ghost ovv = self.views_view();
        let ghost nint: int = number as int;
        proof {
            assert(ovv == old(self).views_view());
        }
        let n = self.views.len();
        let mut found = false;
        let mut cur: i64 = 0;
        let mut i: usize = 0;
        while i < n
            invariant
                n == ovv.len(),
                self.views_view() == ovv,
                nint == number as int,
                i <= n,
                !found ==> forall|j: int| #![trigger ovv[j]] 0 <= j < i ==> ovv[j].0 != nint,
                found ==> (lookup_view(ovv, nint) matches Some(pc) && pc.1 == cur as int && cur
                    >= 1),
                forall|i2: int, j2: int|
                    #![trigger ovv[i2], ovv[j2]]
                    0 <= i2 < j2 < ovv.len() ==> ovv[i2].0 != ovv[j2].0,
                forall|k: int| #![trigger ovv[k]] 0 <= k < ovv.len() ==> 1 <= ovv[k].2,
            decreases n - i,
        {
            if !found && self.views[i].number == number {
                proof {
                    lemma_lookup_view_skip(ovv, nint, i as int);
                    assert(ovv.skip(i as int)[0] == ovv[i as int]);
                }
                found = true;
                cur = self.views[i].view_count;
            }
            i = i + 1;
        }
        let newcount: i64 = if found {
            if cur < i64::MAX {
                cur + 1
            } else {
                cur
            }
        } else {
            1
        };
        proof {
            if !found {
                lemma_lookup_view_skip(ovv, nint, n as int);
                assert(ovv.skip(n as int) =~= Seq::<(int, int, int)>::empty());
            }
            assert(newcount as int == bumped_count(ovv, nint));
        }
        let mut out: Vec<ViewRecord> = Vec::new();
        out.push(ViewRecord { number, viewed_at: t, view_count: newcount });
        let mut i: usize = 0;
        proof {
            reveal(Seq::filter);
            assert(others_views(ovv.take(0), nint) =~= Seq::<(int, int, int)>::empty());
            assert(out@.map_values(|r: ViewRecord| r@) =~= seq![(nint, t as int, newcount as int)]
                + others_views(ovv.take(0), nint));
        }
        while i < n
            invariant
                n == ovv.len(),
                self.views_view() == ovv,
                nint == number as int,
                i <= n,
                self.clock == t,
                out@.len() >= 1,
                newcount >= 1,
                out@.map_values(|r: ViewRecord| r@) == seq![(nint, t as int, newcount as int)]
                    + others_views(ovv.take(i as int), nint),
                out@[0]@ == (nint, t as int, newcount as int),
                forall|k: int| #![trigger out@[k]] 1 <= k < out@.len() ==> out@[k]@.0 != nint,
                forall|k: int, j: int|
                    #![trigger out@[k], ovv[j]]
                    1 <= k < out@.len() && i <= j < ovv.len() ==> out@[k]@.0 != ovv[j].0,
                forall|k1: int, k2: int|
                    #![trigger out@[k1], out@[k2]]
                    1 <= k1 < k2 < out@.len() ==> out@[k1]@.0 != out@[k2]@.0,
                forall|k1: int, k2: int|
                    #![trigger out@[k1], out@[k2]]
                    0 <= k1 <= k2 < out@.len() ==> out@[k1]@.1 >= out@[k2]@.1,
                forall|k: int, j: int|
                    #![trigger out@[k], ovv[j]]
                    1 <= k < out@.len() && i <= j < ovv.len() ==> out@[k]@.1 >= ovv[j].1,
                forall|k: int| #![trigger out@[k]] 0 <= k < out@.len() ==> out@[k]@.1 <= t
                    && 1 <= out@[k]@.2,
                forall|i2: int, j2: int|
                    #![trigger ovv[i2], ovv[j2]]
                    0 <= i2 < j2 < ovv.len() ==> ovv[i2].0 != ovv[j2].0,
                forall|i2: int, j2: int|
                    #![trigger ovv[i2], ovv[j2]]
                    0 <= i2 <= j2 < ovv.len() ==> ovv[i2].1 >= ovv[j2].1,
                forall|k: int| #![trigger ovv[k]] 0 <= k < ovv.len() ==> ovv[k].1 <= t && 1
                    <= ovv[k].2,
            decreases n - i,
        {
            let ghost out0 = out@.map_values(|r: ViewRecord| r@);
            let rec = &self.views[i];
            let keep = rec.number != number;
            if keep {
                out.push(
                    ViewRecord {
                        number: rec.number,
                        viewed_at: rec.viewed_at,
                        view_count: rec.view_count,
                    },
                );
            }
            proof {
                reveal(Seq::filter);
                assert(ovv.take(i + 1).drop_last() =~= ovv.take(i as int));
                assert(ovv.take(i + 1).last() == ovv[i as int]);
                if keep {
                    assert(out@.map_values(|r: ViewRecord| r@) =~= out0.push(ovv[i as int]));
                    assert(seq![(nint, t as int, newcount as int)] + others_views(
                        ovv.take(i + 1),
                        nint,
                    ) =~= (seq![(nint, t as int, newcount as int)] + others_views(
                        ovv.take(i as int),
                        nint,
                    )).push(ovv[i as int]));
                } else {
                    assert(others_views(ovv.take(i + 1), nint) == others_views(
                        ovv.take(i as int),
                        nint,
                    ));
                }
            }
            i = i + 1;
        }
        proof {
            assert(ovv.take(n as int) =~= ovv);
        }
        self.views = out;
        let _ = db_upsert_view(&self.conn, number, t, newcount);
        proof {
            assert(self.views_view() =~= bump_views(ovv, number as int, t as int));
            assert(self.searches_view() == old(self).searches_view());
            assert(self.entities_view() == old(self).entities_view());
            assert(self.history_view() == old(self).history_view());
            assert(self.bookmarks_view() == old(self).bookmarks_view());
            let vv2 = self.views_view();
            assert forall|i: int, j: int|
                #![trigger vv2[i], vv2[j]]
                0 <= i < j < vv2.len() implies vv2[i].0 != vv2[j].0 by {
                assert(vv2[j].0 != nint);
                assert(vv2[0].0 == nint);
            }
        }
    }

    /// Add or update the bookmark for entity `number` at `now`: an
    /// explicit upsert, independent of cache expiry. The write is
    /// mirrored to disk best effort.
    pub fn add_bookmark(&mut self, number: i64, notes: Option<&str>, now: i64)
        requires
            old(self).wf(),
        ensures
            final(self).wf(),
            final(self).clock == max_i64(old(self).clock, now),
            final(self).bookmarks_view() == upsert_bookmarks(
                old(self).bookmarks_view(),
                number as int,
                match notes {
                    Some(s) => Some(s@),
                    None => None,
                },
                final(self).clock as int,
            ),
            final(self).searches_view() == old(self).searches_view(),
            final(self).entities_view() == old(self).entities_view(),
            final(self).history_view() == old(self).history_view(),
            final(self).views_view() == old(self).views_view(),
    {
        let t = if now > self.clock {
            now
        } else {
            self.clock
        };
        self.clock = t;
        let ghost obv = self.bookmarks_view();
        let ghost nint: int = number as int;
        let ghost notesv: Option<Seq<char>> = match notes {
            Some(s) => Some(s@),
            None => None,
        };
        proof {
            assert(obv == old(self).bookmarks_view());
        }
        let owned_notes = match notes {
            Some(s) => Some(String::from_str(s)),
            None => None,
        };
        let mut out: Vec<Bookmark> = Vec::new();
        out.push(Bookmark { number, bookmarked_at: t, notes: owned_notes });
        let n = self.bookmarks.len();
        let mut i: usize = 0;
        proof {
            reveal(Seq::filter);
            assert(others_bookmarks(obv.take(0), nint) =~= Seq::<
                (int, int, Option<Seq<char>>),
            >::empty());
            assert(out@.map_values(|r: Bookmark| r@) =~= seq![(nint, t as int, notesv)]
                + others_bookmarks(obv.take(0), nint));
        }
        while i < n
            invariant
                n == obv.len(),
                self.bookmarks_view() == obv,
                nint == number as int,
                i <= n,
                self.clock == t,
                out@.len() >= 1,
                out@.map_values(|r: Bookmark| r@) == seq![(nint, t as int, notesv)]
                    + others_bookmarks(obv.take(i as int), nint),
                out@[0]@ == (nint, t as int, notesv),
                forall|k: int| #![trigger out@[k]] 1 <= k < out@.len() ==> out@[k]@.0 != nint,
                forall|k: int, j: int|
                    #![trigger out@[k], obv[j]]
                    1 <= k < out@.len() && i <= j < obv.len() ==> out@[k]@.0 != obv[j].0,
                forall|k1: int, k2: int|
                    #![trigger out@[k1], out@[k2]]
                    1 <= k1 < k2 < out@.len() ==> out@[k1]@.0 != out@[k2]@.0,
                forall|k1: int, k2: int|
                    #![trigger out@[k1], out@[k2]]
                    0 <= k1 <= k2 < out@.len() ==> out@[k1]@.1 >= out@[k2]@.1,
                forall|k: int, j: int|
                    #![trigger out@[k], obv[j]]
                    1 <= k < out@.len() && i <= j < obv.len() ==> out@[k]@.1 >= obv[j].1,
                forall|k: int| #![trigger out@[k]] 0 <= k < out@.len() ==> out@[k]@.1 <= t,
                forall|i2: int, j2: int|
                    #![trigger obv[i2], obv[j2]]
                    0 <= i2 < j2 < obv.len() ==> obv[i2].0 != obv[j2].0,
                forall|i2: int, j2: int|
                    #![trigger obv[i2], obv[j2]]
                    0 <= i2 <= j2 < obv.len() ==> obv[i2].1 >= obv[j2].1,
                forall|k: int| #![trigger obv[k]] 0 <= k < obv.len() ==> obv[k].1 <= t,
            decreases n - i,
        {
            let ghost out0 = out@.map_values(|r: Bookmark| r@);
            let rec = &self.bookmarks[i];
            let keep = rec.number != number;
            if keep {
                let rec_notes = match &rec.notes {
                    Some(s) => Some(s.clone()),
                    None => None,
                };
                out.push(
                    Bookmark { number: rec.number, bookmarked_at: rec.bookmarked_at, notes: rec_notes },
                );
            }
            proof {
                reveal(Seq::filter);
                assert(obv.take(i + 1).drop_last() =~= obv.take(i as int));
                assert(obv.take(i + 1).last() == obv[i as int]);
                if keep {
                    assert(out@.map_values(|r: Bookmark| r@) =~= out0.push(obv[i as int]));
                    assert(seq![(nint, t as int, notesv)] + others_bookmarks(obv.take(i + 1), nint)
                        =~= (seq![(nint, t as int, notesv)] + others_bookmarks(
                        obv.take(i as int),
                        nint,
                    )).push(obv[i as int]));
                } else {
                    assert(others_bookmarks(obv.take(i + 1), nint) == others_bookmarks(
                        obv.take(i as int),
                        nint,
                    ));
                }
            }
            i = i + 1;
        }
        proof {
            assert(obv.take(n as int) =~= obv);
        }
        self.bookmarks = out;
        let notes_ref = match &self.bookmarks[0].notes {
            Some(s) => Some(s.as_str()),
            None => None,
        };
        let _ = db_upsert_bookmark(&self.conn, number, t, notes_ref);
        proof {
            assert(self.bookmarks_view() =~= upsert_bookmarks(obv, number as int, notesv, t as int));
            assert(self.searches_view() == old(self).searches_view());
            assert(self.entities_view() == old(self).entities_view());
            assert(self.history_view() == old(self).history_view());
            assert(self.views_view() == old(self).views_view());
            let bv2 = self.bookmarks_view();
            assert forall|i: int, j: int|
                #![trigger bv2[i], bv2[j]]
                0 <= i < j < bv2.len() implies bv2[i].0 != bv2[j].0 by {
                assert(bv2[j].0 != nint);
                assert(bv2[0].0 == nint);
            }
        }
    }

    /// Remove the bookmark for entity `number`, if present; nothing else
    /// changes. The delete is mirrored to disk best effort.
    pub fn remove_bookmark(&mut self, number: i64)
        requires
            old(self).wf(),
        ensures
            final(self).wf(),
            final(self).clock == old(self).clock,
            final(self).bookmarks_view() == drop_bookmark(old(self).bookmarks_view(), number as int),
            final(self).searches_view() == old(self).searches_view(),
            final(self).entities_view() == old(self).entities_view(),
            final(self).history_view() == old(self).history_view(),
            final(self).views_view() == old(self).views_view(),
    {
        let ghost obv = self.bookmarks_view();
        let ghost nint: int = number as int;
        let mut out: Vec<Bookmark> = Vec::new();
        let n = self.bookmarks.len();
        let mut i: usize = 0;
        proof {
            reveal(Seq::filter);
            assert(others_bookmarks(obv.take(0), nint) =~= Seq::<
                (int, int, Option<Seq<char>>),
            >::empty());
            assert(out@.map_values(|r: Bookmark| r@) =~= others_bookmarks(obv.take(0), nint));
        }
        while i < n
            invariant
                n == obv.len(),
                self.bookmarks_view() == obv,
                nint == number as int,
                i <= n,
                out@.map_values(|r: Bookmark| r@) == others_bookmarks(obv.take(i as int), nint),
                forall|k: int, j: int|
                    #![trigger out@[k], obv[j]]
                    0 <= k < out@.len() && i <= j < obv.len() ==> out@[k]@.0 != obv[j].0,
                forall|k1: int, k2: int|
                    #![trigger out@[k1], out@[k2]]
                    0 <= k1 < k2 < out@.len() ==> out@[k1]@.0 != out@[k2]@.0,
                forall|k1: int, k2: int|
                    #![trigger out@[k1], out@[k2]]
                    0 <= k1 <= k2 < out@.len() ==> out@[k1]@.1 >= out@[k2]@.1,
                forall|k: int, j: int|
                    #![trigger out@[k], obv[j]]
                    0 <= k < out@.len() && i <= j < obv.len() ==> out@[k]@.1 >= obv[j].1,
                forall|k: int| #![trigger out@[k]] 0 <= k < out@.len() ==> out@[k]@.1
                    <= self.clock,
                self.clock == old(self).clock,
                forall|i2: int, j2: int|
                    #![trigger obv[i2], obv[j2]]
                    0 <= i2 < j2 < obv.len() ==> obv[i2].0 != obv[j2].0,
                forall|i2: int, j2: int|
                    #![trigger obv[i2], obv[j2]]
                    0 <= i2 <= j2 < obv.len() ==> obv[i2].1 >= obv[j2].1,
                forall|k: int| #![trigger obv[k]] 0 <= k < obv.len() ==> obv[k].1 <= self.clock,
            decreases n - i,
        {
            let ghost out0 = out@.map_values(|r: Bookmark| r@);
            let rec = &self.bookmarks[i];
            let keep = rec.number != number;
            if keep {
                let rec_notes = match &rec.notes {
                    Some(s) => Some(s.clone()),
                    None => None,
                };
                out.push(
                    Bookmark { number: rec.number, bookmarked_at: rec.bookmarked_at, notes: rec_notes },
                );
            }
            proof {
                reveal(Seq::filter);
                assert(obv.take(i + 1).drop_last() =~= obv.take(i as int));
                assert(obv.take(i + 1).last() == obv[i as int]);
                if keep {
                    assert(out@.map_values(|r: Bookmark| r@) =~= out0.push(obv[i as int]));
                    assert(others_bookmarks(obv.take(i + 1), nint) =~= others_bookmarks(
                        obv.take(i as int),
                        nint,
                    ).push(obv[i as int]));
                } else {
                    assert(others_bookmarks(obv.take(i + 1), nint) == others_bookmarks(
                        obv.take(i as int),
                        nint,
                    ));
                }
            }
            i = i + 1;
        }
        proof {
            assert(obv.take(n as int) =~= obv);
        }
        self.bookmarks = out;
        let _ = db_delete_bookmark(&self.conn, number);
        proof {
            assert(self.bookmarks_view() =~= drop_bookmark(obv, number as int));
            assert(self.searches_view() == old(self).searches_view());
            assert(self.entities_view() == old(self).entities_view());
            assert(self.history_view() == old(self).history_view());
            assert(self.views_view() == old(self).views_view());
        }
    }

    /// Whether entity `number` is currently bookmarked.
    pub fn is_bookmarked(&self, number: i64) -> (r: bool)
        requires
            self.wf(),
        ensures
            r == (lookup_bookmark(self.bookmarks_view(), number as int) is Some),
    {
        let ghost bv = self.bookmarks_view();
        let n = self.bookmarks.len();
        let mut i: usize = 0;
        while i < n
            invariant
                n == bv.len(),
                bv == self.bookmarks_view(),
                i <= n,
                forall|j: int| #![trigger bv[j]] 0 <= j < i ==> bv[j].0 != number as int,
            decreases n - i,
        {
            if self.bookmarks[i].number == number {
                proof {
                    lemma_lookup_bookmark_skip(bv, number as int, i as int);
                    assert(bv.skip(i as int)[0] == bv[i as int]);
                }
                return true;
            }
            i = i + 1;
        }
        proof {
            lemma_lookup_bookmark_skip(bv, number as int, n as int);
            assert(bv.skip(n as int) =~= Seq::<(int, int, Option<Seq<char>>)>::empty());
        }
        false
    }

    /// Append one search to the history at `now`; entries are never
    /// updated or deleted. The write is mirrored to disk best effort.
    pub fn add_search_history(&mut self, query: &str, now: i64)
        requires
            old(self).wf(),
        ensures
            final(self).wf(),
            final(self).clock == max_i64(old(self).clock, now),
            final(self).history_view() == seq![(query@, final(self).clock as int)] + old(
                self,
            ).history_view(),
            final(self).searches_view() == old(self).searches_view(),
            final(self).entities_view() == old(self).entities_view(),
            final(self).views_view() == old(self).views_view(),
            final(self).bookmarks_view() == old(self).bookmarks_view(),
    {
        let t = if now > self.clock {
            now
        } else {
            self.clock
        };
        self.clock = t;
        let ghost ohv = self.history_view();
        proof {
            assert(ohv == old(self).history_view());
        }
        let n = self.history.len();
        let mut out: Vec<HistoryEntry> = Vec::new();
        out.push(HistoryEntry { query: String::from_str(query), searched_at: t });
        let mut i: usize = 0;
        while i < n
            invariant
                n == ohv.len(),
                self.history_view() == ohv,
                i <= n,
                self.clock == t,
                out@.len() == i + 1,
                out@[0]@ == (query@, t as int),
                forall|k: int| #![trigger out@[k]] 1 <= k < out@.len() ==> out@[k]@ == ohv[k - 1],
                forall|i2: int, j2: int|
                    #![trigger ohv[i2], ohv[j2]]
                    0 <= i2 <= j2 < ohv.len() ==> ohv[i2].1 >= ohv[j2].1,
                forall|k: int| #![trigger ohv[k]] 0 <= k < ohv.len() ==> ohv[k].1 <= t,
            decreases n - i,
        {
            let rec = &self.history[i];
            out.push(HistoryEntry { query: rec.query.clone(), searched_at: rec.searched_at });
            i = i + 1;
        }
        self.history = out;
        let _ = db_append_history(&self.conn, query, t);
        proof {
            assert(self.history_view() =~= seq![(query@, t as int)] + ohv);
            assert(self.searches_view() == old(self).searches_view());
            assert(self.entities_view() == old(self).entities_view());
            assert(self.views_view() == old(self).views_view());
            assert(self.bookmarks_view() == old(self).bookmarks_view());
        }
    }

    /// Read back up to `limit` history entries, newest first, with each
    /// query text appearing once, at its most recent time.
    pub fn get_search_history(&self, limit: usize) -> (r: Vec<(String, i64)>)
        requires
            self.wf(),
        ensures
            ({
                let d = dedup_history(self.history_view(), Set::empty());
                let m = if limit <= d.len() {
                    limit as int
                } else {
                    d.len() as int
                };
                r@.map_values(|p: (String, i64)| (p.0@, p.1 as int)) == d.take(m)
            }),
    {
        let ghost hv = self.history_view();
        let n = self.history.len();
        let mut full: Vec<(String, i64)> = Vec::new();
        let ghost mut seen: Set<Seq<char>> = Set::empty();
        let mut i: usize = 0;
        proof {
            assert(hv.skip(0) =~= hv);
            assert(full@.map_values(|p: (String, i64)| (p.0@, p.1 as int)) + dedup_history(
                hv.skip(0),
                seen,
            ) =~= dedup_history(hv, Set::empty()));
        }
        while i < n
            invariant
                n == hv.len(),
                self.history_view() == hv,
                i <= n,
                full@.map_values(|p: (String, i64)| (p.0@, p.1 as int)) + dedup_history(
                    hv.skip(i as int),
                    seen,
                ) == dedup_history(hv, Set::empty()),
                forall|q: Seq<char>|
                    #![trigger seen.contains(q)]
                    seen.contains(q) <==> exists|k: int|
                        0 <= k < full@.len() && #[trigger] full@[k].0@ == q,
            decreases n - i,
        {
            let ghost full0 = full@.map_values(|p: (String, i64)| (p.0@, p.1 as int));
            let ghost fsnap = full@;
            let ghost seen0 = seen;
            let rec = &self.history[i];
            let dup = contains_query(&full, rec.query.as_str());
            proof {
                assert(hv.skip(i as int)[0] == hv[i as int]);
                assert(hv.skip(i as int).drop_first() =~= hv.skip(i + 1));
                assert(dup == seen.contains(hv[i as int].0));
            }
            if !dup {
                full.push((rec.query.clone(), rec.searched_at));
                proof {
                    seen = seen.insert(rec.query@);
                    assert(full@.map_values(|p: (String, i64)| (p.0@, p.1 as int)) =~= full0.push(
                        hv[i as int],
                    ));
                    assert(dedup_history(hv.skip(i as int), seen0) == seq![hv[i as int]]
                        + dedup_history(hv.skip(i + 1), seen));
                    assert(full0.push(hv[i as int]) + dedup_history(hv.skip(i + 1), seen) =~= full0
                        + dedup_history(hv.skip(i as int), seen0));
                    assert forall|q: Seq<char>| #![trigger seen.contains(q)]
                        seen.contains(q) <==> exists|k: int|
                            0 <= k < full@.len() && #[trigger] full@[k].0@ == q by {
                        if seen.contains(q) {
                            if q == rec.query@ {
                                assert(full@[full@.len() - 1].0@ == q);
                            } else {
                                assert(seen0.contains(q));
                                let k = choose|k: int|
                                    0 <= k < fsnap.len() && #[trigger] fsnap[k].0@ == q;
                                assert(full@[k].0@ == q);
                            }
                        }
                        if exists|k: int| 0 <= k < full@.len() && #[trigger] full@[k].0@ == q {
                            let k = choose|k: int|
                                0 <= k < full@.len() && #[trigger] full@[k].0@ == q;
                            if k < fsnap.len() {
                                assert(fsnap[k].0@ == q);
                                assert(seen0.contains(q));
                            } else {
                                assert(full@[k].0@ == rec.query@);
                            }
                        }
                    }
                }
            }
            i = i + 1;
        }
        proof {
            assert(hv.skip(n as int) =~= Seq::<(Seq<char>, int)>::empty());
            assert(dedup_history(hv.skip(n as int), seen) =~= Seq::<(Seq<char>, int)>::empty());
            assert(full@.map_values(|p: (String, i64)| (p.0@, p.1 as int)) =~= dedup_history(
                hv,
                Set::empty(),
            ));
        }
        let m = if limit <= full.len() {
            limit
        } else {
            full.len()
        };
        let mut out: Vec<(String, i64)> = Vec::new();
        let mut j: usize = 0;
        while j < m
            invariant
                m <= full@.len(),
                j <= m,
                out@.len() == j,
                forall|k: int|
                    #![trigger out@[k]]
                    0 <= k < j ==> out@[k].0@ == full@[k].0@ && out@[k].1 == full@[k].1,
            decreases m - j,
        {
            let rec = &full[j];
            out.push((rec.0.clone(), rec.1));
            j = j + 1;
        }
        proof {
            let fv = full@.map_values(|p: (String, i64)| (p.0@, p.1 as int));
            assert(out@.map_values(|p: (String, i64)| (p.0@, p.1 as int)) =~= fv.take(m as int));
        }
        out
    }

    /// The ids of the `limit` most recently viewed entities, newest
    /// first.
    pub fn get_recently_viewed(&self, limit: usize) -> (r: Vec<i64>)
        ensures
            r@.len() == if limit <= self.views_view().len() {
                limit as int
            } else {
                self.views_view().len() as int
            },
            forall|k: int|
                #![trigger r@[k]]
                0 <= k < r@.len() ==> r@[k] as int == self.views_view()[k].0,
    {
        let ghost vv = self.views_view();
        let n = self.views.len();
        let m = if limit <= n {
            limit
        } else {
            n
        };
        let mut out: Vec<i64> = Vec::new();
        let mut i: usize = 0;
        while i < m
            invariant
                m <= n,
                n == vv.len(),
                vv == self.views_view(),
                i <= m,
                out@.len() == i,
                forall|k: int| #![trigger out@[k]] 0 <= k < i ==> out@[k] as int == vv[k].0,
            decreases m - i,
        {
            out.push(self.views[i].number);
            i = i + 1;
        }
        out
    }

    /// The first `limit` view-ledger records, newest first, each joined
    /// with the cached payload of its entity; records whose entity has no
    /// cached payload are skipped, so the result may be shorter than
    /// `limit`.
    pub fn get_recently_viewed_with_details(&self, limit: usize) -> (r: Vec<RecentViewRow>)
        requires
            self.wf(),
        ensures
            r@.map_values(|x: RecentViewRow| x@) == spec_recent_rows(
                self.views_view(),
                self.entities_view(),
                limit as int,
            ),
    {
        let ghost vv = self.views_view();
        let ghost ev = self.entities_view();
        let n = self.views.len();
        let mut out: Vec<RecentViewRow> = Vec::new();
        let mut i: usize = 0;
        proof {
            assert(vv.skip(0) =~= vv);
            assert(out@.map_values(|x: RecentViewRow| x@) + spec_recent_rows(
                vv.skip(0),
                ev,
                limit as int,
            ) =~= spec_recent_rows(vv, ev, limit as int));
        }
        while i < n && i < limit
            invariant
                n == vv.len(),
                vv == self.views_view(),
                ev == self.entities_view(),
                i <= n,
                i <= limit,
                self.wf(),
                out@.map_values(|x: RecentViewRow| x@) + spec_recent_rows(
                    vv.skip(i as int),
                    ev,
                    limit - i,
                ) == spec_recent_rows(vv, ev, limit as int),
            decreases n - i,
        {
            let ghost out0 = out@.map_values(|x: RecentViewRow| x@);
            let rec = &self.views[i];
            let hit = self.find_entity_payload(rec.number);
            proof {
                assert(vv.skip(i as int)[0] == vv[i as int]);
                assert(vv.skip(i as int).drop_first() =~= vv.skip(i + 1));
            }
            match hit {
                Some(payload) => {
                    out.push(
                        RecentViewRow {
                            number: rec.number,
                            payload,
                            view_count: rec.view_count,
                            viewed_at: rec.viewed_at,
                        },
                    );
                    proof {
                        assert(out@.map_values(|x: RecentViewRow| x@) =~= out0.push(
                            (vv[i as int].0, out@[out@.len() - 1]@.1, vv[i as int].2, vv[i as int].1),
                        ));
                        assert(out0.push(
                            (vv[i as int].0, out@[out@.len() - 1]@.1, vv[i as int].2, vv[i as int].1),
                        ) + spec_recent_rows(vv.skip(i + 1), ev, limit - i - 1) =~= out0
                            + spec_recent_rows(vv.skip(i as int), ev, limit - i));
                    }
                },
                None => {
                    proof {
                        assert(spec_recent_rows(vv.skip(i as int), ev, limit - i)
                            == spec_recent_rows(vv.skip(i + 1), ev, limit - i - 1));
                    }
                },
            }
            i = i + 1;
        }
        proof {
            if i == n {
                assert(vv.skip(n as int) =~= Seq::<(int, int, int)>::empty());
            }
            assert(spec_recent_rows(vv.skip(i as int), ev, limit - i) =~= Seq::<
                (int, Seq<char>, int, int),
            >::empty());
        }
        out
    }

    /// The cached payload for entity `number`, regardless of age.
    fn find_entity_payload(&self, number: i64) -> (r: Option<String>)
        requires
            self.wf(),
        ensures
            match lookup_entity(self.entities_view(), number as int) {
                Some(pt) => r matches Some(p) && p@ == pt.0,
                None => r is None,
            },
    {
        let ghost ev = self.entities_view();
        let n = self.entities.len();
        let mut i: usize = 0;
        while i < n
            invariant
                n == ev.len(),
                ev == self.entities_view(),
                i <= n,
                forall|j: int| #![trigger ev[j]] 0 <= j < i ==> ev[j].0 != number as int,
            decreases n - i,
        {
            let rec = &self.entities[i];
            if rec.number == number {
                proof {
                    lemma_lookup_entity_skip(ev, number as int, i as int);
                    assert(ev.skip(i as int)[0] == ev[i as int]);
                }
                return Some(rec.payload.clone());
            }
            i = i + 1;
        }
        proof {
            lemma_lookup_entity_skip(ev, number as int, n as int);
            assert(ev.skip(n as int) =~= Seq::<(int, Seq<char>, int)>::empty());
        }
        None
    }

    /// Empty the two cache collections; history, view records and
    /// bookmarks are deliberately untouched: caches are disposable,
    /// provenance and user-curated data are not. The deletes are mirrored
    /// to disk best effort.
    pub fn clear_cache(&mut self)
        requires
            old(self).wf(),
        ensures
            final(self).wf(),
            final(self).clock == old(self).clock,
            final(self).searches_view() == Seq::<(Seq<char>, Seq<char>, int)>::empty(),
            final(self).entities_view() == Seq::<(int, Seq<char>, int)>::empty(),
            final(self).history_view() == old(self).history_view(),
            final(self).views_view() == old(self).views_view(),
            final(self).bookmarks_view() == old(self).bookmarks_view(),
    {
        self.searches = Vec::new();
        self.entities = Vec::new();
        let _ = db_clear_caches(&self.conn);
        proof {
            assert(self.searches_view() =~= Seq::<(Seq<char>, Seq<char>, int)>::empty());
            assert(self.entities_view() =~= Seq::<(int, Seq<char>, int)>::empty());
            assert(self.history_view() == old(self).history_view());
            assert(self.views_view() == old(self).views_view());
            assert(self.bookmarks_view() == old(self).bookmarks_view());
        }
    }

    /// Counts of the five collections, each saturated at `i32::MAX`.
    pub fn get_stats(&self) -> (r: CacheStats)
        ensures
            r.cached_searches as int == count_i32(self.searches_view().len()),
            r.cached_sequences as int == count_i32(self.entities_view().len()),
            r.total_searches as int == count_i32(self.history_view().len()),
            r.viewed_sequences as int == count_i32(self.views_view().len()),
            r.bookmarked_sequences as int == count_i32(self.bookmarks_view().len()),
    {
        CacheStats {
            cached_searches: len_to_i32(self.searches.len()),
            cached_sequences: len_to_i32(self.entities.len()),
            total_searches: len_to_i32(self.history.len()),
            viewed_sequences: len_to_i32(self.views.len()),
            bookmarked_sequences: len_to_i32(self.bookmarks.len()),
        }
    }

    /// All bookmarks, most recently written first, as id and notes.
    pub fn get_bookmarks(&self) -> (r: Vec<(i64, Option<String>)>)
        ensures
            r@.len() == self.bookmarks_view().len(),
            forall|k: int|
                #![trigger r@[k]]
                0 <= k < r@.len() ==> r@[k].0 as int == self.bookmarks_view()[k].0 && (match r@[k].1 {
                    Some(s) => Some(s@),
                    None => None,
                }) == self.bookmarks_view()[k].2,
    {
        let ghost bv = self.bookmarks_view();
        let n = self.bookmarks.len();
        let mut out: Vec<(i64, Option<String>)> = Vec::new();
        let mut i: usize = 0;
        while i < n
            invariant
                n == bv.len(),
                bv == self.bookmarks_view(),
                i <= n,
                out@.len() == i,
                forall|k: int|
                    #![trigger out@[k]]
                    0 <= k < i ==> out@[k].0 as int == bv[k].0 && (match out@[k].1 {
                        Some(s) => Some(s@),
                        None => None,
                    }) == bv[k].2,
            decreases n - i,
        {
            let rec = &self.bookmarks[i];
            let rec_notes = match &rec.notes {
                Some(s) => Some(s.clone()),
                None => None,
            };
            out.push((rec.number, rec_notes));
            i = i + 1;
        }
        out
    }
}

} // verus!
