//! The metadata index: four buffered relations over one durable store,
//! the registration operations that populate them, and the liveness query
//! derived from them.
//!
//! The four relations are entry to creating headers, header to update
//! headers, entry to entry-redirecting update headers, and header to delete
//! headers. Every mutation lands in the in-memory buffer of the owning
//! relation; `flush_to_txn` merges all four buffers into the durable tables
//! at once. The durable tables are plain values here, so reads and commits
//! cannot fail; a fallible durable backend would surface its own storage
//! error unchanged, which no operation of this index produces or hides.
//!
//! An entry's status is a pure function of the registered records, derived
//! afresh on every query rather than maintained as a counter: an entry is
//! live exactly when some header that contributes to it has no delete
//! registered against it.

use vstd::prelude::*;
use crate::hash::{AnyDhtHash, EntryHash, HeaderHash, TimedHeaderHash};
use crate::header::{ElementDelete, EntryCreate, EntryUpdate, IntendedFor, NewEntryHeader};
use crate::store::{
    distinct_pairs, has_pair, has_timed, insert_effect, key_present, merge_into, KvvEntry,
    KvvStore, KvvTable,
};

verus! {

/// Derived liveness of an entry. `Pending` is reserved for data that is not
/// yet integrated; this index never produces it.
#[derive(Clone, Copy, PartialEq, Eq, Structural, Debug)]
pub enum EntryDhtStatus {
    Live,
    Dead,
    Pending,
}

/// The mathematical model of the index: the four relations as sequences of
/// pairs. Both the durable store and the buffered index view abstract to
/// this one type, so every contract and law is stated over it.
#[verifier::ext_equal]
pub struct MetaView {
    /// Entry to the headers that introduced it (creates and updates).
    pub headers_by_entry: Seq<KvvEntry>,
    /// Header to the updates that replace it.
    pub updates_by_header: Seq<KvvEntry>,
    /// Entry to the entry-redirecting updates registered against it.
    pub updates_by_entry: Seq<KvvEntry>,
    /// Header to the deletes that tombstone it.
    pub deletes_by_header: Seq<KvvEntry>,
}

/// Every pair of the sequence redirects to an entry identifier.
pub open spec fn entry_targets(s: Seq<KvvEntry>) -> bool {
    forall|i: int| 0 <= i < s.len() ==> s[i].target is Entry
}

impl MetaView {
    /// The model of an index with nothing registered.
    pub open spec fn empty() -> MetaView {
        MetaView {
            headers_by_entry: Seq::empty(),
            updates_by_header: Seq::empty(),
            updates_by_entry: Seq::empty(),
            deletes_by_header: Seq::empty(),
        }
    }

    /// Well-formedness: pairs are unique per `(key, header hash)` within
    /// each relation, and entry-redirecting updates redirect to entries.
    pub open spec fn wf(self) -> bool {
        &&& distinct_pairs(self.headers_by_entry)
        &&& distinct_pairs(self.updates_by_header)
        &&& distinct_pairs(self.updates_by_entry)
        &&& distinct_pairs(self.deletes_by_header)
        &&& entry_targets(self.updates_by_entry)
    }

    /// Header `h` contributes to entry `e`'s existence: it was registered
    /// as a create for `e` or as an entry-redirecting update against `e`.
    pub open spec fn contributes(self, e: EntryHash, h: HeaderHash) -> bool {
        has_pair(self.headers_by_entry, AnyDhtHash::Entry(e), h) || has_pair(
            self.updates_by_entry,
            AnyDhtHash::Entry(e),
            h,
        )
    }

    /// Header `h` is tombstoned: at least one delete is registered against it.
    pub open spec fn tombstoned(self, h: HeaderHash) -> bool {
        key_present(self.deletes_by_header, AnyDhtHash::Header(h))
    }

    /// Entry `e` is live: some contributing header is not tombstoned.
    pub open spec fn live(self, e: EntryHash) -> bool {
        exists|h: HeaderHash| self.contributes(e, h) && !self.tombstoned(h)
    }

    /// The derived status of entry `e`.
    pub open spec fn status(self, e: EntryHash) -> EntryDhtStatus {
        if self.live(e) {
            EntryDhtStatus::Live
        } else {
            EntryDhtStatus::Dead
        }
    }

    /// The relation a redirect query for this key reads.
    pub open spec fn update_index_of(self, k: AnyDhtHash) -> Seq<KvvEntry> {
        match k {
            AnyDhtHash::Header(_) => self.updates_by_header,
            AnyDhtHash::Entry(_) => self.updates_by_entry,
        }
    }
}

/// The pair a create files under its entry.
pub open spec fn create_pair(c: EntryCreate) -> KvvEntry {
    KvvEntry {
        key: AnyDhtHash::Entry(c.entry_hash),
        timed: c.timed(),
        target: AnyDhtHash::Entry(c.entry_hash),
    }
}

/// The pair an update files under the header it replaces.
pub open spec fn update_header_pair(u: EntryUpdate) -> KvvEntry {
    KvvEntry {
        key: AnyDhtHash::Header(u.replaces_address),
        timed: u.timed(),
        target: AnyDhtHash::Header(u.header_hash),
    }
}

/// The pair an entry-redirecting update files under the original entry.
pub open spec fn update_entry_pair(u: EntryUpdate, original: EntryHash) -> KvvEntry {
    KvvEntry {
        key: AnyDhtHash::Entry(original),
        timed: u.timed(),
        target: AnyDhtHash::Entry(u.entry_hash),
    }
}

/// The pair a delete files under the header it removes.
pub open spec fn delete_pair(d: ElementDelete) -> KvvEntry {
    KvvEntry {
        key: AnyDhtHash::Header(d.removes_address),
        timed: d.timed(),
        target: AnyDhtHash::Header(d.removes_address),
    }
}

/// What registering a create does to the model.
pub open spec fn apply_create(m: MetaView, c: EntryCreate) -> MetaView {
    MetaView { headers_by_entry: insert_effect(m.headers_by_entry, create_pair(c)), ..m }
}

/// What registering an update does to the model: filed under the replaced
/// header always, and under the original entry exactly when it redirects
/// the entry identity and the original entry hash is known.
pub open spec fn apply_update(m: MetaView, u: EntryUpdate, original: Option<EntryHash>) -> MetaView {
    let m1 = MetaView { updates_by_header: insert_effect(m.updates_by_header, update_header_pair(u)), ..m };
    if u.intended_for is Entry && original is Some {
        MetaView {
            updates_by_entry: insert_effect(m1.updates_by_entry, update_entry_pair(u, original->0)),
            ..m1
        }
    } else {
        m1
    }
}

/// What registering a delete does to the model.
pub open spec fn apply_delete(m: MetaView, d: ElementDelete) -> MetaView {
    MetaView { deletes_by_header: insert_effect(m.deletes_by_header, delete_pair(d)), ..m }
}

/// What registering a new-entry header does to the model. A create is filed
/// under its entry; an update arriving this way carries no original entry
/// hash, so it reaches the update relations only.
pub open spec fn apply_header(m: MetaView, h: NewEntryHeader) -> MetaView {
    match h {
        NewEntryHeader::Create(c) => apply_create(m, c),
        NewEntryHeader::Update(u) => apply_update(m, u, None),
    }
}

/// Componentwise concatenation: a snapshot with a buffer on top.
pub open spec fn concat_views(a: MetaView, b: MetaView) -> MetaView {
    MetaView {
        headers_by_entry: a.headers_by_entry + b.headers_by_entry,
        updates_by_header: a.updates_by_header + b.updates_by_header,
        updates_by_entry: a.updates_by_entry + b.updates_by_entry,
        deletes_by_header: a.deletes_by_header + b.deletes_by_header,
    }
}

/// Componentwise commit: every buffered pair merged into the durable model.
pub open spec fn merge_views(t: MetaView, s: MetaView) -> MetaView {
    MetaView {
        headers_by_entry: merge_into(t.headers_by_entry, s.headers_by_entry),
        updates_by_header: merge_into(t.updates_by_header, s.updates_by_header),
        updates_by_entry: merge_into(t.updates_by_entry, s.updates_by_entry),
        deletes_by_header: merge_into(t.deletes_by_header, s.deletes_by_header),
    }
}

/// Inserting a pair that redirects to an entry preserves `entry_targets`.
pub proof fn lemma_entry_targets_insert(s: Seq<KvvEntry>, e: KvvEntry)
    requires
        entry_targets(s),
        e.target is Entry,
    ensures
        entry_targets(insert_effect(s, e)),
{
    if !has_pair(s, e.key, e.timed.header_hash) {
        let r = s.push(e);
        assert forall|i: int| 0 <= i < r.len() implies r[i].target is Entry by {
            if i < s.len() {
                assert(r[i] == s[i]);
            } else {
                assert(r[i] == e);
            }
        }
    }
}

/// Merging pairs that redirect to entries preserves `entry_targets`.
pub proof fn lemma_entry_targets_merge(t: Seq<KvvEntry>, s: Seq<KvvEntry>)
    requires
        entry_targets(t),
        entry_targets(s),
    ensures
        entry_targets(merge_into(t, s)),
    decreases s.len(),
{
    if s.len() != 0 {
        assert(s.first().target is Entry);
        lemma_entry_targets_insert(t, s.first());
        assert forall|i: int| 0 <= i < s.drop_first().len() implies s.drop_first()[i].target
            is Entry by {
            assert(s.drop_first()[i] == s[i + 1]);
        }
        lemma_entry_targets_merge(insert_effect(t, s.first()), s.drop_first());
    }
}

/// The durable side of the index: the four committed tables. A value of
/// this type stands for the caller's transactional environment; readers
/// snapshot it and a commit merges one buffered index into it.
pub struct Db {
    /// Durable entry-to-creating-headers relation.
    pub headers_by_entry: KvvTable,
    /// Durable header-to-updates relation.
    pub updates_by_header: KvvTable,
    /// Durable entry-to-updates relation.
    pub updates_by_entry: KvvTable,
    /// Durable header-to-deletes relation.
    pub deletes_by_header: KvvTable,
}

impl View for Db {
    type V = MetaView;

    open spec fn view(&self) -> MetaView {
        MetaView {
            headers_by_entry: self.headers_by_entry@,
            updates_by_header: self.updates_by_header@,
            updates_by_entry: self.updates_by_entry@,
            deletes_by_header: self.deletes_by_header@,
        }
    }
}

impl Db {
    /// Well-formedness of the committed data.
    pub open spec fn wf(self) -> bool {
        self@.wf()
    }

    /// An empty durable store.
    pub fn new() -> (db: Db)
        ensures
            db@ == MetaView::empty(),
            db.wf(),
    {
        let db = Db {
            headers_by_entry: KvvTable::new(),
            updates_by_header: KvvTable::new(),
            updates_by_entry: KvvTable::new(),
            deletes_by_header: KvvTable::new(),
        };
        proof {
            assert(db@ =~= MetaView::empty());
        }
        db
    }
}

/// The buffered metadata index: one snapshot of the durable store per
/// relation, plus the uncommitted registrations. Reads merge snapshot and
/// buffer, so a store sees its own writes; other readers see nothing until
/// `flush_to_txn`.
pub struct MetadataBuf {
    /// Buffered entry-to-creating-headers relation.
    pub headers_by_entry: KvvStore,
    /// Buffered header-to-updates relation.
    pub updates_by_header: KvvStore,
    /// Buffered entry-to-updates relation.
    pub updates_by_entry: KvvStore,
    /// Buffered header-to-deletes relation.
    pub deletes_by_header: KvvStore,
}

impl View for MetadataBuf {
    type V = MetaView;

    open spec fn view(&self) -> MetaView {
        MetaView {
            headers_by_entry: self.headers_by_entry@,
            updates_by_header: self.updates_by_header@,
            updates_by_entry: self.updates_by_entry@,
            deletes_by_header: self.deletes_by_header@,
        }
    }
}

impl MetadataBuf {
    /// The snapshot parts alone: what was durable when this index opened.
    pub open spec fn snap_view(self) -> MetaView {
        MetaView {
            headers_by_entry: self.headers_by_entry.snap(),
            updates_by_header: self.updates_by_header.snap(),
            updates_by_entry: self.updates_by_entry.snap(),
            deletes_by_header: self.deletes_by_header.snap(),
        }
    }

    /// The buffered parts alone: what a commit would merge.
    pub open spec fn scr_view(self) -> MetaView {
        MetaView {
            headers_by_entry: self.headers_by_entry.scr(),
            updates_by_header: self.updates_by_header.scr(),
            updates_by_entry: self.updates_by_entry.scr(),
            deletes_by_header: self.deletes_by_header.scr(),
        }
    }

    /// Well-formedness of the merged view.
    pub open spec fn wf(self) -> bool {
        self@.wf()
    }

    /// Opens the primary metadata index over a snapshot of the durable
    /// store, with an empty buffer. Whatever later writers commit to the
    /// store stays invisible to this index.
    pub fn primary(db: &Db) -> (buf: MetadataBuf)
        ensures
            buf@ == db@,
            buf.snap_view() == db@,
            buf.scr_view() == MetaView::empty(),
            db.wf() ==> buf.wf(),
    {
        let buf = MetadataBuf {
            headers_by_entry: KvvStore::open(&db.headers_by_entry),
            updates_by_header: KvvStore::open(&db.updates_by_header),
            updates_by_entry: KvvStore::open(&db.updates_by_entry),
            deletes_by_header: KvvStore::open(&db.deletes_by_header),
        };
        proof {
            assert(buf@ =~= db@);
            assert(buf.scr_view() =~= MetaView::empty());
        }
        buf
    }

    /// Registers a header that introduces an entry. A create is filed under
    /// the entry it introduces; an update is passed on with no original
    /// entry hash, since that hash is not recoverable from the update alone.
    pub fn register_header(&mut self, header: NewEntryHeader)
        ensures
            final(self)@ == apply_header(old(self)@, header),
            final(self).snap_view() == old(self).snap_view(),
            old(self).wf() ==> final(self).wf(),
    {
        match header {
            NewEntryHeader::Create(c) => {
                let timed = TimedHeaderHash { timestamp: c.timestamp, header_hash: c.header_hash };
                let pair = KvvEntry {
                    key: AnyDhtHash::Entry(c.entry_hash),
                    timed,
                    target: AnyDhtHash::Entry(c.entry_hash),
                };
                proof {
                    assert(pair == create_pair(c));
                }
                self.headers_by_entry.insert(pair);
            }
            NewEntryHeader::Update(u) => {
                self.register_update(u, None);
            }
        }
    }

    /// Registers an update against the header it replaces, and additionally
    /// against the original entry when the update redirects the entry
    /// identity and the caller supplied the original entry hash. When it
    /// redirects the entry identity but no original entry hash is given,
    /// the update stays unreachable from entry-keyed queries.
    pub fn register_update(&mut self, update: EntryUpdate, original_entry: Option<EntryHash>)
        ensures
            final(self)@ == apply_update(old(self)@, update, original_entry),
            final(self).snap_view() == old(self).snap_view(),
            old(self).wf() ==> final(self).wf(),
    {
        let timed = TimedHeaderHash {
            timestamp: update.timestamp,
            header_hash: update.header_hash,
        };
        let header_pair = KvvEntry {
            key: AnyDhtHash::Header(update.replaces_address),
            timed,
            target: AnyDhtHash::Header(update.header_hash),
        };
        proof {
            assert(header_pair == update_header_pair(update));
        }
        self.updates_by_header.insert(header_pair);
        match (update.intended_for, original_entry) {
            (IntendedFor::Entry, Some(original)) => {
                let entry_pair = KvvEntry {
                    key: AnyDhtHash::Entry(original),
                    timed,
                    target: AnyDhtHash::Entry(update.entry_hash),
                };
                proof {
                    assert(entry_pair == update_entry_pair(update, original));
                    if old(self).wf() {
                        lemma_entry_targets_insert(self.updates_by_entry@, entry_pair);
                    }
                }
                self.updates_by_entry.insert(entry_pair);
            }
            _ => {}
        }
    }

    /// Registers a delete against the header it removes. The entry hash is
    /// accepted for symmetry with the liveness engine; deletes are indexed
    /// purely by the removed header, since liveness joins through the
    /// entry-keyed relations.
    pub fn register_delete(&mut self, delete: ElementDelete, entry_hash: EntryHash)
        ensures
            final(self)@ == apply_delete(old(self)@, delete),
            final(self).snap_view() == old(self).snap_view(),
            old(self).wf() ==> final(self).wf(),
    {
        let _ = entry_hash;
        let timed = TimedHeaderHash {
            timestamp: delete.timestamp,
            header_hash: delete.header_hash,
        };
        let pair = KvvEntry {
            key: AnyDhtHash::Header(delete.removes_address),
            timed,
            target: AnyDhtHash::Header(delete.removes_address),
        };
        proof {
            assert(pair == delete_pair(delete));
        }
        self.deletes_by_header.insert(pair);
    }

    /// The timed hashes of the headers that introduced this entry, merged
    /// from snapshot and buffer and deduplicated by header hash.
    pub fn get_headers(&self, entry_hash: EntryHash) -> (r: Vec<TimedHeaderHash>)
        requires
            self.wf(),
        ensures
            forall|t: TimedHeaderHash|
                #[trigger] r@.contains(t) <==> has_timed(
                    self@.headers_by_entry,
                    AnyDhtHash::Entry(entry_hash),
                    t,
                ),
            forall|i: int, j: int|
                0 <= i < j < r@.len() ==> r@[i].header_hash != r@[j].header_hash,
    {
        let k = AnyDhtHash::Entry(entry_hash);
        let es = self.headers_by_entry.get(k);
        let r = project_timed(&es);
        proof {
            lemma_project(es@, r@, self@.headers_by_entry, k);
        }
        r
    }

    /// The timed hashes of the updates registered against this identifier:
    /// updates that replace a header when the key is a header hash, and
    /// entry-redirecting updates when it is an entry hash.
    pub fn get_updates(&self, hash: AnyDhtHash) -> (r: Vec<TimedHeaderHash>)
        requires
            self.wf(),
        ensures
            forall|t: TimedHeaderHash|
                #[trigger] r@.contains(t) <==> has_timed(self@.update_index_of(hash), hash, t),
            forall|i: int, j: int|
                0 <= i < j < r@.len() ==> r@[i].header_hash != r@[j].header_hash,
    {
        let es = match hash {
            AnyDhtHash::Header(_) => self.updates_by_header.get(hash),
            AnyDhtHash::Entry(_) => self.updates_by_entry.get(hash),
        };
        let r = project_timed(&es);
        proof {
            lemma_project(es@, r@, self@.update_index_of(hash), hash);
        }
        r
    }

    /// The timed hashes of the deletes registered against this header.
    pub fn get_deletes_on_header(&self, header_hash: HeaderHash) -> (r: Vec<TimedHeaderHash>)
        requires
            self.wf(),
        ensures
            forall|t: TimedHeaderHash|
                #[trigger] r@.contains(t) <==> has_timed(
                    self@.deletes_by_header,
                    AnyDhtHash::Header(header_hash),
                    t,
                ),
            forall|i: int, j: int|
                0 <= i < j < r@.len() ==> r@[i].header_hash != r@[j].header_hash,
    {
        let k = AnyDhtHash::Header(header_hash);
        let es = self.deletes_by_header.get(k);
        let r = project_timed(&es);
        proof {
            lemma_project(es@, r@, self@.deletes_by_header, k);
        }
        r
    }

    /// Derives the entry's status from the registered records: live exactly
    /// when some contributing header carries no delete. Recomputed on every
    /// query; never `Pending`.
    pub fn get_dht_status(&self, entry_hash: EntryHash) -> (s: EntryDhtStatus)
        requires
            self.wf(),
        ensures
            s == self@.status(entry_hash),
    {
        let k = AnyDhtHash::Entry(entry_hash);
        let hs = self.headers_by_entry.get(k);
        let us = self.updates_by_entry.get(k);
        let n1 = hs.len();
        let mut i: usize = 0;
        while i < n1
            invariant
                self.wf(),
                k == AnyDhtHash::Entry(entry_hash),
                n1 == hs@.len(),
                i <= n1,
                forall|e: KvvEntry|
                    #[trigger] hs@.contains(e) <==> (self@.headers_by_entry.contains(e) && e.key
                        == k),
                forall|p: int| 0 <= p < i ==> self@.tombstoned(hs@[p].timed.header_hash),
            decreases n1 - i,
        {
            let h = hs[i].timed.header_hash;
            if !self.deletes_by_header.has_key(AnyDhtHash::Header(h)) {
                proof {
                    let e = hs@[i as int];
                    assert(hs@.contains(e));
                    assert(self@.headers_by_entry.contains(e) && e.key == k);
                    let p = choose|p: int|
                        0 <= p < self@.headers_by_entry.len() && self@.headers_by_entry[p] == e;
                    assert(self@.headers_by_entry[p].key == k
                        && self@.headers_by_entry[p].timed.header_hash == h);
                    assert(has_pair(self@.headers_by_entry, k, h));
                    assert(self@.contributes(entry_hash, h));
                    assert(!self@.tombstoned(h));
                }
                return EntryDhtStatus::Live;
            }
            i += 1;
        }
        let n2 = us.len();
        let mut m: usize = 0;
        while m < n2
            invariant
                self.wf(),
                k == AnyDhtHash::Entry(entry_hash),
                n1 == hs@.len(),
                n2 == us@.len(),
                m <= n2,
                forall|e: KvvEntry|
                    #[trigger] hs@.contains(e) <==> (self@.headers_by_entry.contains(e) && e.key
                        == k),
                forall|e: KvvEntry|
                    #[trigger] us@.contains(e) <==> (self@.updates_by_entry.contains(e) && e.key
                        == k),
                forall|p: int| 0 <= p < n1 ==> self@.tombstoned(hs@[p].timed.header_hash),
                forall|p: int| 0 <= p < m ==> self@.tombstoned(us@[p].timed.header_hash),
            decreases n2 - m,
        {
            let h = us[m].timed.header_hash;
            if !self.deletes_by_header.has_key(AnyDhtHash::Header(h)) {
                proof {
                    let e = us@[m as int];
                    assert(us@.contains(e));
                    assert(self@.updates_by_entry.contains(e) && e.key == k);
                    let p = choose|p: int|
                        0 <= p < self@.updates_by_entry.len() && self@.updates_by_entry[p] == e;
                    assert(self@.updates_by_entry[p].key == k
                        && self@.updates_by_entry[p].timed.header_hash == h);
                    assert(has_pair(self@.updates_by_entry, k, h));
                    assert(self@.contributes(entry_hash, h));
                    assert(!self@.tombstoned(h));
                }
                return EntryDhtStatus::Live;
            }
            m += 1;
        }
        proof {
            assert forall|h: HeaderHash| self@.contributes(entry_hash, h) implies self@.tombstoned(
                h,
            ) by {
                if has_pair(self@.headers_by_entry, k, h) {
                    let p = choose|p: int|
                        0 <= p < self@.headers_by_entry.len() && self@.headers_by_entry[p].key == k
                            && self@.headers_by_entry[p].timed.header_hash == h;
                    let e = self@.headers_by_entry[p];
                    assert(self@.headers_by_entry.contains(e));
                    assert(hs@.contains(e));
                    let q = choose|q: int| 0 <= q < hs@.len() && hs@[q] == e;
                    assert(self@.tombstoned(hs@[q].timed.header_hash));
                } else {
                    let p = choose|p: int|
                        0 <= p < self@.updates_by_entry.len() && self@.updates_by_entry[p].key == k
                            && self@.updates_by_entry[p].timed.header_hash == h;
                    let e = self@.updates_by_entry[p];
                    assert(self@.updates_by_entry.contains(e));
                    assert(us@.contains(e));
                    let q = choose|q: int| 0 <= q < us@.len() && us@[q] == e;
                    assert(self@.tombstoned(us@[q].timed.header_hash));
                }
            }
        }
        EntryDhtStatus::Dead
    }

    /// Commits the buffered registrations: merges all four buffers into the
    /// durable tables inside the caller's write transaction, all within one
    /// transaction, and consumes this index. Committing an index with an
    /// empty buffer leaves the store unchanged.
    pub fn flush_to_txn(self, db: &mut Db)
        ensures
            final(db)@ == merge_views(old(db)@, self.scr_view()),
            old(db).wf() && self.wf() ==> final(db).wf(),
    {
        proof {
            if old(db).wf() && self.wf() {
                let s = self@.updates_by_entry;
                let snap = self.updates_by_entry.snap();
                let scr = self.updates_by_entry.scr();
                assert forall|i: int| 0 <= i < scr.len() implies scr[i].target is Entry by {
                    assert(s[snap.len() + i] == scr[i]);
                }
                lemma_entry_targets_merge(old(db)@.updates_by_entry, scr);
            }
        }
        let MetadataBuf { headers_by_entry, updates_by_header, updates_by_entry, deletes_by_header }
            = self;
        headers_by_entry.flush_to_table(&mut db.headers_by_entry);
        updates_by_header.flush_to_table(&mut db.updates_by_header);
        updates_by_entry.flush_to_table(&mut db.updates_by_entry);
        deletes_by_header.flush_to_table(&mut db.deletes_by_header);
    }
}

/// Projects each pair to its timed hash, position by position.
fn project_timed(es: &Vec<KvvEntry>) -> (r: Vec<TimedHeaderHash>)
    ensures
        r@.len() == es@.len(),
        forall|i: int| 0 <= i < r@.len() ==> r@[i] == es@[i].timed,
{
    let mut r: Vec<TimedHeaderHash> = Vec::new();
    let n = es.len();
    let mut i: usize = 0;
    while i < n
        invariant
            n == es@.len(),
            i <= n,
            r@.len() == i,
            forall|j: int| 0 <= j < i ==> r@[j] == es@[j].timed,
        decreases n - i,
    {
        r.push(es[i].timed);
        i += 1;
    }
    r
}

/// Carries the membership and deduplication facts of a key lookup through
/// the projection to timed hashes.
proof fn lemma_project(
    es: Seq<KvvEntry>,
    r: Seq<TimedHeaderHash>,
    s: Seq<KvvEntry>,
    k: AnyDhtHash,
)
    requires
        r.len() == es.len(),
        forall|i: int| 0 <= i < r.len() ==> r[i] == es[i].timed,
        distinct_pairs(s),
        distinct_pairs(es),
        forall|e: KvvEntry| #[trigger] es.contains(e) <==> (s.contains(e) && e.key == k),
    ensures
        forall|t: TimedHeaderHash| #[trigger] r.contains(t) <==> has_timed(s, k, t),
        forall|i: int, j: int| 0 <= i < j < r.len() ==> r[i].header_hash != r[j].header_hash,
{
    assert forall|t: TimedHeaderHash| #[trigger] r.contains(t) implies has_timed(s, k, t) by {
        let i = choose|i: int| 0 <= i < r.len() && r[i] == t;
        assert(es.contains(es[i]));
        let p = choose|p: int| 0 <= p < s.len() && s[p] == es[i];
        assert(s[p].key == k && s[p].timed == t);
    }
    assert forall|t: TimedHeaderHash| has_timed(s, k, t) implies #[trigger] r.contains(t) by {
        let p = choose|p: int| 0 <= p < s.len() && s[p].key == k && s[p].timed == t;
        assert(s.contains(s[p]));
        assert(es.contains(s[p]));
        let i = choose|i: int| 0 <= i < es.len() && es[i] == s[p];
        assert(r[i] == t);
    }
    assert forall|i: int, j: int| 0 <= i < j < r.len() implies r[i].header_hash
        != r[j].header_hash by {
        assert(es.contains(es[i]));
        assert(es.contains(es[j]));
        if r[i].header_hash == r[j].header_hash {
            assert(es[i].key == k && es[j].key == k);
            assert(es[i].timed.header_hash == es[j].timed.header_hash);
        }
    }
}

} // verus!
