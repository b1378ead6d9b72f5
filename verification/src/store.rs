//! Buffered key-to-many-values store.
//!
//! One `KvvTable` is a durable table of `(key, timed hash)` pairs; one
//! `KvvStore` is a transactional view over such a table: a snapshot taken
//! when the store is opened plus an in-memory buffer of insertions. Reads
//! merge snapshot and buffer and therefore see the store's own uncommitted
//! writes; nothing reaches the table until the buffer is flushed into it
//! inside a caller-held write transaction. The domain never removes a pair,
//! only adds them, so the buffer holds insertions alone.
//!
//! Pairs are unique per `(key, header hash)`: inserting a pair whose key and
//! header hash are already present is a no-op, which makes registration
//! idempotent.

use vstd::prelude::*;
use crate::hash::{AnyDhtHash, HeaderHash, TimedHeaderHash};

verus! {

/// One indexed pair: a key, the timed hash filed under it, and the
/// identifier the recorded header introduces (the redirect target followed
/// by canonical-hash resolution).
#[derive(Clone, Copy, PartialEq, Eq, Structural, Debug)]
pub struct KvvEntry {
    /// The key this pair is filed under.
    pub key: AnyDhtHash,
    /// The registered header's timed hash.
    pub timed: TimedHeaderHash,
    /// The identifier the registered header introduces.
    pub target: AnyDhtHash,
}

/// Some pair with key `k` and header hash `h` is present.
pub open spec fn has_pair(s: Seq<KvvEntry>, k: AnyDhtHash, h: HeaderHash) -> bool {
    exists|i: int| 0 <= i < s.len() && s[i].key == k && s[i].timed.header_hash == h
}

/// Some pair with key `k` is present.
pub open spec fn key_present(s: Seq<KvvEntry>, k: AnyDhtHash) -> bool {
    exists|i: int| 0 <= i < s.len() && s[i].key == k
}

/// Some pair with key `k` carries exactly the timed hash `t`.
pub open spec fn has_timed(s: Seq<KvvEntry>, k: AnyDhtHash, t: TimedHeaderHash) -> bool {
    exists|i: int| 0 <= i < s.len() && s[i].key == k && s[i].timed == t
}

/// No two pairs share a `(key, header hash)`.
pub open spec fn distinct_pairs(s: Seq<KvvEntry>) -> bool {
    forall|i: int, j: int|
        0 <= i < j < s.len() ==> !(s[i].key == s[j].key && s[i].timed.header_hash
            == s[j].timed.header_hash)
}

/// What one insertion does to a sequence of pairs: appends the pair unless
/// its `(key, header hash)` is already present.
pub open spec fn insert_effect(s: Seq<KvvEntry>, e: KvvEntry) -> Seq<KvvEntry> {
    if has_pair(s, e.key, e.timed.header_hash) {
        s
    } else {
        s.push(e)
    }
}

/// What a commit does to a durable table: every buffered pair inserted in
/// order, each a no-op if its `(key, header hash)` is already durable.
pub open spec fn merge_into(t: Seq<KvvEntry>, s: Seq<KvvEntry>) -> Seq<KvvEntry>
    decreases s.len(),
{
    if s.len() == 0 {
        t
    } else {
        merge_into(insert_effect(t, s.first()), s.drop_first())
    }
}

/// Presence of a `(key, header hash)` in a concatenation splits over the parts.
pub proof fn lemma_has_pair_add(a: Seq<KvvEntry>, b: Seq<KvvEntry>, k: AnyDhtHash, h: HeaderHash)
    ensures
        has_pair(a + b, k, h) <==> (has_pair(a, k, h) || has_pair(b, k, h)),
{
    if has_pair(a, k, h) {
        let i = choose|i: int| 0 <= i < a.len() && a[i].key == k && a[i].timed.header_hash == h;
        assert((a + b)[i].key == k && (a + b)[i].timed.header_hash == h);
    }
    if has_pair(b, k, h) {
        let i = choose|i: int| 0 <= i < b.len() && b[i].key == k && b[i].timed.header_hash == h;
        assert((a + b)[a.len() + i].key == k && (a + b)[a.len() + i].timed.header_hash == h);
    }
    if has_pair(a + b, k, h) {
        let i = choose|i: int|
            0 <= i < (a + b).len() && (a + b)[i].key == k && (a + b)[i].timed.header_hash == h;
        if i < a.len() {
            assert(a[i].key == k && a[i].timed.header_hash == h);
        } else {
            assert(b[i - a.len()].key == k && b[i - a.len()].timed.header_hash == h);
        }
    }
}

/// Presence of a key in a concatenation splits over the parts.
pub proof fn lemma_key_present_add(a: Seq<KvvEntry>, b: Seq<KvvEntry>, k: AnyDhtHash)
    ensures
        key_present(a + b, k) <==> (key_present(a, k) || key_present(b, k)),
{
    if key_present(a, k) {
        let i = choose|i: int| 0 <= i < a.len() && a[i].key == k;
        assert((a + b)[i].key == k);
    }
    if key_present(b, k) {
        let i = choose|i: int| 0 <= i < b.len() && b[i].key == k;
        assert((a + b)[a.len() + i].key == k);
    }
    if key_present(a + b, k) {
        let i = choose|i: int| 0 <= i < (a + b).len() && (a + b)[i].key == k;
        if i < a.len() {
            assert(a[i].key == k);
        } else {
            assert(b[i - a.len()].key == k);
        }
    }
}

/// Inserting preserves pair uniqueness.
pub proof fn lemma_insert_effect_distinct(s: Seq<KvvEntry>, e: KvvEntry)
    requires
        distinct_pairs(s),
    ensures
        distinct_pairs(insert_effect(s, e)),
{
    if !has_pair(s, e.key, e.timed.header_hash) {
        let r = s.push(e);
        assert forall|i: int, j: int| 0 <= i < j < r.len() implies !(r[i].key == r[j].key
            && r[i].timed.header_hash == r[j].timed.header_hash) by {
            if j == s.len() {
                assert(r[i] == s[i]);
                if r[i].key == e.key && r[i].timed.header_hash == e.timed.header_hash {
                    assert(has_pair(s, e.key, e.timed.header_hash));
                }
            } else {
                assert(r[i] == s[i] && r[j] == s[j]);
            }
        }
    }
}

/// Inserting the same pair twice is the same as inserting it once.
pub proof fn lemma_insert_effect_idempotent(s: Seq<KvvEntry>, e: KvvEntry)
    ensures
        insert_effect(insert_effect(s, e), e) == insert_effect(s, e),
{
    if !has_pair(s, e.key, e.timed.header_hash) {
        let r = s.push(e);
        assert(r[s.len() as int] == e);
        assert(has_pair(r, e.key, e.timed.header_hash));
    }
}

/// Merging preserves pair uniqueness of the durable table.
pub proof fn lemma_merge_into_distinct(t: Seq<KvvEntry>, s: Seq<KvvEntry>)
    requires
        distinct_pairs(t),
    ensures
        distinct_pairs(merge_into(t, s)),
    decreases s.len(),
{
    if s.len() != 0 {
        lemma_insert_effect_distinct(t, s.first());
        lemma_merge_into_distinct(insert_effect(t, s.first()), s.drop_first());
    }
}

/// When no buffered pair collides with the table or with another buffered
/// pair, a merge is exactly concatenation: what a reader of the merged view
/// saw before the commit is what a reader of the table sees after it.
pub proof fn lemma_merge_into_fresh(t: Seq<KvvEntry>, s: Seq<KvvEntry>)
    requires
        distinct_pairs(t + s),
    ensures
        merge_into(t, s) == t + s,
    decreases s.len(),
{
    if s.len() == 0 {
        assert(merge_into(t, s) =~= t + s);
    } else {
        let e = s.first();
        assert((t + s)[t.len() as int] == e);
        assert(!has_pair(t, e.key, e.timed.header_hash)) by {
            if has_pair(t, e.key, e.timed.header_hash) {
                let i = choose|i: int|
                    0 <= i < t.len() && t[i].key == e.key && t[i].timed.header_hash
                        == e.timed.header_hash;
                assert((t + s)[i] == t[i]);
            }
        }
        assert(t.push(e) + s.drop_first() =~= t + s);
        lemma_merge_into_fresh(t.push(e), s.drop_first());
    }
}

/// A durable table: the pairs of one index as committed storage.
pub struct KvvTable {
    /// The committed pairs, in commit order.
    pub entries: Vec<KvvEntry>,
}

impl View for KvvTable {
    type V = Seq<KvvEntry>;

    open spec fn view(&self) -> Seq<KvvEntry> {
        self.entries@
    }
}

impl KvvTable {
    /// A table with nothing committed.
    pub fn new() -> (t: KvvTable)
        ensures
            t@ == Seq::<KvvEntry>::empty(),
    {
        KvvTable { entries: Vec::new() }
    }

    /// Pair uniqueness of the committed pairs.
    pub open spec fn wf(self) -> bool {
        distinct_pairs(self@)
    }
}

/// A buffered view over one durable table: the snapshot read when the store
/// was opened, plus buffered insertions not yet committed.
pub struct KvvStore {
    /// The table's contents as read when the store was opened.
    pub snapshot: Vec<KvvEntry>,
    /// Buffered insertions, not yet committed.
    pub scratch: Vec<KvvEntry>,
}

impl View for KvvStore {
    type V = Seq<KvvEntry>;

    open spec fn view(&self) -> Seq<KvvEntry> {
        self.snapshot@ + self.scratch@
    }
}

impl KvvStore {
    /// The snapshot part of the merged view.
    pub open spec fn snap(self) -> Seq<KvvEntry> {
        self.snapshot@
    }

    /// The buffered, uncommitted part of the merged view.
    pub open spec fn scr(self) -> Seq<KvvEntry> {
        self.scratch@
    }

    /// Pair uniqueness across snapshot and buffer together.
    pub open spec fn wf(self) -> bool {
        distinct_pairs(self@)
    }

    /// Opens a store over a table: the snapshot is the table's current
    /// contents and the buffer starts empty. Later writers of the table are
    /// invisible to this store.
    pub fn open(table: &KvvTable) -> (s: KvvStore)
        ensures
            s.snap() == table@,
            s.scr() == Seq::<KvvEntry>::empty(),
            s@ == table@,
            table.wf() ==> s.wf(),
    {
        let mut snapshot: Vec<KvvEntry> = Vec::new();
        let n = table.entries.len();
        let mut i: usize = 0;
        while i < n
            invariant
                n == table.entries.len(),
                i <= n,
                snapshot@ =~= table.entries@.take(i as int),
            decreases n - i,
        {
            snapshot.push(table.entries[i]);
            i += 1;
        }
        proof {
            assert(snapshot@ =~= table.entries@);
        }
        let s = KvvStore { snapshot, scratch: Vec::new() };
        proof {
            assert(s@ =~= table@);
        }
        s
    }

    /// Whether some pair with this key and header hash is present in the
    /// merged view.
    pub fn has_hash(&self, k: AnyDhtHash, h: HeaderHash) -> (r: bool)
        ensures
            r == has_pair(self@, k, h),
    {
        let in_snapshot = vec_has_pair(&self.snapshot, k, h);
        let in_scratch = vec_has_pair(&self.scratch, k, h);
        proof {
            lemma_has_pair_add(self.snapshot@, self.scratch@, k, h);
        }
        in_snapshot || in_scratch
    }

    /// Whether some pair with this key is present in the merged view.
    pub fn has_key(&self, k: AnyDhtHash) -> (r: bool)
        ensures
            r == key_present(self@, k),
    {
        let in_snapshot = vec_has_key(&self.snapshot, k);
        let in_scratch = vec_has_key(&self.scratch, k);
        proof {
            lemma_key_present_add(self.snapshot@, self.scratch@, k);
        }
        in_snapshot || in_scratch
    }

    /// Buffers one pair; a no-op if its `(key, header hash)` is already in
    /// the merged view. The snapshot is never touched.
    pub fn insert(&mut self, e: KvvEntry)
        ensures
            final(self)@ == insert_effect(old(self)@, e),
            final(self).snap() == old(self).snap(),
            old(self).wf() ==> final(self).wf(),
    {
        proof {
            if old(self).wf() {
                lemma_insert_effect_distinct(old(self)@, e);
            }
        }
        if !self.has_hash(e.key, e.timed.header_hash) {
            self.scratch.push(e);
            proof {
                assert(self@ =~= old(self)@.push(e));
            }
        }
    }

    /// The pairs of the merged view filed under one key, deduplicated by
    /// `(key, header hash)` like the view itself.
    pub fn get(&self, k: AnyDhtHash) -> (r: Vec<KvvEntry>)
        requires
            self.wf(),
        ensures
            forall|e: KvvEntry|
                #[trigger] r@.contains(e) <==> (self@.contains(e) && e.key == k),
            distinct_pairs(r@),
    {
        let mut r: Vec<KvvEntry> = Vec::new();
        let ghost whole = self@;
        let n1 = self.snapshot.len();
        let mut i: usize = 0;
        while i < n1
            invariant
                self.wf(),
                whole == self@,
                n1 == self.snapshot@.len(),
                i <= n1,
                distinct_pairs(r@),
                forall|e: KvvEntry|
                    #[trigger] r@.contains(e) <==> exists|j: int|
                        0 <= j < i && whole[j] == e && e.key == k,
            decreases n1 - i,
        {
            let e = self.snapshot[i];
            let ghost prev = r@;
            proof {
                assert(whole[i as int] == e);
            }
            if e.key == k {
                r.push(e);
            }
            proof {
                lemma_filter_step(whole, prev, r@, k, i as int);
            }
            i += 1;
        }
        let n2 = self.scratch.len();
        let mut m: usize = 0;
        while m < n2
            invariant
                self.wf(),
                whole == self@,
                n1 == self.snapshot@.len(),
                n2 == self.scratch@.len(),
                m <= n2,
                distinct_pairs(r@),
                forall|e: KvvEntry|
                    #[trigger] r@.contains(e) <==> exists|j: int|
                        0 <= j < n1 + m && whole[j] == e && e.key == k,
            decreases n2 - m,
        {
            let e = self.scratch[m];
            let ghost prev = r@;
            proof {
                assert(whole[n1 + m as int] == e);
            }
            if e.key == k {
                r.push(e);
            }
            proof {
                lemma_filter_step(whole, prev, r@, k, n1 + m as int);
            }
            m += 1;
        }
        proof {
            assert forall|e: KvvEntry| #[trigger] r@.contains(e) <==> (whole.contains(e) && e.key
                == k) by {
                if r@.contains(e) {
                    let j = choose|j: int| 0 <= j < n1 + n2 && whole[j] == e && e.key == k;
                    assert(whole.contains(e));
                }
                if whole.contains(e) && e.key == k {
                    let j = choose|j: int| 0 <= j < whole.len() && whole[j] == e;
                    assert(0 <= j < n1 + n2 && whole[j] == e && e.key == k);
                }
            }
        }
        r
    }

        /// An upper bound for a redirect walk over this store: one more than the
    /// number of pairs in the merged view.
    pub fn walk_budget(&self) -> (n: u128)
        ensures
            n == self@.len() + 1,
    {
        self.snapshot.len() as u128 + self.scratch.len() as u128 + 1
    }

    /// Commits the buffer: merges every buffered pair into the table inside
    /// the caller's write transaction and consumes the store. Pairs whose
    /// `(key, header hash)` reached the table through another store are not
    /// duplicated; committing an empty buffer leaves the table unchanged.
    pub fn flush_to_table(self, table: &mut KvvTable)
        ensures
            final(table)@ == merge_into(old(table)@, self.scr()),
            old(table).wf() ==> final(table).wf(),
    {
        proof {
            if distinct_pairs(old(table)@) {
                lemma_merge_into_distinct(old(table)@, self.scr());
            }
        }
        let scratch = self.scratch;
        proof {
            assert(scratch@.skip(0) =~= scratch@);
        }
        let n = scratch.len();
        let mut i: usize = 0;
        while i < n
            invariant
                n == scratch@.len(),
                i <= n,
                merge_into(old(table)@, scratch@) == merge_into(table@, scratch@.skip(i as int)),
            decreases n - i,
        {
            let e = scratch[i];
            let ghost before = table@;
            proof {
                assert(scratch@.skip(i as int).first() == e);
                assert(scratch@.skip(i as int).drop_first() =~= scratch@.skip(i as int + 1));
            }
            if !vec_has_pair(&table.entries, e.key, e.timed.header_hash) {
                table.entries.push(e);
                proof {
                    assert(table@ =~= insert_effect(before, e));
                }
            } else {
                proof {
                    assert(table@ =~= insert_effect(before, e));
                }
            }
            i += 1;
        }
        proof {
            assert(scratch@.skip(n as int) =~= Seq::<KvvEntry>::empty());
        }
    }
}

/// One step of filtering a pairwise-unique sequence by key: extends the
/// collected pairs by position `idx` when its key matches, keeping both the
/// membership characterization and pair uniqueness of the collection.
proof fn lemma_filter_step(
    whole: Seq<KvvEntry>,
    prev: Seq<KvvEntry>,
    cur: Seq<KvvEntry>,
    k: AnyDhtHash,
    idx: int,
)
    requires
        distinct_pairs(whole),
        0 <= idx < whole.len(),
        distinct_pairs(prev),
        forall|x: KvvEntry|
            #[trigger] prev.contains(x) <==> exists|j: int|
                0 <= j < idx && whole[j] == x && x.key == k,
        cur == if whole[idx].key == k {
            prev.push(whole[idx])
        } else {
            prev
        },
    ensures
        distinct_pairs(cur),
        forall|x: KvvEntry|
            #[trigger] cur.contains(x) <==> exists|j: int|
                0 <= j < idx + 1 && whole[j] == x && x.key == k,
{
    let e = whole[idx];
    if e.key == k {
        assert(cur[prev.len() as int] == e);
        assert forall|x: KvvEntry| #[trigger] cur.contains(x) implies exists|j: int|
            0 <= j < idx + 1 && whole[j] == x && x.key == k by {
            let p = choose|p: int| 0 <= p < cur.len() && cur[p] == x;
            if p < prev.len() {
                assert(prev.contains(x));
                let j = choose|j: int| 0 <= j < idx && whole[j] == x && x.key == k;
                assert(0 <= j < idx + 1 && whole[j] == x && x.key == k);
            } else {
                assert(x == e);
                assert(whole[idx] == x && x.key == k);
            }
        }
        assert forall|x: KvvEntry| (exists|j: int|
            0 <= j < idx + 1 && whole[j] == x && x.key == k) implies #[trigger] cur.contains(
            x,
        ) by {
            let j = choose|j: int| 0 <= j < idx + 1 && whole[j] == x && x.key == k;
            if j < idx {
                assert(prev.contains(x));
                let p = choose|p: int| 0 <= p < prev.len() && prev[p] == x;
                assert(cur[p] == x);
            } else {
                assert(cur[prev.len() as int] == x);
            }
        }
        assert forall|p: int, q: int| 0 <= p < q < cur.len() implies !(cur[p].key == cur[q].key
            && cur[p].timed.header_hash == cur[q].timed.header_hash) by {
            if q == prev.len() {
                assert(cur[p] == prev[p]);
                assert(prev.contains(prev[p]));
                let j = choose|j: int| 0 <= j < idx && whole[j] == prev[p] && prev[p].key == k;
                if cur[p].key == e.key && cur[p].timed.header_hash == e.timed.header_hash {
                    assert(whole[j].key == whole[idx].key && whole[j].timed.header_hash
                        == whole[idx].timed.header_hash);
                }
            } else {
                assert(cur[p] == prev[p] && cur[q] == prev[q]);
            }
        }
    } else {
        assert forall|x: KvvEntry| (exists|j: int|
            0 <= j < idx + 1 && whole[j] == x && x.key == k) implies #[trigger] cur.contains(
            x,
        ) by {
            let j = choose|j: int| 0 <= j < idx + 1 && whole[j] == x && x.key == k;
            assert(0 <= j < idx && whole[j] == x && x.key == k);
            assert(prev.contains(x));
        }
        assert forall|x: KvvEntry| #[trigger] cur.contains(x) implies exists|j: int|
            0 <= j < idx + 1 && whole[j] == x && x.key == k by {
            assert(prev.contains(x));
            let j = choose|j: int| 0 <= j < idx && whole[j] == x && x.key == k;
            assert(0 <= j < idx + 1 && whole[j] == x && x.key == k);
        }
    }
}

/// Scans one vector for a `(key, header hash)` pair.
fn vec_has_pair(v: &Vec<KvvEntry>, k: AnyDhtHash, h: HeaderHash) -> (r: bool)
    ensures
        r == has_pair(v@, k, h),
{
    let n = v.len();
    let mut i: usize = 0;
    while i < n
        invariant
            n == v@.len(),
            i <= n,
            forall|j: int| 0 <= j < i ==> !(v@[j].key == k && v@[j].timed.header_hash == h),
        decreases n - i,
    {
        if v[i].key == k && v[i].timed.header_hash == h {
            return true;
        }
        i += 1;
    }
    false
}

/// Scans one vector for a key.
fn vec_has_key(v: &Vec<KvvEntry>, k: AnyDhtHash) -> (r: bool)
    ensures
        r == key_present(v@, k),
{
    let n = v.len();
    let mut i: usize = 0;
    while i < n
        invariant
            n == v@.len(),
            i <= n,
            forall|j: int| 0 <= j < i ==> v@[j].key != k,
        decreases n - i,
    {
        if v[i].key == k {
            return true;
        }
        i += 1;
    }
    false
}

} // verus!
