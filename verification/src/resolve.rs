//! Redirect resolution: canonical-hash walks over the update relations.
//!
//! Resolving a header hash repeatedly looks up the updates registered
//! against the current hash and, while any exist, follows the one greatest
//! in the timed order to that update's own header hash. Resolving an entry
//! hash walks the entry-keyed update relation the same way but follows each
//! update's new entry hash, since entry redirection changes what data the
//! identifier denotes rather than which header denotes it. A hash with no
//! registered updates resolves to itself.
//!
//! Correctly validated data never cycles, but the walk must not hang on bad
//! data: it is bounded by one more than the number of pairs in the relation
//! it walks, which any acyclic chain stays within, and reports an invalid
//! chain instead of looping when the bound is exhausted.

use vstd::prelude::*;
use crate::hash::{thh_le, AnyDhtHash, EntryHash, HeaderHash};
use crate::metadata::{MetadataBuf, MetaView};
use crate::store::{distinct_pairs, key_present, KvvEntry};

verus! {

/// Classification of a metadata lookup for one identifier.
pub enum MetaGetStatus<T> {
    /// The identifier resolved to this canonical hash.
    CanonicalHash(T),
    /// The identifier's record chain ends in a tombstone.
    Deleted,
    /// Nothing is registered for the identifier.
    NotFound,
}

/// Failure of a resolution walk.
#[derive(Clone, Copy, PartialEq, Eq, Structural, Debug)]
pub enum MetaError {
    /// The redirect data cycles, or a chain exceeds the walk bound: a
    /// data-integrity alarm, never produced by acyclic chains.
    InvalidChain,
}

/// `e` is the pair filed under `k` that is greatest in the timed order.
pub open spec fn is_greatest(s: Seq<KvvEntry>, k: AnyDhtHash, e: KvvEntry) -> bool {
    &&& s.contains(e)
    &&& e.key == k
    &&& forall|o: KvvEntry| #[trigger] s.contains(o) && o.key == k ==> thh_le(o.timed, e.timed)
}

/// The pair filed under `k` that is greatest in the timed order; meaningful
/// whenever the key is present (`lemma_greatest_exists`), and then unique
/// under pair uniqueness (`lemma_greatest_unique`).
pub open spec fn greatest(s: Seq<KvvEntry>, k: AnyDhtHash) -> KvvEntry {
    choose|e: KvvEntry| is_greatest(s, k, e)
}

/// The header-identity walk, bounded by `fuel` hops: follows the greatest
/// update's own header hash until a hash with no updates is reached.
pub open spec fn resolve_header(m: MetaView, cur: HeaderHash, fuel: nat) -> Option<HeaderHash>
    decreases fuel,
{
    if !key_present(m.updates_by_header, AnyDhtHash::Header(cur)) {
        Some(cur)
    } else if fuel == 0 {
        None
    } else {
        resolve_header(
            m,
            greatest(m.updates_by_header, AnyDhtHash::Header(cur)).timed.header_hash,
            (fuel - 1) as nat,
        )
    }
}

/// The entry-identity walk, bounded by `fuel` hops: follows the greatest
/// update's new entry hash until an entry with no updates is reached.
pub open spec fn resolve_entry(m: MetaView, cur: EntryHash, fuel: nat) -> Option<EntryHash>
    decreases fuel,
{
    if !key_present(m.updates_by_entry, AnyDhtHash::Entry(cur)) {
        Some(cur)
    } else if fuel == 0 {
        None
    } else {
        match greatest(m.updates_by_entry, AnyDhtHash::Entry(cur)).target {
            AnyDhtHash::Entry(e2) => resolve_entry(m, e2, (fuel - 1) as nat),
            AnyDhtHash::Header(_) => None,
        }
    }
}

/// The bound of a header walk: one more hop than the relation has pairs,
/// which any acyclic chain stays within.
pub open spec fn header_walk_fuel(m: MetaView) -> nat {
    m.updates_by_header.len() + 1
}

/// The bound of an entry walk.
pub open spec fn entry_walk_fuel(m: MetaView) -> nat {
    m.updates_by_entry.len() + 1
}

/// What a canonical-header query returns: the walk's end, or the invalid
/// chain alarm exactly when the walk exhausts its bound.
pub open spec fn canonical_header(m: MetaView, original: HeaderHash) -> Result<
    HeaderHash,
    MetaError,
> {
    match resolve_header(m, original, header_walk_fuel(m)) {
        Some(h) => Ok(h),
        None => Err(MetaError::InvalidChain),
    }
}

/// What a canonical-entry query returns.
pub open spec fn canonical_entry(m: MetaView, original: EntryHash) -> Result<
    EntryHash,
    MetaError,
> {
    match resolve_entry(m, original, entry_walk_fuel(m)) {
        Some(e) => Ok(e),
        None => Err(MetaError::InvalidChain),
    }
}

/// Among the pairs filed under a present key there is a greatest one.
pub proof fn lemma_greatest_exists(s: Seq<KvvEntry>, k: AnyDhtHash)
    requires
        key_present(s, k),
    ensures
        is_greatest(s, k, greatest(s, k)),
    decreases s.len(),
{
    let n = s.len() as int;
    let t = s.drop_last();
    let last = s.last();
    assert forall|o: KvvEntry| #[trigger] t.contains(o) implies s.contains(o) by {
        let i = choose|i: int| 0 <= i < t.len() && t[i] == o;
        assert(s[i] == o);
    }
    if last.key == k {
        if key_present(t, k) {
            lemma_greatest_exists(t, k);
            let g = greatest(t, k);
            let cand = if thh_le(g.timed, last.timed) {
                last
            } else {
                g
            };
            assert(s[n - 1] == last);
            assert(is_greatest(s, k, cand)) by {
                assert forall|o: KvvEntry| #[trigger] s.contains(o) && o.key == k implies thh_le(
                    o.timed,
                    cand.timed,
                ) by {
                    let i = choose|i: int| 0 <= i < s.len() && s[i] == o;
                    if i < n - 1 {
                        assert(t[i] == o);
                        assert(t.contains(o));
                    }
                }
            }
        } else {
            assert(s[n - 1] == last);
            assert(is_greatest(s, k, last)) by {
                assert forall|o: KvvEntry| #[trigger] s.contains(o) && o.key == k implies thh_le(
                    o.timed,
                    last.timed,
                ) by {
                    let i = choose|i: int| 0 <= i < s.len() && s[i] == o;
                    if i < n - 1 {
                        assert(t[i] == o);
                        assert(key_present(t, k));
                    }
                }
            }
        }
    } else {
        assert(key_present(t, k)) by {
            let i = choose|i: int| 0 <= i < s.len() && s[i].key == k;
            assert(t[i] == s[i]);
        }
        lemma_greatest_exists(t, k);
        let g = greatest(t, k);
        assert(is_greatest(s, k, g)) by {
            assert forall|o: KvvEntry| #[trigger] s.contains(o) && o.key == k implies thh_le(
                o.timed,
                g.timed,
            ) by {
                let i = choose|i: int| 0 <= i < s.len() && s[i] == o;
                assert(i < n - 1);
                assert(t[i] == o);
                assert(t.contains(o));
            }
        }
    }
}

/// Under pair uniqueness the greatest pair of a key is unique, so any pair
/// shown greatest is the one the walk follows.
pub proof fn lemma_greatest_unique(s: Seq<KvvEntry>, k: AnyDhtHash, e: KvvEntry)
    requires
        distinct_pairs(s),
        is_greatest(s, k, e),
    ensures
        greatest(s, k) == e,
{
    let g = greatest(s, k);
    assert(is_greatest(s, k, g));
    assert(thh_le(e.timed, g.timed));
    assert(thh_le(g.timed, e.timed));
    assert(e.timed == g.timed);
    let i = choose|i: int| 0 <= i < s.len() && s[i] == e;
    let j = choose|j: int| 0 <= j < s.len() && s[j] == g;
    if i != j {
        assert(s[i].key == s[j].key && s[i].timed.header_hash == s[j].timed.header_hash);
        assert(false);
    }
}

impl MetadataBuf {
    /// Follows the update chain from a header hash to the header hash that
    /// currently represents it: while updates are registered against the
    /// current hash, the greatest of them in the timed order supplies the
    /// next hash. A hash with no registered updates resolves to itself;
    /// cyclic redirect data is reported as an invalid chain instead of
    /// hanging the walk.
    pub fn get_canonical_header_hash(&self, original: HeaderHash) -> (r: Result<
        HeaderHash,
        MetaError,
    >)
        requires
            self.wf(),
        ensures
            r == canonical_header(self@, original),
    {
        let ghost m = self@;
        let mut cur = original;
        let mut fuel: u128 = self.updates_by_header.walk_budget();
        loop
            invariant
                self.wf(),
                m == self@,
                fuel as nat <= header_walk_fuel(m),
                resolve_header(m, original, header_walk_fuel(m)) == resolve_header(
                    m,
                    cur,
                    fuel as nat,
                ),
            decreases fuel,
        {
            let key = AnyDhtHash::Header(cur);
            let ups = self.updates_by_header.get(key);
            if ups.len() == 0 {
                proof {
                    assert(!key_present(m.updates_by_header, key)) by {
                        if key_present(m.updates_by_header, key) {
                            let i = choose|i: int|
                                0 <= i < m.updates_by_header.len() && m.updates_by_header[i].key
                                    == key;
                            assert(m.updates_by_header.contains(m.updates_by_header[i]));
                            assert(ups@.contains(m.updates_by_header[i]));
                        }
                    }
                }
                return Ok(cur);
            }
            proof {
                assert(ups@.contains(ups@[0]));
                let e0 = ups@[0];
                let i = choose|i: int|
                    0 <= i < m.updates_by_header.len() && m.updates_by_header[i] == e0;
                assert(key_present(m.updates_by_header, key));
            }
            if fuel == 0 {
                return Err(MetaError::InvalidChain);
            }
            let best = max_pair(&ups);
            proof {
                assert(m.updates_by_header.contains(best) && best.key == key);
                assert(is_greatest(m.updates_by_header, key, best)) by {
                    assert forall|o: KvvEntry| #[trigger] m.updates_by_header.contains(o) && o.key
                        == key implies thh_le(o.timed, best.timed) by {
                        assert(ups@.contains(o));
                    }
                }
                lemma_greatest_unique(m.updates_by_header, key, best);
            }
            cur = best.timed.header_hash;
            fuel = fuel - 1;
        }
    }

    /// Follows the update chain from an entry hash to the entry hash that
    /// currently carries its data: while entry-redirecting updates are
    /// registered against the current entry, the greatest of them supplies
    /// the next entry hash. An entry with no registered updates resolves to
    /// itself; cyclic redirect data is reported as an invalid chain.
    pub fn get_canonical_entry_hash(&self, original: EntryHash) -> (r: Result<
        EntryHash,
        MetaError,
    >)
        requires
            self.wf(),
        ensures
            r == canonical_entry(self@, original),
    {
        let ghost m = self@;
        let mut cur = original;
        let mut fuel: u128 = self.updates_by_entry.walk_budget();
        loop
            invariant
                self.wf(),
                m == self@,
                fuel as nat <= entry_walk_fuel(m),
                resolve_entry(m, original, entry_walk_fuel(m)) == resolve_entry(
                    m,
                    cur,
                    fuel as nat,
                ),
            decreases fuel,
        {
            let key = AnyDhtHash::Entry(cur);
            let ups = self.updates_by_entry.get(key);
            if ups.len() == 0 {
                proof {
                    assert(!key_present(m.updates_by_entry, key)) by {
                        if key_present(m.updates_by_entry, key) {
                            let i = choose|i: int|
                                0 <= i < m.updates_by_entry.len() && m.updates_by_entry[i].key
                                    == key;
                            assert(m.updates_by_entry.contains(m.updates_by_entry[i]));
                            assert(ups@.contains(m.updates_by_entry[i]));
                        }
                    }
                }
                return Ok(cur);
            }
            proof {
                assert(ups@.contains(ups@[0]));
                let e0 = ups@[0];
                let i = choose|i: int|
                    0 <= i < m.updates_by_entry.len() && m.updates_by_entry[i] == e0;
                assert(key_present(m.updates_by_entry, key));
            }
            if fuel == 0 {
                return Err(MetaError::InvalidChain);
            }
            let best = max_pair(&ups);
            proof {
                assert(m.updates_by_entry.contains(best) && best.key == key);
                assert(is_greatest(m.updates_by_entry, key, best)) by {
                    assert forall|o: KvvEntry| #[trigger] m.updates_by_entry.contains(o) && o.key
                        == key implies thh_le(o.timed, best.timed) by {
                        assert(ups@.contains(o));
                    }
                }
                lemma_greatest_unique(m.updates_by_entry, key, best);
            }
            match best.target {
                AnyDhtHash::Entry(e2) => {
                    cur = e2;
                    fuel = fuel - 1;
                }
                AnyDhtHash::Header(_) => {
                    proof {
                        let i = choose|i: int|
                            0 <= i < m.updates_by_entry.len() && m.updates_by_entry[i] == best;
                        assert(m.updates_by_entry[i].target is Entry);
                        assert(false);
                    }
                    return Err(MetaError::InvalidChain);
                }
            }
        }
    }
}

/// The element of a non-empty vector greatest in the timed order.
fn max_pair(es: &Vec<KvvEntry>) -> (r: KvvEntry)
    requires
        es@.len() > 0,
    ensures
        es@.contains(r),
        forall|o: KvvEntry| #[trigger] es@.contains(o) ==> thh_le(o.timed, r.timed),
{
    let mut best = es[0];
    proof {
        assert(es@.contains(es@[0]));
    }
    let n = es.len();
    let mut i: usize = 1;
    while i < n
        invariant
            n == es@.len(),
            1 <= i <= n,
            es@.contains(best),
            forall|p: int| 0 <= p < i ==> thh_le(es@[p].timed, best.timed),
        decreases n - i,
    {
        if best.timed.le(&es[i].timed) {
            best = es[i];
            proof {
                assert(es@.contains(es@[i as int]));
            }
        }
        i += 1;
    }
    proof {
        assert forall|o: KvvEntry| #[trigger] es@.contains(o) implies thh_le(o.timed, best.timed)
            by {
            let p = choose|p: int| 0 <= p < es@.len() && es@[p] == o;
            assert(thh_le(es@[p].timed, best.timed));
        }
    }
    best
}

} // verus!
