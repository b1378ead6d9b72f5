//! Content-addressed identifiers and the total order used for deterministic
//! iteration and tie-breaking.
//!
//! A hash is an opaque fixed-width identifier: equality is byte equality and
//! no other structure is assumed. `TimedHeaderHash` pairs a header hash with
//! the header's timestamp; its total order (timestamp first, hash bytes as a
//! tie-break) carries no consensus meaning and exists only so that entries
//! sharing a key can be enumerated deterministically.

use vstd::prelude::*;

verus! {

/// Identifier of a header record: an opaque fixed-width content digest,
/// held as two 64-bit limbs ordered most significant first.
#[derive(Clone, Copy, PartialEq, Eq, Structural, Debug, Hash, PartialOrd, Ord)]
pub struct HeaderHash {
    pub hi: u64,
    pub lo: u64,
}

/// Identifier of an entry payload, with the same shape as `HeaderHash`.
#[derive(Clone, Copy, PartialEq, Eq, Structural, Debug, Hash, PartialOrd, Ord)]
pub struct EntryHash {
    pub hi: u64,
    pub lo: u64,
}

/// Either kind of identifier; the index keys every relation by this type.
#[derive(Clone, Copy, PartialEq, Eq, Structural, Debug, Hash)]
pub enum AnyDhtHash {
    Header(HeaderHash),
    Entry(EntryHash),
}

/// A header hash together with the header's timestamp, the value type of
/// every index so that values sharing a key order deterministically.
#[derive(Clone, Copy, PartialEq, Eq, Structural, Debug, Hash, PartialOrd, Ord)]
pub struct TimedHeaderHash {
    pub timestamp: u64,
    pub header_hash: HeaderHash,
}

/// Byte-lexicographic strict order on header hashes.
pub open spec fn hash_lt(a: HeaderHash, b: HeaderHash) -> bool {
    a.hi < b.hi || (a.hi == b.hi && a.lo < b.lo)
}

/// Strict total order on timed hashes: timestamp ascending, then hash
/// bytes ascending as a tie-break.
pub open spec fn thh_lt(a: TimedHeaderHash, b: TimedHeaderHash) -> bool {
    a.timestamp < b.timestamp || (a.timestamp == b.timestamp && hash_lt(a.header_hash, b.header_hash))
}

/// Reflexive closure of `thh_lt`.
pub open spec fn thh_le(a: TimedHeaderHash, b: TimedHeaderHash) -> bool {
    thh_lt(a, b) || a == b
}

/// `thh_le` is a total order: total, antisymmetric and transitive.
pub proof fn lemma_thh_total_order()
    ensures
        forall|a: TimedHeaderHash, b: TimedHeaderHash| #[trigger] thh_le(a, b) || thh_le(b, a),
        forall|a: TimedHeaderHash, b: TimedHeaderHash| #[trigger] thh_le(a, b) && thh_le(b, a) ==> a == b,
        forall|a: TimedHeaderHash, b: TimedHeaderHash, c: TimedHeaderHash|
            #[trigger] thh_le(a, b) && #[trigger] thh_le(b, c) ==> thh_le(a, c),
{
}

impl TimedHeaderHash {
    /// Decides the total order of two timed hashes.
    pub fn le(&self, other: &TimedHeaderHash) -> (r: bool)
        ensures
            r == thh_le(*self, *other),
    {
        if self.timestamp != other.timestamp {
            self.timestamp < other.timestamp
        } else if self.header_hash.hi != other.header_hash.hi {
            self.header_hash.hi < other.header_hash.hi
        } else {
            self.header_hash.lo <= other.header_hash.lo
        }
    }
}

} // verus!
