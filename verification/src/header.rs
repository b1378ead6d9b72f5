//! The three header shapes the index registers.
//!
//! Headers themselves are owned by an upstream content-addressed store; the
//! index only ever sees the fields it needs, each header referenced by its
//! own already-computed hash. Validation happens upstream: by the time a
//! header reaches the registration functions it is already decided input.

use vstd::prelude::*;
use crate::hash::{EntryHash, HeaderHash, TimedHeaderHash};

verus! {

/// Declares whether an update redirects the header identity or the entry
/// identity of the record it replaces.
#[derive(Clone, Copy, PartialEq, Eq, Structural, Debug)]
pub enum IntendedFor {
    Header,
    Entry,
}

/// A create header: introduces a new entry.
#[derive(Clone, Copy, PartialEq, Eq, Structural, Debug)]
pub struct EntryCreate {
    /// Timestamp carried by the header.
    pub timestamp: u64,
    /// The header's own content hash.
    pub header_hash: HeaderHash,
    /// The entry this header introduces.
    pub entry_hash: EntryHash,
}

/// An update header: supersedes an earlier header and carries a new entry.
#[derive(Clone, Copy, PartialEq, Eq, Structural, Debug)]
pub struct EntryUpdate {
    /// Timestamp carried by the header.
    pub timestamp: u64,
    /// The header's own content hash.
    pub header_hash: HeaderHash,
    /// The header this update supersedes.
    pub replaces_address: HeaderHash,
    /// The new entry this update introduces.
    pub entry_hash: EntryHash,
    /// Whether the header identity or the entry identity is redirected.
    pub intended_for: IntendedFor,
}

/// A delete header: tombstones one earlier header.
#[derive(Clone, Copy, PartialEq, Eq, Structural, Debug)]
pub struct ElementDelete {
    /// Timestamp carried by the header.
    pub timestamp: u64,
    /// The header's own content hash.
    pub header_hash: HeaderHash,
    /// The header being tombstoned.
    pub removes_address: HeaderHash,
}

/// A header that introduces an entry: a create, or an update that carries
/// the entry's next version.
#[derive(Clone, Copy, PartialEq, Eq, Structural, Debug)]
pub enum NewEntryHeader {
    Create(EntryCreate),
    Update(EntryUpdate),
}

impl EntryCreate {
    /// The timed hash under which this header is indexed.
    pub open spec fn timed(self) -> TimedHeaderHash {
        TimedHeaderHash { timestamp: self.timestamp, header_hash: self.header_hash }
    }
}

impl EntryUpdate {
    /// The timed hash under which this header is indexed.
    pub open spec fn timed(self) -> TimedHeaderHash {
        TimedHeaderHash { timestamp: self.timestamp, header_hash: self.header_hash }
    }
}

impl ElementDelete {
    /// The timed hash under which this header is indexed.
    pub open spec fn timed(self) -> TimedHeaderHash {
        TimedHeaderHash { timestamp: self.timestamp, header_hash: self.header_hash }
    }
}

} // verus!
