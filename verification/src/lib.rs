//! Metadata index for a content-addressed ledger.
//!
//! The crate tracks, for every immutable header record and the entry data it
//! carries, which later records supersede it and whether the entry is still
//! considered alive. Records are referenced by opaque content hashes; the
//! index owns four key-to-many-values relations over those hashes, buffered
//! over a durable snapshot, and derives redirect resolution and liveness from
//! them.

pub mod hash;
pub mod header;
pub mod init;
pub mod laws;
pub mod metadata;
pub mod resolve;
pub mod store;
