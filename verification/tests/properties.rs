//! Scenario tests for the stated properties of the index: idempotency,
//! resolution identity, chained redirects, order independence, reanimation,
//! the cycle guard and durability.

use dht_meta::hash::{AnyDhtHash, EntryHash, HeaderHash};
use dht_meta::header::{ElementDelete, EntryCreate, EntryUpdate, IntendedFor, NewEntryHeader};
use dht_meta::metadata::{Db, EntryDhtStatus, MetadataBuf};
use dht_meta::resolve::MetaError;

fn hh(n: u64) -> HeaderHash {
    HeaderHash { hi: 3, lo: n }
}

fn eh(n: u64) -> EntryHash {
    EntryHash { hi: 5, lo: n }
}

fn create(ts: u64, own: u64, entry: EntryHash) -> EntryCreate {
    EntryCreate { timestamp: ts, header_hash: hh(own), entry_hash: entry }
}

fn update(ts: u64, own: u64, replaces: HeaderHash, entry: EntryHash, intended_for: IntendedFor) -> EntryUpdate {
    EntryUpdate {
        timestamp: ts,
        header_hash: hh(own),
        replaces_address: replaces,
        entry_hash: entry,
        intended_for,
    }
}

fn delete(ts: u64, own: u64, removes: HeaderHash) -> ElementDelete {
    ElementDelete { timestamp: ts, header_hash: hh(own), removes_address: removes }
}

/// Registering the same create twice files it once and leaves the status
/// as after one registration.
#[test]
fn idempotent_registration() {
    let db = Db::new();
    let mut buf = MetadataBuf::primary(&db);
    let e = eh(0);
    let c = create(1, 100, e);
    buf.register_header(NewEntryHeader::Create(c));
    buf.register_header(NewEntryHeader::Create(c));
    assert_eq!(buf.get_headers(e).len(), 1);
    assert_eq!(buf.get_dht_status(e), EntryDhtStatus::Live);

    let d = delete(2, 101, c.header_hash);
    buf.register_delete(d, e);
    buf.register_delete(d, e);
    assert_eq!(buf.get_deletes_on_header(c.header_hash).len(), 1);
    assert_eq!(buf.get_dht_status(e), EntryDhtStatus::Dead);

    let u = update(3, 102, c.header_hash, eh(1), IntendedFor::Entry);
    buf.register_update(u, Some(e));
    buf.register_update(u, Some(e));
    assert_eq!(buf.get_updates(AnyDhtHash::Entry(e)).len(), 1);
    assert_eq!(buf.get_updates(AnyDhtHash::Header(c.header_hash)).len(), 1);
}

/// A hash with no registered updates resolves to itself.
#[test]
fn resolution_identity() {
    let db = Db::new();
    let buf = MetadataBuf::primary(&db);
    assert_eq!(buf.get_canonical_header_hash(hh(1)).unwrap(), hh(1));
    assert_eq!(buf.get_canonical_entry_hash(eh(1)).unwrap(), eh(1));
}

/// An entry redirect chain whose updates are each registered against the
/// entry they replace resolves hop by hop to the newest entry.
#[test]
fn entry_chain_three_hops_chained_originals() {
    let db = Db::new();
    let mut buf = MetadataBuf::primary(&db);
    let e0 = eh(0);
    let c = create(1, 100, e0);
    let u1 = update(2, 101, c.header_hash, eh(1), IntendedFor::Entry);
    let u2 = update(3, 102, u1.header_hash, eh(2), IntendedFor::Entry);
    let u3 = update(4, 103, u2.header_hash, eh(3), IntendedFor::Entry);
    buf.register_update(u1, Some(e0));
    buf.register_update(u2, Some(eh(1)));
    buf.register_update(u3, Some(eh(2)));
    assert_eq!(buf.get_canonical_entry_hash(e0).unwrap(), eh(3));
    assert_eq!(buf.get_canonical_entry_hash(eh(1)).unwrap(), eh(3));
    assert_eq!(buf.get_canonical_entry_hash(eh(2)).unwrap(), eh(3));
}

/// Among several updates of one header the greatest timed hash wins; a
/// timestamp tie is broken by the header hash bytes.
#[test]
fn newest_update_wins() {
    let db = Db::new();
    let mut buf = MetadataBuf::primary(&db);
    let h0 = hh(1);
    let older = update(5, 100, h0, eh(1), IntendedFor::Header);
    let newer = update(9, 90, h0, eh(2), IntendedFor::Header);
    buf.register_update(older, None);
    buf.register_update(newer, None);
    assert_eq!(buf.get_canonical_header_hash(h0).unwrap(), newer.header_hash);

    let db2 = Db::new();
    let mut buf2 = MetadataBuf::primary(&db2);
    let tie_low = update(5, 100, h0, eh(1), IntendedFor::Header);
    let tie_high = update(5, 200, h0, eh(2), IntendedFor::Header);
    buf2.register_update(tie_low, None);
    buf2.register_update(tie_high, None);
    assert_eq!(buf2.get_canonical_header_hash(h0).unwrap(), tie_high.header_hash);
}

/// Cyclic redirect data is reported as an invalid chain, not walked
/// forever.
#[test]
fn cyclic_chain_is_reported() {
    let db = Db::new();
    let mut buf = MetadataBuf::primary(&db);
    let u1 = update(1, 100, hh(200), eh(1), IntendedFor::Header);
    let u2 = EntryUpdate {
        timestamp: 2,
        header_hash: hh(200),
        replaces_address: u1.header_hash,
        entry_hash: eh(2),
        intended_for: IntendedFor::Header,
    };
    buf.register_update(u1, None);
    buf.register_update(u2, None);
    assert_eq!(buf.get_canonical_header_hash(hh(200)), Err(MetaError::InvalidChain));
    assert_eq!(buf.get_canonical_header_hash(u1.header_hash), Err(MetaError::InvalidChain));
}

/// For a fixed set of registrations the status is the same in any
/// registration order.
#[test]
fn status_order_independent() {
    let e = eh(0);
    let c1 = create(1, 100, e);
    let c2 = create(2, 101, e);
    let d1 = delete(3, 102, c1.header_hash);
    let d2 = delete(4, 103, c2.header_hash);
    let u = update(5, 104, c1.header_hash, e, IntendedFor::Entry);

    let db_a = Db::new();
    let mut buf_a = MetadataBuf::primary(&db_a);
    buf_a.register_header(NewEntryHeader::Create(c1));
    buf_a.register_header(NewEntryHeader::Create(c2));
    buf_a.register_delete(d1, e);
    buf_a.register_delete(d2, e);
    buf_a.register_update(u, Some(e));

    let db_b = Db::new();
    let mut buf_b = MetadataBuf::primary(&db_b);
    buf_b.register_update(u, Some(e));
    buf_b.register_delete(d2, e);
    buf_b.register_header(NewEntryHeader::Create(c2));
    buf_b.register_delete(d1, e);
    buf_b.register_header(NewEntryHeader::Create(c1));

    assert_eq!(buf_a.get_dht_status(e), buf_b.get_dht_status(e));
    assert_eq!(buf_a.get_dht_status(e), EntryDhtStatus::Live);

    let d3 = delete(6, 105, u.header_hash);
    buf_a.register_delete(d3, e);
    buf_b.register_delete(d3, e);
    assert_eq!(buf_a.get_dht_status(e), EntryDhtStatus::Dead);
    assert_eq!(buf_b.get_dht_status(e), EntryDhtStatus::Dead);
}

/// A dead entry is reanimated by a fresh create but not by re-registering
/// a deleted one.
#[test]
fn reanimation_by_new_contributor() {
    let db = Db::new();
    let mut buf = MetadataBuf::primary(&db);
    let e = eh(0);
    let c1 = create(1, 100, e);
    buf.register_header(NewEntryHeader::Create(c1));
    buf.register_delete(delete(2, 101, c1.header_hash), e);
    assert_eq!(buf.get_dht_status(e), EntryDhtStatus::Dead);

    // Re-registering the deleted create does not reanimate.
    buf.register_header(NewEntryHeader::Create(c1));
    assert_eq!(buf.get_dht_status(e), EntryDhtStatus::Dead);

    // A fresh, undeleted create does.
    let c2 = create(3, 102, e);
    buf.register_header(NewEntryHeader::Create(c2));
    assert_eq!(buf.get_dht_status(e), EntryDhtStatus::Live);

    // Kill it again, then reanimate through an entry-redirecting update.
    buf.register_delete(delete(4, 103, c2.header_hash), e);
    assert_eq!(buf.get_dht_status(e), EntryDhtStatus::Dead);
    let u = update(5, 104, c1.header_hash, e, IntendedFor::Entry);
    buf.register_update(u, Some(e));
    assert_eq!(buf.get_dht_status(e), EntryDhtStatus::Live);
}

/// A header-redirecting update influences no entry walk, and an
/// entry-redirecting update influences no header walk beyond its own
/// registration under the replaced header.
#[test]
fn mixed_redirection_no_cross_contamination() {
    let db = Db::new();
    let mut buf = MetadataBuf::primary(&db);
    let e0 = eh(0);
    let c = create(1, 100, e0);
    let uh = update(2, 101, c.header_hash, eh(1), IntendedFor::Header);
    buf.register_update(uh, None);
    // The header walk follows the update; the entry walk is untouched.
    assert_eq!(buf.get_canonical_header_hash(c.header_hash).unwrap(), uh.header_hash);
    assert_eq!(buf.get_canonical_entry_hash(e0).unwrap(), e0);

    let c2 = create(3, 103, e0);
    let ue = update(4, 102, c2.header_hash, eh(2), IntendedFor::Entry);
    buf.register_update(ue, Some(e0));
    // The entry walk follows the new update; the header walk of the first
    // chain still ends at its own newest redirect.
    assert_eq!(buf.get_canonical_entry_hash(e0).unwrap(), eh(2));
    assert_eq!(buf.get_canonical_header_hash(c.header_hash).unwrap(), uh.header_hash);
    assert_eq!(buf.get_canonical_header_hash(c2.header_hash).unwrap(), ue.header_hash);
}

/// After a commit, a reader reopened against the same durable store sees
/// what the buffered reads saw: contents and status.
#[test]
fn commit_then_reopen_identical() {
    let mut db = Db::new();
    let e = eh(0);
    let c1 = create(1, 100, e);
    let c2 = create(2, 101, e);
    let d1 = delete(3, 102, c1.header_hash);
    let u = update(4, 103, c1.header_hash, eh(1), IntendedFor::Entry);

    let mut buf = MetadataBuf::primary(&db);
    buf.register_header(NewEntryHeader::Create(c1));
    buf.register_header(NewEntryHeader::Create(c2));
    buf.register_delete(d1, e);
    buf.register_update(u, Some(e));

    let mut headers_before = buf.get_headers(e);
    headers_before.sort_by_key(|t| t.header_hash);
    let mut updates_before = buf.get_updates(AnyDhtHash::Entry(e));
    updates_before.sort_by_key(|t| t.header_hash);
    let mut deletes_before = buf.get_deletes_on_header(c1.header_hash);
    deletes_before.sort_by_key(|t| t.header_hash);
    let status_before = buf.get_dht_status(e);
    let canonical_before = buf.get_canonical_entry_hash(e);

    buf.flush_to_txn(&mut db);

    let reopened = MetadataBuf::primary(&db);
    let mut headers_after = reopened.get_headers(e);
    headers_after.sort_by_key(|t| t.header_hash);
    let mut updates_after = reopened.get_updates(AnyDhtHash::Entry(e));
    updates_after.sort_by_key(|t| t.header_hash);
    let mut deletes_after = reopened.get_deletes_on_header(c1.header_hash);
    deletes_after.sort_by_key(|t| t.header_hash);

    assert_eq!(headers_after, headers_before);
    assert_eq!(updates_after, updates_before);
    assert_eq!(deletes_after, deletes_before);
    assert_eq!(reopened.get_dht_status(e), status_before);
    assert_eq!(reopened.get_canonical_entry_hash(e), canonical_before);
}

/// Committing an empty buffer leaves the durable store unchanged.
#[test]
fn commit_empty_buffer_noop() {
    let mut db = Db::new();
    let e = eh(0);
    let c = create(1, 100, e);
    let mut buf = MetadataBuf::primary(&db);
    buf.register_header(NewEntryHeader::Create(c));
    buf.flush_to_txn(&mut db);

    let empty_buf = MetadataBuf::primary(&db);
    empty_buf.flush_to_txn(&mut db);

    let reopened = MetadataBuf::primary(&db);
    assert_eq!(reopened.get_headers(e).len(), 1);
    assert_eq!(reopened.get_dht_status(e), EntryDhtStatus::Live);
}

/// Writes are invisible to an already-open reader and to readers opened
/// before the commit: snapshot isolation.
#[test]
fn snapshot_isolation() {
    let mut db = Db::new();
    let e = eh(0);
    let early_reader = MetadataBuf::primary(&db);

    let mut writer = MetadataBuf::primary(&db);
    writer.register_header(NewEntryHeader::Create(create(1, 100, e)));
    // The writer sees its own buffered write; the other reader does not.
    assert_eq!(writer.get_headers(e).len(), 1);
    assert_eq!(early_reader.get_headers(e).len(), 0);
    assert_eq!(early_reader.get_dht_status(e), EntryDhtStatus::Dead);

    writer.flush_to_txn(&mut db);
    // Even after the commit the early snapshot is stable.
    assert_eq!(early_reader.get_headers(e).len(), 0);
    // A reader opened after the commit sees the write.
    let late_reader = MetadataBuf::primary(&db);
    assert_eq!(late_reader.get_headers(e).len(), 1);
}

/// The ledger scenario: create makes the entry live, deleting its header
/// kills it, an entry-redirecting update revives it and redirects the
/// entry.
#[test]
fn create_delete_update_scenario() {
    let db = Db::new();
    let mut buf = MetadataBuf::primary(&db);
    let e1 = eh(1);
    let e2 = eh(2);
    let c = create(1, 1, e1);
    buf.register_header(NewEntryHeader::Create(c));
    assert_eq!(buf.get_dht_status(e1), EntryDhtStatus::Live);

    buf.register_delete(delete(2, 2, c.header_hash), e1);
    assert_eq!(buf.get_dht_status(e1), EntryDhtStatus::Dead);

    let u = update(3, 3, c.header_hash, e2, IntendedFor::Entry);
    buf.register_update(u, Some(e1));
    assert_eq!(buf.get_dht_status(e1), EntryDhtStatus::Live);
    assert_eq!(buf.get_canonical_entry_hash(e1).unwrap(), e2);
}

/// An entry-redirecting update registered without its original entry hash
/// stays reachable from the replaced header but not from entry-keyed
/// queries.
#[test]
fn update_without_original_entry() {
    let db = Db::new();
    let mut buf = MetadataBuf::primary(&db);
    let e = eh(0);
    let c = create(1, 100, e);
    let u = update(2, 101, c.header_hash, eh(1), IntendedFor::Entry);
    buf.register_update(u, None);
    assert_eq!(buf.get_updates(AnyDhtHash::Header(c.header_hash)).len(), 1);
    assert_eq!(buf.get_updates(AnyDhtHash::Entry(e)).len(), 0);
    assert_eq!(buf.get_canonical_entry_hash(e).unwrap(), e);
}

/// A dangling delete (whose referent never arrives) is retained and keeps
/// counting against the header if it ever arrives.
#[test]
fn dangling_delete_retained() {
    let db = Db::new();
    let mut buf = MetadataBuf::primary(&db);
    let e = eh(0);
    let target = hh(100);
    buf.register_delete(delete(1, 200, target), e);
    assert_eq!(buf.get_deletes_on_header(target).len(), 1);
    // The entry has no contributing headers yet, so it is dead.
    assert_eq!(buf.get_dht_status(e), EntryDhtStatus::Dead);
    // When the referent arrives, the old tombstone still counts.
    buf.register_header(NewEntryHeader::Create(create(2, 100, e)));
    assert_eq!(buf.get_dht_status(e), EntryDhtStatus::Dead);
}
