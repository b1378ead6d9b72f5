//! Redirect, read and liveness behaviour of the metadata index.

use dht_meta::hash::{AnyDhtHash, EntryHash, HeaderHash, TimedHeaderHash};
use dht_meta::header::{ElementDelete, EntryCreate, EntryUpdate, IntendedFor, NewEntryHeader};
use dht_meta::metadata::{Db, EntryDhtStatus, MetadataBuf};

fn hh(n: u64) -> HeaderHash {
    HeaderHash { hi: 7, lo: n }
}

fn eh(n: u64) -> EntryHash {
    EntryHash { hi: 9, lo: n }
}

fn test_create(ts: u64, own: u64, entry: EntryHash) -> EntryCreate {
    EntryCreate { timestamp: ts, header_hash: hh(own), entry_hash: entry }
}

fn test_update(
    ts: u64,
    own: u64,
    replaces: HeaderHash,
    entry: EntryHash,
    intended_for: IntendedFor,
) -> EntryUpdate {
    EntryUpdate {
        timestamp: ts,
        header_hash: hh(own),
        replaces_address: replaces,
        entry_hash: entry,
        intended_for,
    }
}

fn test_delete(ts: u64, own: u64, removes: HeaderHash) -> ElementDelete {
    ElementDelete { timestamp: ts, header_hash: hh(own), removes_address: removes }
}

fn timed(ts: u64, own: u64) -> TimedHeaderHash {
    TimedHeaderHash { timestamp: ts, header_hash: hh(own) }
}

/// A header can be redirected a single hop.
#[test]
fn test_redirect_header_one_hop() {
    let db = Db::new();
    let mut buf = MetadataBuf::primary(&db);
    let update = test_update(1, 100, hh(1), eh(1), IntendedFor::Header);
    buf.register_update(update, None);
    let original = update.replaces_address;
    let canonical = buf.get_canonical_header_hash(original).unwrap();
    assert_eq!(canonical, update.header_hash);
}

/// A header can be redirected three hops.
#[test]
fn test_redirect_header_three_hops() {
    let db = Db::new();
    let mut buf = MetadataBuf::primary(&db);
    let update1 = test_update(1, 100, hh(1), eh(1), IntendedFor::Header);
    let update2 = test_update(2, 101, update1.header_hash, eh(2), IntendedFor::Header);
    let update3 = test_update(3, 102, update2.header_hash, eh(3), IntendedFor::Header);
    buf.register_update(update1, None);
    buf.register_update(update2, None);
    buf.register_update(update3, None);
    let original = update1.replaces_address;
    let canonical = buf.get_canonical_header_hash(original).unwrap();
    assert_eq!(canonical, update3.header_hash);
}

/// An entry can be redirected a single hop.
#[test]
fn test_redirect_entry_one_hop() {
    let db = Db::new();
    let mut buf = MetadataBuf::primary(&db);
    let original_entry = eh(0);
    let create = test_create(1, 100, original_entry);
    let update = test_update(2, 101, create.header_hash, eh(1), IntendedFor::Entry);
    buf.register_update(update, Some(original_entry));
    let canonical = buf.get_canonical_entry_hash(original_entry).unwrap();
    assert_eq!(canonical, update.entry_hash);
}

/// An entry can be redirected three hops' worth of updates: the greatest
/// registered update against the original wins.
#[test]
fn test_redirect_entry_three_hops() {
    let db = Db::new();
    let mut buf = MetadataBuf::primary(&db);
    let original_entry = eh(0);
    let create = test_create(1, 100, original_entry);
    let update1 = test_update(2, 101, create.header_hash, eh(1), IntendedFor::Entry);
    let update2 = test_update(3, 102, update1.replaces_address, eh(2), IntendedFor::Entry);
    let update3 = test_update(4, 103, update2.replaces_address, eh(3), IntendedFor::Entry);
    buf.register_update(update1, Some(original_entry));
    buf.register_update(update2, Some(original_entry));
    buf.register_update(update3, Some(original_entry));
    let canonical = buf.get_canonical_entry_hash(original_entry).unwrap();
    assert_eq!(canonical, update3.entry_hash);
}

/// Header redirection and entry redirection resolve independently.
#[test]
fn test_redirect_header_and_entry() {
    let db = Db::new();
    let mut buf = MetadataBuf::primary(&db);
    let original_entry = eh(0);
    let create0 = test_create(1, 100, original_entry);
    let update_header = test_update(2, 101, create0.header_hash, eh(1), IntendedFor::Header);
    let original_entry_1 = eh(2);
    let create1 = test_create(3, 102, original_entry_1);
    let update_entry = test_update(4, 103, create1.header_hash, eh(3), IntendedFor::Entry);
    buf.register_update(update_header, None);
    buf.register_update(update_entry, Some(original_entry_1));
    let expected_entry_hash = update_entry.entry_hash;
    let original_header_hash = update_header.replaces_address;
    let canonical_header_hash = buf.get_canonical_header_hash(original_header_hash).unwrap();
    let canonical_entry_hash = buf.get_canonical_entry_hash(original_entry_1).unwrap();
    assert_eq!(canonical_header_hash, update_header.header_hash);
    assert_eq!(canonical_entry_hash, expected_entry_hash);
}

/// Creating an entry ten times files ten headers under it, before and
/// after a commit.
#[test]
fn add_entry_get_headers() {
    let mut db = Db::new();
    let entry_hash = eh(0);
    let mut expected: Vec<TimedHeaderHash> = Vec::new();
    let mut entry_creates = Vec::new();
    for n in 0..10 {
        let c = test_create(n, 100 + n, entry_hash);
        expected.push(timed(n, 100 + n));
        entry_creates.push(c);
    }
    expected.sort_by_key(|h| h.header_hash);
    {
        let mut meta_buf = MetadataBuf::primary(&db);
        for create in entry_creates {
            meta_buf.register_header(NewEntryHeader::Create(create));
        }
        let mut headers = meta_buf.get_headers(entry_hash);
        headers.sort_by_key(|h| h.header_hash);
        assert_eq!(headers, expected);
        meta_buf.flush_to_txn(&mut db);
    }
    {
        let meta_buf = MetadataBuf::primary(&db);
        let mut headers = meta_buf.get_headers(entry_hash);
        headers.sort_by_key(|h| h.header_hash);
        assert_eq!(headers, expected);
    }
}

/// Ten entry-redirecting updates against one entry are all filed under it,
/// before and after a commit.
#[test]
fn add_entry_get_updates() {
    let mut db = Db::new();
    let original_entry_hash = eh(0);
    let original = test_create(0, 99, original_entry_hash);
    let mut expected: Vec<TimedHeaderHash> = Vec::new();
    let mut entry_updates = Vec::new();
    for n in 0..10 {
        let u = test_update(
            1 + n,
            100 + n,
            original.header_hash,
            eh(10 + n),
            IntendedFor::Entry,
        );
        expected.push(timed(1 + n, 100 + n));
        entry_updates.push(u);
    }
    expected.sort_by_key(|h| h.header_hash);
    {
        let mut meta_buf = MetadataBuf::primary(&db);
        for update in entry_updates {
            meta_buf.register_update(update, Some(original_entry_hash));
        }
        let mut headers = meta_buf.get_updates(AnyDhtHash::Entry(original_entry_hash));
        headers.sort_by_key(|h| h.header_hash);
        assert_eq!(headers, expected);
        meta_buf.flush_to_txn(&mut db);
    }
    {
        let meta_buf = MetadataBuf::primary(&db);
        let mut headers = meta_buf.get_updates(AnyDhtHash::Entry(original_entry_hash));
        headers.sort_by_key(|h| h.header_hash);
        assert_eq!(headers, expected);
    }
}

/// Ten header-redirecting updates against one header are all filed under
/// it, before and after a commit.
#[test]
fn add_entry_get_updates_header() {
    let mut db = Db::new();
    let original_entry_hash = eh(0);
    let original = test_create(0, 99, original_entry_hash);
    let original_header_hash = original.header_hash;
    let mut expected: Vec<TimedHeaderHash> = Vec::new();
    let mut entry_updates = Vec::new();
    for n in 0..10 {
        let u = test_update(
            1 + n,
            100 + n,
            original_header_hash,
            eh(10 + n),
            IntendedFor::Header,
        );
        expected.push(timed(1 + n, 100 + n));
        entry_updates.push(u);
    }
    expected.sort_by_key(|h| h.header_hash);
    {
        let mut meta_buf = MetadataBuf::primary(&db);
        for update in entry_updates {
            meta_buf.register_update(update, None);
        }
        let mut headers = meta_buf.get_updates(AnyDhtHash::Header(original_header_hash));
        headers.sort_by_key(|h| h.header_hash);
        assert_eq!(headers, expected);
        meta_buf.flush_to_txn(&mut db);
    }
    {
        let meta_buf = MetadataBuf::primary(&db);
        let mut headers = meta_buf.get_updates(AnyDhtHash::Header(original_header_hash));
        headers.sort_by_key(|h| h.header_hash);
        assert_eq!(headers, expected);
    }
}

/// Ten deletes against one header are all filed under it, before and after
/// a commit.
#[test]
fn add_entry_get_deletes() {
    let mut db = Db::new();
    let header_hash = hh(1);
    let entry_hash = eh(0);
    let mut expected: Vec<TimedHeaderHash> = Vec::new();
    let mut entry_deletes = Vec::new();
    for n in 0..10 {
        let d = test_delete(n, 100 + n, header_hash);
        expected.push(timed(n, 100 + n));
        entry_deletes.push(d);
    }
    expected.sort_by_key(|h| h.header_hash);
    {
        let mut meta_buf = MetadataBuf::primary(&db);
        for delete in entry_deletes {
            meta_buf.register_delete(delete, entry_hash);
        }
        let mut headers = meta_buf.get_deletes_on_header(header_hash);
        headers.sort_by_key(|h| h.header_hash);
        assert_eq!(headers, expected);
        meta_buf.flush_to_txn(&mut db);
    }
    {
        let meta_buf = MetadataBuf::primary(&db);
        let mut headers = meta_buf.get_deletes_on_header(header_hash);
        headers.sort_by_key(|h| h.header_hash);
        assert_eq!(headers, expected);
    }
}

struct StatusData {
    entry_creates: Vec<EntryCreate>,
    entry_deletes: Vec<ElementDelete>,
    entry_updates: Vec<EntryUpdate>,
    delete_updates: Vec<ElementDelete>,
}

fn create_data(data: &mut StatusData, entry_hash: EntryHash, base: u64) {
    for n in 0..10 {
        let serial = base + 10 * n;
        let c = test_create(serial, 1000 + serial, entry_hash);
        data.entry_creates.push(c);
        data.entry_deletes.push(test_delete(serial + 1, 1001 + serial, c.header_hash));
        let u = test_update(
            serial + 2,
            1002 + serial,
            c.header_hash,
            entry_hash,
            IntendedFor::Entry,
        );
        data.entry_updates.push(u);
        data.delete_updates.push(test_delete(serial + 3, 1003 + serial, u.header_hash));
    }
}

fn update_dbs(
    new_entries: &[EntryCreate],
    entry_deletes: &[ElementDelete],
    update_entries: &[EntryUpdate],
    delete_updates: &[ElementDelete],
    entry_hash: EntryHash,
    meta_buf: &mut MetadataBuf,
) {
    for c in new_entries {
        meta_buf.register_header(NewEntryHeader::Create(*c));
    }
    for u in update_entries {
        meta_buf.register_update(*u, Some(entry_hash));
    }
    for d in entry_deletes.iter().chain(delete_updates.iter()) {
        meta_buf.register_delete(*d, entry_hash);
    }
}

/// The full liveness cycle: creates make an entry live, deleting every
/// contributing header kills it, re-registering deleted headers does not
/// reanimate it, and fresh creates or updates do.
#[test]
fn test_entry_dht_status() {
    let db = Db::new();
    let entry_hash = eh(0);
    let mut data = StatusData {
        entry_creates: Vec::new(),
        entry_deletes: Vec::new(),
        entry_updates: Vec::new(),
        delete_updates: Vec::new(),
    };
    create_data(&mut data, entry_hash, 0);

    let mut meta_buf = MetadataBuf::primary(&db);
    update_dbs(&data.entry_creates[..], &data.entry_deletes[..0], &data.entry_updates[..0], &data.delete_updates[..0], entry_hash, &mut meta_buf);
    assert_eq!(meta_buf.get_dht_status(entry_hash), EntryDhtStatus::Live);

    update_dbs(&data.entry_creates[..0], &data.entry_deletes[..], &data.entry_updates[..0], &data.delete_updates[..0], entry_hash, &mut meta_buf);
    assert_eq!(meta_buf.get_dht_status(entry_hash), EntryDhtStatus::Dead);

    // Same headers don't reanimate the entry.
    update_dbs(&data.entry_creates[..], &data.entry_deletes[..0], &data.entry_updates[..0], &data.delete_updates[..0], entry_hash, &mut meta_buf);
    assert_eq!(meta_buf.get_dht_status(entry_hash), EntryDhtStatus::Dead);

    // Fresh creates bring the entry back to life.
    create_data(&mut data, entry_hash, 100);
    update_dbs(&data.entry_creates[10..], &data.entry_deletes[..0], &data.entry_updates[..0], &data.delete_updates[..0], entry_hash, &mut meta_buf);
    assert_eq!(meta_buf.get_dht_status(entry_hash), EntryDhtStatus::Live);

    // Deleting them kills it again.
    update_dbs(&data.entry_creates[..0], &data.entry_deletes[10..], &data.entry_updates[..0], &data.delete_updates[..0], entry_hash, &mut meta_buf);
    assert_eq!(meta_buf.get_dht_status(entry_hash), EntryDhtStatus::Dead);

    // Entry-redirecting updates bring the entry back to life.
    update_dbs(&data.entry_creates[..0], &data.entry_deletes[..0], &data.entry_updates[..10], &data.delete_updates[..0], entry_hash, &mut meta_buf);
    assert_eq!(meta_buf.get_dht_status(entry_hash), EntryDhtStatus::Live);

    // Deleting the updates kills the entry.
    update_dbs(&data.entry_creates[..0], &data.entry_deletes[..0], &data.entry_updates[..0], &data.delete_updates[..10], entry_hash, &mut meta_buf);
    assert_eq!(meta_buf.get_dht_status(entry_hash), EntryDhtStatus::Dead);
}

/// Ten creates with nine deleted stay live; deleting the tenth kills the
/// entry.
#[test]
fn test_entry_dht_status_one_less() {
    let db = Db::new();
    let entry_hash = eh(0);
    let mut data = StatusData {
        entry_creates: Vec::new(),
        entry_deletes: Vec::new(),
        entry_updates: Vec::new(),
        delete_updates: Vec::new(),
    };
    create_data(&mut data, entry_hash, 0);

    let mut meta_buf = MetadataBuf::primary(&db);
    update_dbs(&data.entry_creates[..], &data.entry_deletes[..0], &data.entry_updates[..0], &data.delete_updates[..0], entry_hash, &mut meta_buf);
    assert_eq!(meta_buf.get_dht_status(entry_hash), EntryDhtStatus::Live);

    update_dbs(&data.entry_creates[..0], &data.entry_deletes[..9], &data.entry_updates[..0], &data.delete_updates[..0], entry_hash, &mut meta_buf);
    assert_eq!(meta_buf.get_dht_status(entry_hash), EntryDhtStatus::Live);

    update_dbs(&data.entry_creates[..0], &data.entry_deletes[9..10], &data.entry_updates[..0], &data.delete_updates[..0], entry_hash, &mut meta_buf);
    assert_eq!(meta_buf.get_dht_status(entry_hash), EntryDhtStatus::Dead);
}
