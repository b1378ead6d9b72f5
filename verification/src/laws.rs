//! The laws of the index, stated over the mathematical model and proved
//! once and for all: idempotent registration, resolution identity, chain
//! resolution, order-independent liveness, reanimation, and durability of
//! a commit.

use vstd::prelude::*;
use crate::hash::{AnyDhtHash, EntryHash, HeaderHash};
use crate::header::{ElementDelete, EntryCreate, EntryUpdate, NewEntryHeader};
use crate::metadata::{
    apply_create, apply_delete, apply_header, apply_update, concat_views, merge_views,
    EntryDhtStatus, MetaView,
};
use crate::resolve::{
    canonical_entry, canonical_header, entry_walk_fuel, greatest, header_walk_fuel,
    lemma_greatest_exists, resolve_entry, resolve_header, MetaError,
};
use crate::store::{
    has_pair, insert_effect, key_present, lemma_insert_effect_idempotent, lemma_merge_into_fresh,
    KvvEntry,
};

verus! {

/// One already-validated registration, as handed to the index by the
/// upstream workflow: a new-entry header, an update with the original entry
/// hash when known, or a delete with the entry it concerns.
#[derive(Clone, Copy, PartialEq, Eq, Structural, Debug)]
pub enum Registration {
    Header(NewEntryHeader),
    Update(EntryUpdate, Option<EntryHash>),
    Delete(ElementDelete, EntryHash),
}

/// What one registration does to the model.
pub open spec fn apply_registration(m: MetaView, r: Registration) -> MetaView {
    match r {
        Registration::Header(h) => apply_header(m, h),
        Registration::Update(u, original) => apply_update(m, u, original),
        Registration::Delete(d, _) => apply_delete(m, d),
    }
}

/// What a batch of registrations does to the model, applied in order.
pub open spec fn apply_all(m: MetaView, rs: Seq<Registration>) -> MetaView
    decreases rs.len(),
{
    if rs.len() == 0 {
        m
    } else {
        apply_registration(apply_all(m, rs.drop_last()), rs.last())
    }
}

/// Whether this registration files header `h` as contributing to entry `e`.
pub open spec fn op_contributes(r: Registration, e: EntryHash, h: HeaderHash) -> bool {
    match r {
        Registration::Header(NewEntryHeader::Create(c)) => c.entry_hash == e && c.header_hash == h,
        Registration::Header(NewEntryHeader::Update(_)) => false,
        Registration::Update(u, original) => u.intended_for is Entry && original == Some(e)
            && u.header_hash == h,
        Registration::Delete(_, _) => false,
    }
}

/// Whether this registration tombstones header `h`.
pub open spec fn op_tombstones(r: Registration, h: HeaderHash) -> bool {
    match r {
        Registration::Delete(d, _) => d.removes_address == h,
        _ => false,
    }
}

/// Whether some registration of the batch files `h` as contributing to `e`.
pub open spec fn batch_contributes(rs: Seq<Registration>, e: EntryHash, h: HeaderHash) -> bool {
    exists|i: int| 0 <= i < rs.len() && op_contributes(rs[i], e, h)
}

/// Whether some registration of the batch tombstones `h`.
pub open spec fn batch_tombstones(rs: Seq<Registration>, h: HeaderHash) -> bool {
    exists|i: int| 0 <= i < rs.len() && op_tombstones(rs[i], h)
}

/// Presence of a `(key, header hash)` after an insertion: what was present
/// before, plus the inserted pair's own key and hash.
pub proof fn lemma_has_pair_insert(s: Seq<KvvEntry>, p: KvvEntry, k: AnyDhtHash, h: HeaderHash)
    ensures
        has_pair(insert_effect(s, p), k, h) <==> (has_pair(s, k, h) || (p.key == k
            && p.timed.header_hash == h)),
{
    if has_pair(s, p.key, p.timed.header_hash) {
        if p.key == k && p.timed.header_hash == h {
            assert(has_pair(s, k, h));
        }
    } else {
        let r = s.push(p);
        assert(r[s.len() as int] == p);
        if has_pair(s, k, h) {
            let i = choose|i: int|
                0 <= i < s.len() && s[i].key == k && s[i].timed.header_hash == h;
            assert(r[i].key == k && r[i].timed.header_hash == h);
        }
        if p.key == k && p.timed.header_hash == h {
            assert(has_pair(r, k, h));
        }
        if has_pair(r, k, h) {
            let i = choose|i: int|
                0 <= i < r.len() && r[i].key == k && r[i].timed.header_hash == h;
            if i < s.len() {
                assert(s[i].key == k && s[i].timed.header_hash == h);
            }
        }
    }
}

/// Presence of a key after an insertion.
pub proof fn lemma_key_present_insert(s: Seq<KvvEntry>, p: KvvEntry, k: AnyDhtHash)
    ensures
        key_present(insert_effect(s, p), k) <==> (key_present(s, k) || p.key == k),
{
    if has_pair(s, p.key, p.timed.header_hash) {
        if p.key == k {
            let i = choose|i: int|
                0 <= i < s.len() && s[i].key == p.key && s[i].timed.header_hash
                    == p.timed.header_hash;
            assert(key_present(s, k));
        }
    } else {
        let r = s.push(p);
        assert(r[s.len() as int] == p);
        if key_present(s, k) {
            let i = choose|i: int| 0 <= i < s.len() && s[i].key == k;
            assert(r[i].key == k);
        }
        if key_present(r, k) {
            let i = choose|i: int| 0 <= i < r.len() && r[i].key == k;
            if i < s.len() {
                assert(s[i].key == k);
            }
        }
    }
}

/// One registration changes contribution exactly by what it files.
pub proof fn lemma_step_contributes(m: MetaView, r: Registration, e: EntryHash, h: HeaderHash)
    ensures
        apply_registration(m, r).contributes(e, h) <==> (m.contributes(e, h) || op_contributes(
            r,
            e,
            h,
        )),
{
    let k = AnyDhtHash::Entry(e);
    match r {
        Registration::Header(nh) => match nh {
            NewEntryHeader::Create(c) => {
                lemma_has_pair_insert(
                    m.headers_by_entry,
                    crate::metadata::create_pair(c),
                    k,
                    h,
                );
            }
            NewEntryHeader::Update(u) => {
                lemma_has_pair_insert(
                    m.updates_by_header,
                    crate::metadata::update_header_pair(u),
                    k,
                    h,
                );
            }
        },
        Registration::Update(u, original) => {
            lemma_has_pair_insert(m.updates_by_header, crate::metadata::update_header_pair(u), k, h);
            if u.intended_for is Entry && original is Some {
                lemma_has_pair_insert(
                    m.updates_by_entry,
                    crate::metadata::update_entry_pair(u, original->0),
                    k,
                    h,
                );
            }
        },
        Registration::Delete(_, _) => {},
    }
}

/// One registration changes tombstones exactly by what it deletes.
pub proof fn lemma_step_tombstones(m: MetaView, r: Registration, h: HeaderHash)
    ensures
        apply_registration(m, r).tombstoned(h) <==> (m.tombstoned(h) || op_tombstones(r, h)),
{
    match r {
        Registration::Delete(d, _) => {
            lemma_key_present_insert(
                m.deletes_by_header,
                crate::metadata::delete_pair(d),
                AnyDhtHash::Header(h),
            );
        },
        _ => {},
    }
}

/// After a whole batch, a header contributes to an entry exactly when it
/// did before or some registration of the batch filed it.
pub proof fn lemma_batch_contributes(
    m: MetaView,
    rs: Seq<Registration>,
    e: EntryHash,
    h: HeaderHash,
)
    ensures
        apply_all(m, rs).contributes(e, h) <==> (m.contributes(e, h) || batch_contributes(
            rs,
            e,
            h,
        )),
    decreases rs.len(),
{
    if rs.len() != 0 {
        let front = rs.drop_last();
        lemma_batch_contributes(m, front, e, h);
        lemma_step_contributes(apply_all(m, front), rs.last(), e, h);
        assert(rs[rs.len() - 1] == rs.last());
        if batch_contributes(front, e, h) {
            let i = choose|i: int| 0 <= i < front.len() && op_contributes(front[i], e, h);
            assert(rs[i] == front[i]);
        }
        if batch_contributes(rs, e, h) && !op_contributes(rs.last(), e, h) {
            let i = choose|i: int| 0 <= i < rs.len() && op_contributes(rs[i], e, h);
            assert(i < front.len() && front[i] == rs[i]);
            assert(batch_contributes(front, e, h));
        }
    }
}

/// After a whole batch, a header is tombstoned exactly when it was before
/// or some registration of the batch deleted it.
pub proof fn lemma_batch_tombstones(m: MetaView, rs: Seq<Registration>, h: HeaderHash)
    ensures
        apply_all(m, rs).tombstoned(h) <==> (m.tombstoned(h) || batch_tombstones(rs, h)),
    decreases rs.len(),
{
    if rs.len() != 0 {
        let front = rs.drop_last();
        lemma_batch_tombstones(m, front, h);
        lemma_step_tombstones(apply_all(m, front), rs.last(), h);
        assert(rs[rs.len() - 1] == rs.last());
        if batch_tombstones(front, h) {
            let i = choose|i: int| 0 <= i < front.len() && op_tombstones(front[i], h);
            assert(rs[i] == front[i]);
        }
        if batch_tombstones(rs, h) && !op_tombstones(rs.last(), h) {
            let i = choose|i: int| 0 <= i < rs.len() && op_tombstones(rs[i], h);
            assert(i < front.len() && front[i] == rs[i]);
            assert(batch_tombstones(front, h));
        }
    }
}

/// Idempotent registration: registering the same record twice yields the
/// same index contents as registering it once, and with them the same
/// derived status for every entry.
pub proof fn lemma_registration_idempotent(m: MetaView, r: Registration)
    ensures
        apply_registration(apply_registration(m, r), r) == apply_registration(m, r),
{
    match r {
        Registration::Header(nh) => match nh {
            NewEntryHeader::Create(c) => {
                lemma_insert_effect_idempotent(m.headers_by_entry, crate::metadata::create_pair(c));
                assert(apply_registration(apply_registration(m, r), r) =~= apply_registration(
                    m,
                    r,
                ));
            }
            NewEntryHeader::Update(u) => {
                lemma_insert_effect_idempotent(
                    m.updates_by_header,
                    crate::metadata::update_header_pair(u),
                );
                assert(apply_registration(apply_registration(m, r), r) =~= apply_registration(
                    m,
                    r,
                ));
            }
        },
        Registration::Update(u, original) => {
            lemma_insert_effect_idempotent(
                m.updates_by_header,
                crate::metadata::update_header_pair(u),
            );
            if u.intended_for is Entry && original is Some {
                let m1 = apply_update(m, u, original);
                lemma_insert_effect_idempotent(
                    m.updates_by_entry,
                    crate::metadata::update_entry_pair(u, original->0),
                );
                lemma_insert_effect_idempotent(
                    m1.updates_by_entry,
                    crate::metadata::update_entry_pair(u, original->0),
                );
            }
            assert(apply_registration(apply_registration(m, r), r) =~= apply_registration(m, r));
        },
        Registration::Delete(d, _) => {
            lemma_insert_effect_idempotent(m.deletes_by_header, crate::metadata::delete_pair(d));
            assert(apply_registration(apply_registration(m, r), r) =~= apply_registration(m, r));
        },
    }
}

/// Liveness is order-independent: for a fixed set of registrations the
/// derived status of every entry is the same whatever order, and with
/// whatever repetition, the batch was registered in.
pub proof fn lemma_status_order_independent(
    m: MetaView,
    rs1: Seq<Registration>,
    rs2: Seq<Registration>,
    e: EntryHash,
)
    requires
        rs1.to_set() == rs2.to_set(),
    ensures
        apply_all(m, rs1).status(e) == apply_all(m, rs2).status(e),
{
    assert forall|h: HeaderHash|
        apply_all(m, rs1).contributes(e, h) == apply_all(m, rs2).contributes(e, h) && apply_all(
            m,
            rs1,
        ).tombstoned(h) == apply_all(m, rs2).tombstoned(h) by {
        lemma_batch_contributes(m, rs1, e, h);
        lemma_batch_contributes(m, rs2, e, h);
        lemma_batch_tombstones(m, rs1, h);
        lemma_batch_tombstones(m, rs2, h);
        assert(batch_contributes(rs1, e, h) == batch_contributes(rs2, e, h)) by {
            if batch_contributes(rs1, e, h) {
                let i = choose|i: int| 0 <= i < rs1.len() && op_contributes(rs1[i], e, h);
                assert(rs1.contains(rs1[i]));
                assert(rs2.to_set().contains(rs1[i]));
                assert(rs2.contains(rs1[i]));
                let j = choose|j: int| 0 <= j < rs2.len() && rs2[j] == rs1[i];
                assert(op_contributes(rs2[j], e, h));
            }
            if batch_contributes(rs2, e, h) {
                let i = choose|i: int| 0 <= i < rs2.len() && op_contributes(rs2[i], e, h);
                assert(rs2.contains(rs2[i]));
                assert(rs1.to_set().contains(rs2[i]));
                assert(rs1.contains(rs2[i]));
                let j = choose|j: int| 0 <= j < rs1.len() && rs1[j] == rs2[i];
                assert(op_contributes(rs1[j], e, h));
            }
        }
        assert(batch_tombstones(rs1, h) == batch_tombstones(rs2, h)) by {
            if batch_tombstones(rs1, h) {
                let i = choose|i: int| 0 <= i < rs1.len() && op_tombstones(rs1[i], h);
                assert(rs1.contains(rs1[i]));
                assert(rs2.to_set().contains(rs1[i]));
                assert(rs2.contains(rs1[i]));
                let j = choose|j: int| 0 <= j < rs2.len() && rs2[j] == rs1[i];
                assert(op_tombstones(rs2[j], h));
            }
            if batch_tombstones(rs2, h) {
                let i = choose|i: int| 0 <= i < rs2.len() && op_tombstones(rs2[i], h);
                assert(rs2.contains(rs2[i]));
                assert(rs1.to_set().contains(rs2[i]));
                assert(rs1.contains(rs2[i]));
                let j = choose|j: int| 0 <= j < rs1.len() && rs1[j] == rs2[i];
                assert(op_tombstones(rs1[j], h));
            }
        }
    }
    assert(apply_all(m, rs1).live(e) == apply_all(m, rs2).live(e)) by {
        if apply_all(m, rs1).live(e) {
            let h = choose|h: HeaderHash|
                apply_all(m, rs1).contributes(e, h) && !apply_all(m, rs1).tombstoned(h);
            assert(apply_all(m, rs2).contributes(e, h) && !apply_all(m, rs2).tombstoned(h));
        }
        if apply_all(m, rs2).live(e) {
            let h = choose|h: HeaderHash|
                apply_all(m, rs2).contributes(e, h) && !apply_all(m, rs2).tombstoned(h);
            assert(apply_all(m, rs1).contributes(e, h) && !apply_all(m, rs1).tombstoned(h));
        }
    }
}

/// Resolution identity: a header hash with no registered updates resolves
/// to itself.
pub proof fn lemma_resolution_identity_header(m: MetaView, x: HeaderHash)
    requires
        !key_present(m.updates_by_header, AnyDhtHash::Header(x)),
    ensures
        canonical_header(m, x) == Ok::<HeaderHash, MetaError>(x),
        forall|fuel: nat| #[trigger] resolve_header(m, x, fuel) == Some(x),
{
    assert forall|fuel: nat| #[trigger] resolve_header(m, x, fuel) == Some(x) by {}
}

/// Resolution identity: an entry hash with no registered updates resolves
/// to itself.
pub proof fn lemma_resolution_identity_entry(m: MetaView, x: EntryHash)
    requires
        !key_present(m.updates_by_entry, AnyDhtHash::Entry(x)),
    ensures
        canonical_entry(m, x) == Ok::<EntryHash, MetaError>(x),
        forall|fuel: nat| #[trigger] resolve_entry(m, x, fuel) == Some(x),
{
    assert forall|fuel: nat| #[trigger] resolve_entry(m, x, fuel) == Some(x) by {}
}

/// Every update registered against header `a` supersedes it with header `b`:
/// one link of a header redirect chain.
pub open spec fn chain_link_header(m: MetaView, a: HeaderHash, b: HeaderHash) -> bool {
    &&& key_present(m.updates_by_header, AnyDhtHash::Header(a))
    &&& forall|o: KvvEntry|
        #[trigger] m.updates_by_header.contains(o) && o.key == AnyDhtHash::Header(a)
            ==> o.timed.header_hash == b
}

/// Every update registered against entry `a` carries entry `b` as the new
/// version: one link of an entry redirect chain.
pub open spec fn chain_link_entry(m: MetaView, a: EntryHash, b: EntryHash) -> bool {
    &&& key_present(m.updates_by_entry, AnyDhtHash::Entry(a))
    &&& forall|o: KvvEntry|
        #[trigger] m.updates_by_entry.contains(o) && o.key == AnyDhtHash::Entry(a) ==> o.target
            == AnyDhtHash::Entry(b)
}

/// Chain resolution for headers: along a chain whose links each lead to the
/// next hash and whose end has no updates, the walk reaches the end, for
/// any hop bound at least the chain's length.
pub proof fn lemma_chain_resolution_header(m: MetaView, chain: Seq<HeaderHash>, fuel: nat)
    requires
        chain.len() >= 1,
        fuel >= chain.len() - 1,
        forall|i: int| 0 <= i < chain.len() - 1 ==> #[trigger] chain_link_header(m, chain[i], chain[i + 1]),
        !key_present(m.updates_by_header, AnyDhtHash::Header(chain[chain.len() - 1])),
    ensures
        resolve_header(m, chain[0], fuel) == Some(chain[chain.len() - 1]),
    decreases chain.len(),
{
    if chain.len() == 1 {
    } else {
        assert(chain_link_header(m, chain[0], chain[1])) by {
            assert(chain_link_header(m, chain[0], chain[0int + 1]));
        }
        let k = AnyDhtHash::Header(chain[0]);
        lemma_greatest_exists(m.updates_by_header, k);
        let g = greatest(m.updates_by_header, k);
        assert(g.timed.header_hash == chain[1]);
        let rest = chain.drop_first();
        assert(rest.len() == chain.len() - 1);
        assert forall|i: int| 0 <= i < rest.len() - 1 implies #[trigger] chain_link_header(
            m,
            rest[i],
            rest[i + 1],
        ) by {
            assert(rest[i] == chain[i + 1] && rest[i + 1] == chain[i + 2]);
        }
        assert(rest[rest.len() - 1] == chain[chain.len() - 1]);
        lemma_chain_resolution_header(m, rest, (fuel - 1) as nat);
        assert(rest[0] == chain[1]);
    }
}

/// Chain resolution for entries.
pub proof fn lemma_chain_resolution_entry(m: MetaView, chain: Seq<EntryHash>, fuel: nat)
    requires
        chain.len() >= 1,
        fuel >= chain.len() - 1,
        forall|i: int| 0 <= i < chain.len() - 1 ==> #[trigger] chain_link_entry(m, chain[i], chain[i + 1]),
        !key_present(m.updates_by_entry, AnyDhtHash::Entry(chain[chain.len() - 1])),
    ensures
        resolve_entry(m, chain[0], fuel) == Some(chain[chain.len() - 1]),
    decreases chain.len(),
{
    if chain.len() == 1 {
    } else {
        assert(chain_link_entry(m, chain[0], chain[1])) by {
            assert(chain_link_entry(m, chain[0], chain[0int + 1]));
        }
        let k = AnyDhtHash::Entry(chain[0]);
        lemma_greatest_exists(m.updates_by_entry, k);
        let g = greatest(m.updates_by_entry, k);
        assert(g.target == AnyDhtHash::Entry(chain[1]));
        let rest = chain.drop_first();
        assert(rest.len() == chain.len() - 1);
        assert forall|i: int| 0 <= i < rest.len() - 1 implies #[trigger] chain_link_entry(
            m,
            rest[i],
            rest[i + 1],
        ) by {
            assert(rest[i] == chain[i + 1] && rest[i + 1] == chain[i + 2]);
        }
        assert(rest[rest.len() - 1] == chain[chain.len() - 1]);
        lemma_chain_resolution_entry(m, rest, (fuel - 1) as nat);
        assert(rest[0] == chain[1]);
    }
}

/// A sequence of pairs holds at least as many pairs as there are pairwise
/// distinct keys present in it.
pub proof fn lemma_present_keys_bound(s: Seq<KvvEntry>, keys: Seq<AnyDhtHash>)
    requires
        forall|i: int, j: int| 0 <= i < j < keys.len() ==> keys[i] != keys[j],
        forall|i: int| 0 <= i < keys.len() ==> key_present(s, #[trigger] keys[i]),
    ensures
        s.len() >= keys.len(),
    decreases keys.len(),
{
    if keys.len() != 0 {
        let k0 = keys[0];
        let j0 = choose|j: int| 0 <= j < s.len() && s[j].key == k0;
        let s2 = s.remove(j0);
        let rest = keys.drop_first();
        assert forall|i: int| 0 <= i < rest.len() implies key_present(s2, #[trigger] rest[i]) by {
            assert(rest[i] == keys[i + 1]);
            assert(key_present(s, keys[i + 1]));
            let j = choose|j: int| 0 <= j < s.len() && s[j].key == keys[i + 1];
            assert(j != j0);
            if j < j0 {
                assert(s2[j] == s[j]);
            } else {
                assert(s2[j - 1] == s[j]);
            }
        }
        assert forall|i: int, j: int| 0 <= i < j < rest.len() implies rest[i] != rest[j] by {
            assert(rest[i] == keys[i + 1] && rest[j] == keys[j + 1]);
        }
        lemma_present_keys_bound(s2, rest);
    }
}

/// Chain resolution at the query's own walk bound: for a chain of distinct
/// hashes the bound always suffices, so the canonical-header query returns
/// the hash the last update introduced.
pub proof fn lemma_chain_canonical_header(m: MetaView, chain: Seq<HeaderHash>)
    requires
        chain.len() >= 1,
        forall|i: int, j: int| 0 <= i < j < chain.len() ==> chain[i] != chain[j],
        forall|i: int| 0 <= i < chain.len() - 1 ==> #[trigger] chain_link_header(m, chain[i], chain[i + 1]),
        !key_present(m.updates_by_header, AnyDhtHash::Header(chain[chain.len() - 1])),
    ensures
        canonical_header(m, chain[0]) == Ok::<HeaderHash, MetaError>(chain[chain.len() - 1]),
{
    let keys = Seq::new((chain.len() - 1) as nat, |i: int| AnyDhtHash::Header(chain[i]));
    assert forall|i: int| 0 <= i < keys.len() implies key_present(
        m.updates_by_header,
        #[trigger] keys[i],
    ) by {
        assert(chain_link_header(m, chain[i], chain[i + 1]));
    }
    lemma_present_keys_bound(m.updates_by_header, keys);
    lemma_chain_resolution_header(m, chain, header_walk_fuel(m));
}

/// Chain resolution at the query's own walk bound, for entries.
pub proof fn lemma_chain_canonical_entry(m: MetaView, chain: Seq<EntryHash>)
    requires
        chain.len() >= 1,
        forall|i: int, j: int| 0 <= i < j < chain.len() ==> chain[i] != chain[j],
        forall|i: int| 0 <= i < chain.len() - 1 ==> #[trigger] chain_link_entry(m, chain[i], chain[i + 1]),
        !key_present(m.updates_by_entry, AnyDhtHash::Entry(chain[chain.len() - 1])),
    ensures
        canonical_entry(m, chain[0]) == Ok::<EntryHash, MetaError>(chain[chain.len() - 1]),
{
    let keys = Seq::new((chain.len() - 1) as nat, |i: int| AnyDhtHash::Entry(chain[i]));
    assert forall|i: int| 0 <= i < keys.len() implies key_present(
        m.updates_by_entry,
        #[trigger] keys[i],
    ) by {
        assert(chain_link_entry(m, chain[i], chain[i + 1]));
    }
    lemma_present_keys_bound(m.updates_by_entry, keys);
    lemma_chain_resolution_entry(m, chain, entry_walk_fuel(m));
}

/// Reanimation by a new contributor: registering a create whose header is
/// not tombstoned makes its entry live, whatever the entry's status was.
pub proof fn lemma_reanimation_create(m: MetaView, c: EntryCreate)
    requires
        !m.tombstoned(c.header_hash),
    ensures
        apply_registration(m, Registration::Header(NewEntryHeader::Create(c))).status(c.entry_hash)
            == EntryDhtStatus::Live,
{
    let r = Registration::Header(NewEntryHeader::Create(c));
    lemma_step_contributes(m, r, c.entry_hash, c.header_hash);
    lemma_step_tombstones(m, r, c.header_hash);
    let m2 = apply_registration(m, r);
    assert(m2.contributes(c.entry_hash, c.header_hash) && !m2.tombstoned(c.header_hash));
}

/// Reanimation by a new contributor: registering an entry-redirecting
/// update whose header is not tombstoned makes the original entry live.
pub proof fn lemma_reanimation_update(m: MetaView, u: EntryUpdate, original: EntryHash)
    requires
        u.intended_for is Entry,
        !m.tombstoned(u.header_hash),
    ensures
        apply_registration(m, Registration::Update(u, Some(original))).status(original)
            == EntryDhtStatus::Live,
{
    let r = Registration::Update(u, Some(original));
    lemma_step_contributes(m, r, original, u.header_hash);
    lemma_step_tombstones(m, r, u.header_hash);
    let m2 = apply_registration(m, r);
    assert(m2.contributes(original, u.header_hash) && !m2.tombstoned(u.header_hash));
}

/// No reanimation by a tombstoned contributor: re-registering a create
/// whose header is already deleted changes no entry's status.
pub proof fn lemma_no_reanimation(m: MetaView, c: EntryCreate, e: EntryHash)
    requires
        m.tombstoned(c.header_hash),
    ensures
        apply_registration(m, Registration::Header(NewEntryHeader::Create(c))).status(e)
            == m.status(e),
{
    let r = Registration::Header(NewEntryHeader::Create(c));
    let m2 = apply_registration(m, r);
    assert forall|h: HeaderHash|
        m2.contributes(e, h) == (m.contributes(e, h) || op_contributes(r, e, h))
            && m2.tombstoned(h) == m.tombstoned(h) by {
        lemma_step_contributes(m, r, e, h);
        lemma_step_tombstones(m, r, h);
    }
    assert(m2.live(e) == m.live(e)) by {
        if m.live(e) {
            let h = choose|h: HeaderHash| m.contributes(e, h) && !m.tombstoned(h);
            assert(m2.contributes(e, h) && !m2.tombstoned(h));
        }
        if m2.live(e) {
            let h = choose|h: HeaderHash| m2.contributes(e, h) && !m2.tombstoned(h);
            assert(m.contributes(e, h));
        }
    }
}

/// Durability of a commit: when the buffer was built over a snapshot of
/// the very store it is committed to, the committed store equals the
/// pre-commit merged view, so a reader reopened against it sees exactly
/// what the buffered reads saw.
pub proof fn lemma_commit_durability(db: MetaView, scratch: MetaView)
    requires
        concat_views(db, scratch).wf(),
    ensures
        merge_views(db, scratch) == concat_views(db, scratch),
{
    lemma_merge_into_fresh(db.headers_by_entry, scratch.headers_by_entry);
    lemma_merge_into_fresh(db.updates_by_header, scratch.updates_by_header);
    lemma_merge_into_fresh(db.updates_by_entry, scratch.updates_by_entry);
    lemma_merge_into_fresh(db.deletes_by_header, scratch.deletes_by_header);
    assert(merge_views(db, scratch) =~= concat_views(db, scratch));
}

/// Committing an empty buffer leaves the durable model unchanged.
pub proof fn lemma_commit_empty(db: MetaView)
    ensures
        merge_views(db, MetaView::empty()) == db,
{
    assert(merge_views(db, MetaView::empty()) =~= db);
}

} // verus!
