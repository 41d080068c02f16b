//! Proven laws of the reconciler.
//!
//! Each public proof function here states one guarantee of
//! [`crate::reconcile::reconcile`] over its spec functions, for every
//! input the engine accepts.

use vstd::prelude::*;

use crate::reconcile::{
    deletes_spec, drops_record, first_seen_for, keeps_offline, offline_since_for, offline_write,
    offline_writes_spec, past_grace, present_write, present_writes_spec, writes_spec,
};
use crate::record::{
    lemma_rec_at_index, rec_at, rec_index_of, record_names_unique, record_wf, records_wf,
    recs_have, RecordModel,
};
use crate::snapshot::{entry_names_unique, snap_has, EntryModel};

verus! {

// ---------------------------------------------------------------------
// Shape of the cycle-level results.
// ---------------------------------------------------------------------

/// The writes for present entities are one write per snapshot entry, in
/// snapshot order.
pub proof fn lemma_present_writes_len(
    snap: Seq<EntryModel>,
    prior: Seq<RecordModel>,
    now: int,
    ttl: int,
)
    ensures
        present_writes_spec(snap, prior, now, ttl).len() == snap.len(),
    decreases snap.len(),
{
    if snap.len() > 0 {
        lemma_present_writes_len(snap.drop_last(), prior, now, ttl);
    }
}

/// The write at position `j` of the present-entity writes is exactly the
/// write computed for the snapshot's `j`-th entry.
pub proof fn lemma_present_writes_index(
    snap: Seq<EntryModel>,
    prior: Seq<RecordModel>,
    now: int,
    ttl: int,
    j: int,
)
    requires
        0 <= j < snap.len(),
    ensures
        present_writes_spec(snap, prior, now, ttl).len() == snap.len(),
        present_writes_spec(snap, prior, now, ttl)[j] == present_write(
            snap[j],
            first_seen_for(prior, snap[j].name, now),
            now,
            ttl,
        ),
    decreases snap.len(),
{
    lemma_present_writes_len(snap, prior, now, ttl);
    if j < snap.len() - 1 {
        lemma_present_writes_index(snap.drop_last(), prior, now, ttl, j);
        assert(snap.drop_last()[j] == snap[j]);
    }
}

/// Every offline write stems from one prior record that is missing from
/// the snapshot and within grace; with unique prior names the offline
/// writes carry unique names as well.
pub proof fn lemma_offline_writes_shape(
    prior: Seq<RecordModel>,
    snap: Seq<EntryModel>,
    now: int,
    ttl: int,
    grace: int,
)
    requires
        record_names_unique(prior),
    ensures
        forall|k: int|
            #![trigger offline_writes_spec(prior, snap, now, ttl, grace)[k]]
            0 <= k < offline_writes_spec(prior, snap, now, ttl, grace).len() ==> exists|i: int|
                #![trigger offline_write(prior[i], now, ttl)]
                0 <= i < prior.len() && keeps_offline(prior[i], snap, now, grace)
                    && offline_writes_spec(prior, snap, now, ttl, grace)[k] == offline_write(
                    prior[i],
                    now,
                    ttl,
                ),
        record_names_unique(offline_writes_spec(prior, snap, now, ttl, grace)),
    decreases prior.len(),
{
    if prior.len() > 0 {
        let dl = prior.drop_last();
        lemma_offline_writes_shape(dl, snap, now, ttl, grace);
        assert forall|k: int|
            #![trigger offline_writes_spec(prior, snap, now, ttl, grace)[k]]
            0 <= k < offline_writes_spec(prior, snap, now, ttl, grace).len() implies exists|i: int|
            #![trigger offline_write(prior[i], now, ttl)]
            0 <= i < prior.len() && keeps_offline(prior[i], snap, now, grace)
                && offline_writes_spec(prior, snap, now, ttl, grace)[k] == offline_write(
                prior[i],
                now,
                ttl,
            ) by {
            if k < offline_writes_spec(dl, snap, now, ttl, grace).len() {
                assert(offline_writes_spec(prior, snap, now, ttl, grace)[k]
                    == offline_writes_spec(dl, snap, now, ttl, grace)[k]);
                let i = choose|i: int|
                    #![trigger offline_write(dl[i], now, ttl)]
                    0 <= i < dl.len() && keeps_offline(dl[i], snap, now, grace)
                        && offline_writes_spec(dl, snap, now, ttl, grace)[k] == offline_write(
                        dl[i],
                        now,
                        ttl,
                    );
                assert(dl[i] == prior[i]);
                assert(0 <= i < prior.len() && keeps_offline(prior[i], snap, now, grace)
                    && offline_writes_spec(prior, snap, now, ttl, grace)[k] == offline_write(
                    prior[i],
                    now,
                    ttl,
                ));
            } else {
                let i = prior.len() - 1;
                assert(0 <= i < prior.len() && keeps_offline(prior[i], snap, now, grace)
                    && offline_writes_spec(prior, snap, now, ttl, grace)[k] == offline_write(
                    prior[i],
                    now,
                    ttl,
                ));
            }
        };
        assert forall|k1: int, k2: int|
            0 <= k1 < k2 < offline_writes_spec(prior, snap, now, ttl, grace).len() implies
            offline_writes_spec(prior, snap, now, ttl, grace)[k1].name != offline_writes_spec(
                prior,
                snap,
                now,
                ttl,
                grace,
            )[k2].name by {
            if k2 < offline_writes_spec(dl, snap, now, ttl, grace).len() {
                assert(offline_writes_spec(prior, snap, now, ttl, grace)[k1]
                    == offline_writes_spec(dl, snap, now, ttl, grace)[k1]);
                assert(offline_writes_spec(prior, snap, now, ttl, grace)[k2]
                    == offline_writes_spec(dl, snap, now, ttl, grace)[k2]);
            } else {
                assert(offline_writes_spec(prior, snap, now, ttl, grace)[k1]
                    == offline_writes_spec(dl, snap, now, ttl, grace)[k1]);
                let i1 = choose|i: int|
                    #![trigger offline_write(dl[i], now, ttl)]
                    0 <= i < dl.len() && keeps_offline(dl[i], snap, now, grace)
                        && offline_writes_spec(dl, snap, now, ttl, grace)[k1] == offline_write(
                        dl[i],
                        now,
                        ttl,
                    );
                assert(offline_writes_spec(prior, snap, now, ttl, grace)[k1].name
                    == prior[i1].name);
                assert(offline_writes_spec(prior, snap, now, ttl, grace)[k2].name
                    == prior[prior.len() - 1].name);
            }
        };
    }
}

/// A record list in which no record is past grace and missing produces
/// no deletes.
pub proof fn lemma_no_drops_no_deletes(
    rs: Seq<RecordModel>,
    snap: Seq<EntryModel>,
    now: int,
    grace: int,
)
    requires
        forall|i: int| 0 <= i < rs.len() ==> !drops_record(#[trigger] rs[i], snap, now, grace),
    ensures
        deletes_spec(rs, snap, now, grace) == Seq::<Seq<char>>::empty(),
    decreases rs.len(),
{
    if rs.len() > 0 {
        lemma_no_drops_no_deletes(rs.drop_last(), snap, now, grace);
        assert(!drops_record(rs[rs.len() - 1], snap, now, grace));
    }
}

/// A record list whose names all appear in the snapshot produces no
/// offline writes.
pub proof fn lemma_all_present_no_offline(
    rs: Seq<RecordModel>,
    snap: Seq<EntryModel>,
    now: int,
    ttl: int,
    grace: int,
)
    requires
        forall|i: int| 0 <= i < rs.len() ==> snap_has(snap, #[trigger] rs[i].name),
    ensures
        offline_writes_spec(rs, snap, now, ttl, grace) == Seq::<RecordModel>::empty(),
    decreases rs.len(),
{
    if rs.len() > 0 {
        lemma_all_present_no_offline(rs.drop_last(), snap, now, ttl, grace);
        assert(snap_has(snap, rs[rs.len() - 1].name));
    }
}

/// A record list whose records are all missing-but-kept fixpoints of the
/// offline write is reproduced unchanged by the offline pass.
pub proof fn lemma_all_kept_fixpoint(
    rs: Seq<RecordModel>,
    snap: Seq<EntryModel>,
    now: int,
    ttl: int,
    grace: int,
)
    requires
        forall|i: int|
            0 <= i < rs.len() ==> keeps_offline(#[trigger] rs[i], snap, now, grace)
                && offline_write(rs[i], now, ttl) == rs[i],
    ensures
        offline_writes_spec(rs, snap, now, ttl, grace) == rs,
    decreases rs.len(),
{
    if rs.len() == 0 {
        assert(offline_writes_spec(rs, snap, now, ttl, grace) =~= rs);
    } else {
        lemma_all_kept_fixpoint(rs.drop_last(), snap, now, ttl, grace);
        assert(keeps_offline(rs[rs.len() - 1], snap, now, grace));
        assert(offline_writes_spec(rs, snap, now, ttl, grace) =~= rs.drop_last().push(
            rs[rs.len() - 1],
        ));
        assert(rs.drop_last().push(rs[rs.len() - 1]) =~= rs);
    }
}

/// The offline pass and the delete pass both distribute over
/// concatenation of the prior records.
pub proof fn lemma_prior_concat(
    a: Seq<RecordModel>,
    b: Seq<RecordModel>,
    snap: Seq<EntryModel>,
    now: int,
    ttl: int,
    grace: int,
)
    ensures
        offline_writes_spec(a + b, snap, now, ttl, grace) == offline_writes_spec(
            a,
            snap,
            now,
            ttl,
            grace,
        ) + offline_writes_spec(b, snap, now, ttl, grace),
        deletes_spec(a + b, snap, now, grace) == deletes_spec(a, snap, now, grace) + deletes_spec(
            b,
            snap,
            now,
            grace,
        ),
    decreases b.len(),
{
    if b.len() == 0 {
        assert(a + b =~= a);
        assert(offline_writes_spec(b, snap, now, ttl, grace) =~= Seq::<RecordModel>::empty());
        assert(deletes_spec(b, snap, now, grace) =~= Seq::<Seq<char>>::empty());
        assert(offline_writes_spec(a, snap, now, ttl, grace) + offline_writes_spec(
            b,
            snap,
            now,
            ttl,
            grace,
        ) =~= offline_writes_spec(a, snap, now, ttl, grace));
        assert(deletes_spec(a, snap, now, grace) + deletes_spec(b, snap, now, grace)
            =~= deletes_spec(a, snap, now, grace));
    } else {
        lemma_prior_concat(a, b.drop_last(), snap, now, ttl, grace);
        assert((a + b).drop_last() =~= a + b.drop_last());
        assert((a + b).last() == b.last());
        if keeps_offline(b.last(), snap, now, grace) {
            assert((offline_writes_spec(a, snap, now, ttl, grace) + offline_writes_spec(
                b.drop_last(),
                snap,
                now,
                ttl,
                grace,
            )).push(offline_write(b.last(), now, ttl)) =~= offline_writes_spec(
                a,
                snap,
                now,
                ttl,
                grace,
            ) + offline_writes_spec(b, snap, now, ttl, grace));
        }
        if drops_record(b.last(), snap, now, grace) {
            assert((deletes_spec(a, snap, now, grace) + deletes_spec(
                b.drop_last(),
                snap,
                now,
                grace,
            )).push(b.last().name) =~= deletes_spec(a, snap, now, grace) + deletes_spec(
                b,
                snap,
                now,
                grace,
            ));
        }
    }
}

/// With unique names on both inputs, the names of the cycle's writes are
/// unique as well, so the store keeps at most one record per entity.
pub proof fn lemma_writes_names_unique(
    snap: Seq<EntryModel>,
    prior: Seq<RecordModel>,
    now: int,
    ttl: int,
    grace: int,
)
    requires
        entry_names_unique(snap),
        record_names_unique(prior),
    ensures
        record_names_unique(writes_spec(snap, prior, now, ttl, grace)),
{
    let ows = offline_writes_spec(prior, snap, now, ttl, grace);
    let pws = present_writes_spec(snap, prior, now, ttl);
    let ws = writes_spec(snap, prior, now, ttl, grace);
    lemma_offline_writes_shape(prior, snap, now, ttl, grace);
    lemma_present_writes_len(snap, prior, now, ttl);
    assert forall|k1: int, k2: int| 0 <= k1 < k2 < ws.len() implies ws[k1].name != ws[k2].name by {
        if k2 < ows.len() {
            assert(ws[k1] == ows[k1] && ws[k2] == ows[k2]);
        } else if k1 >= ows.len() {
            lemma_present_writes_index(snap, prior, now, ttl, k1 - ows.len());
            lemma_present_writes_index(snap, prior, now, ttl, k2 - ows.len());
            assert(ws[k1].name == snap[k1 - ows.len()].name);
            assert(ws[k2].name == snap[k2 - ows.len()].name);
        } else {
            let i = choose|i: int|
                0 <= i < prior.len() && keeps_offline(prior[i], snap, now, grace) && ows[k1]
                    == offline_write(prior[i], now, ttl);
            let j = k2 - ows.len();
            lemma_present_writes_index(snap, prior, now, ttl, j);
            assert(ws[k2].name == snap[j].name);
            assert(snap_has(snap, snap[j].name));
            assert(!snap_has(snap, ws[k1].name));
        }
    };
}

/// Every record the cycle writes is well-formed, so the store's
/// invariants survive every cycle.
pub proof fn lemma_writes_wf(
    snap: Seq<EntryModel>,
    prior: Seq<RecordModel>,
    now: int,
    ttl: int,
    grace: int,
)
    requires
        record_names_unique(prior),
        records_wf(prior),
        0 <= now,
        0 <= ttl,
    ensures
        records_wf(writes_spec(snap, prior, now, ttl, grace)),
{
    let ows = offline_writes_spec(prior, snap, now, ttl, grace);
    let pws = present_writes_spec(snap, prior, now, ttl);
    let ws = writes_spec(snap, prior, now, ttl, grace);
    lemma_offline_writes_shape(prior, snap, now, ttl, grace);
    lemma_present_writes_len(snap, prior, now, ttl);
    assert forall|k: int| 0 <= k < ws.len() implies record_wf(#[trigger] ws[k]) by {
        if k < ows.len() {
            let i = choose|i: int|
                0 <= i < prior.len() && keeps_offline(prior[i], snap, now, grace) && ows[k]
                    == offline_write(prior[i], now, ttl);
            assert(record_wf(prior[i]));
            assert(ws[k] == ows[k]);
        } else {
            let j = k - ows.len();
            lemma_present_writes_index(snap, prior, now, ttl, j);
            assert(ws[k] == pws[j]);
            if recs_have(prior, snap[j].name) {
                let i = rec_index_of(prior, snap[j].name);
                assert(0 <= i < prior.len() && prior[i].name == snap[j].name);
                assert(record_wf(prior[i]));
            }
        }
    };
}

/// A prior record that is missing but kept contributes its offline
/// write to the cycle.
pub proof fn lemma_offline_writes_contains(
    prior: Seq<RecordModel>,
    snap: Seq<EntryModel>,
    now: int,
    ttl: int,
    grace: int,
    i: int,
)
    requires
        0 <= i < prior.len(),
        keeps_offline(prior[i], snap, now, grace),
    ensures
        offline_writes_spec(prior, snap, now, ttl, grace).contains(offline_write(prior[i], now, ttl)),
    decreases prior.len(),
{
    let ows = offline_writes_spec(prior, snap, now, ttl, grace);
    let rest = offline_writes_spec(prior.drop_last(), snap, now, ttl, grace);
    if i == prior.len() - 1 {
        assert(ows[rest.len() as int] == offline_write(prior[i], now, ttl));
    } else {
        lemma_offline_writes_contains(prior.drop_last(), snap, now, ttl, grace, i);
        assert(prior.drop_last()[i] == prior[i]);
        let k = choose|k: int|
            0 <= k < rest.len() && rest[k] == offline_write(prior.drop_last()[i], now, ttl);
        assert(ows[k] == offline_write(prior[i], now, ttl));
    }
}

/// A prior record that is missing and past grace contributes its name
/// to the cycle's deletes.
pub proof fn lemma_deletes_contains(
    prior: Seq<RecordModel>,
    snap: Seq<EntryModel>,
    now: int,
    grace: int,
    i: int,
)
    requires
        0 <= i < prior.len(),
        drops_record(prior[i], snap, now, grace),
    ensures
        deletes_spec(prior, snap, now, grace).contains(prior[i].name),
    decreases prior.len(),
{
    let dels = deletes_spec(prior, snap, now, grace);
    let rest = deletes_spec(prior.drop_last(), snap, now, grace);
    if i == prior.len() - 1 {
        assert(dels[rest.len() as int] == prior[i].name);
    } else {
        lemma_deletes_contains(prior.drop_last(), snap, now, grace, i);
        assert(prior.drop_last()[i] == prior[i]);
        let k = choose|k: int| 0 <= k < rest.len() && rest[k] == prior.drop_last()[i].name;
        assert(dels[k] == prior[i].name);
    }
}

// ---------------------------------------------------------------------
// The engine's laws.
// ---------------------------------------------------------------------

/// An entity present in the snapshot with a non-empty occupant list is
/// written online, with `offline_since` absent and the occupant count
/// equal to the list's length.
pub proof fn lemma_present_occupied_online(
    snap: Seq<EntryModel>,
    prior: Seq<RecordModel>,
    now: int,
    ttl: int,
    grace: int,
    j: int,
)
    requires
        0 <= j < snap.len(),
        snap[j].occupants.len() > 0,
    ensures
        writes_spec(snap, prior, now, ttl, grace).len() == offline_writes_spec(
            prior,
            snap,
            now,
            ttl,
            grace,
        ).len() + snap.len(),
        ({
            let w = writes_spec(snap, prior, now, ttl, grace)[offline_writes_spec(
                prior,
                snap,
                now,
                ttl,
                grace,
            ).len() + j];
            &&& w.name == snap[j].name
            &&& w.online
            &&& w.offline_since is None
            &&& w.occupant_count == snap[j].occupants.len()
            &&& w.occupants == snap[j].occupants
        }),
{
    lemma_present_writes_index(snap, prior, now, ttl, j);
}

/// An entity missing from the snapshot whose prior record was online is
/// kept, written offline with `offline_since` freshly set to `now`.
pub proof fn lemma_first_absence_marks_offline(
    prior: Seq<RecordModel>,
    snap: Seq<EntryModel>,
    now: int,
    ttl: int,
    grace: int,
    i: int,
)
    requires
        0 <= i < prior.len(),
        record_wf(prior[i]),
        prior[i].online,
        !snap_has(snap, prior[i].name),
        0 <= grace,
    ensures
        offline_writes_spec(prior, snap, now, ttl, grace).contains(offline_write(prior[i], now, ttl)),
        !offline_write(prior[i], now, ttl).online,
        offline_write(prior[i], now, ttl).offline_since == Option::<int>::Some(now),
{
    assert(offline_since_for(prior[i], now) == now);
    assert(!past_grace(prior[i], now, grace));
    lemma_offline_writes_contains(prior, snap, now, ttl, grace, i);
}

/// An entity missing from the snapshot whose offline age is within the
/// grace period keeps its record, with `offline_since` and `first_seen`
/// carried forward unchanged.
pub proof fn lemma_within_grace_carries_offline_since(
    prior: Seq<RecordModel>,
    snap: Seq<EntryModel>,
    now: int,
    ttl: int,
    grace: int,
    i: int,
)
    requires
        0 <= i < prior.len(),
        !snap_has(snap, prior[i].name),
        match prior[i].offline_since {
            Option::Some(t) => now - t <= grace,
            Option::None => false,
        },
    ensures
        offline_writes_spec(prior, snap, now, ttl, grace).contains(offline_write(prior[i], now, ttl)),
        !offline_write(prior[i], now, ttl).online,
        offline_write(prior[i], now, ttl).offline_since == prior[i].offline_since,
        offline_write(prior[i], now, ttl).first_seen == prior[i].first_seen,
{
    assert(!past_grace(prior[i], now, grace));
    lemma_offline_writes_contains(prior, snap, now, ttl, grace, i);
}

/// An entity missing from the snapshot whose offline age exceeds the
/// grace period is deleted: its name is among the deletes and no write
/// of the cycle carries it.
pub proof fn lemma_past_grace_deletes(
    snap: Seq<EntryModel>,
    prior: Seq<RecordModel>,
    now: int,
    ttl: int,
    grace: int,
    i: int,
)
    requires
        record_names_unique(prior),
        0 <= i < prior.len(),
        !snap_has(snap, prior[i].name),
        past_grace(prior[i], now, grace),
    ensures
        deletes_spec(prior, snap, now, grace).contains(prior[i].name),
        forall|k: int|
            #![trigger writes_spec(snap, prior, now, ttl, grace)[k]]
            0 <= k < writes_spec(snap, prior, now, ttl, grace).len() ==> writes_spec(
                snap,
                prior,
                now,
                ttl,
                grace,
            )[k].name != prior[i].name,
{
    lemma_deletes_contains(prior, snap, now, grace, i);
    lemma_offline_writes_shape(prior, snap, now, ttl, grace);
    lemma_present_writes_len(snap, prior, now, ttl);
    let ows = offline_writes_spec(prior, snap, now, ttl, grace);
    let ws = writes_spec(snap, prior, now, ttl, grace);
    assert forall|k: int|
        #![trigger writes_spec(snap, prior, now, ttl, grace)[k]]
        0 <= k < ws.len() implies ws[k].name != prior[i].name by {
        if k < ows.len() {
            assert(ws[k] == ows[k]);
            let i2 = choose|i2: int|
                #![trigger offline_write(prior[i2], now, ttl)]
                0 <= i2 < prior.len() && keeps_offline(prior[i2], snap, now, grace)
                    && offline_writes_spec(prior, snap, now, ttl, grace)[k] == offline_write(
                    prior[i2],
                    now,
                    ttl,
                );
            if prior[i2].name == prior[i].name {
                assert(i2 == i);
                assert(false);
            }
        } else {
            let j = k - ows.len();
            lemma_present_writes_index(snap, prior, now, ttl, j);
            assert(ws[k].name == snap[j].name);
            assert(snap_has(snap, snap[j].name));
        }
    };
}

/// `first_seen` is invariant: every write of a cycle carries the prior
/// record's `first_seen` when one exists, and `now` otherwise. Across
/// any run of cycles an entity's `first_seen` therefore never changes
/// until the record is deleted and later recreated.
pub proof fn lemma_first_seen_invariant(
    snap: Seq<EntryModel>,
    prior: Seq<RecordModel>,
    now: int,
    ttl: int,
    grace: int,
    k: int,
)
    requires
        record_names_unique(prior),
        0 <= k < writes_spec(snap, prior, now, ttl, grace).len(),
    ensures
        writes_spec(snap, prior, now, ttl, grace)[k].first_seen == first_seen_for(
            prior,
            writes_spec(snap, prior, now, ttl, grace)[k].name,
            now,
        ),
        recs_have(prior, writes_spec(snap, prior, now, ttl, grace)[k].name)
            ==> writes_spec(snap, prior, now, ttl, grace)[k].first_seen == rec_at(
            prior,
            writes_spec(snap, prior, now, ttl, grace)[k].name,
        ).first_seen,
{
    lemma_offline_writes_shape(prior, snap, now, ttl, grace);
    lemma_present_writes_len(snap, prior, now, ttl);
    let ows = offline_writes_spec(prior, snap, now, ttl, grace);
    let ws = writes_spec(snap, prior, now, ttl, grace);
    if k < ows.len() {
        assert(ws[k] == ows[k]);
        let i = choose|i: int|
            #![trigger offline_write(prior[i], now, ttl)]
            0 <= i < prior.len() && keeps_offline(prior[i], snap, now, grace)
                && offline_writes_spec(prior, snap, now, ttl, grace)[k] == offline_write(
                prior[i],
                now,
                ttl,
            );
        lemma_rec_at_index(prior, i);
    } else {
        let j = k - ows.len();
        lemma_present_writes_index(snap, prior, now, ttl, j);
        assert(ws[k] == present_writes_spec(snap, prior, now, ttl)[j]);
    }
}

/// Reconciliation is idempotent: with the cycle's own writes as the
/// prior records and the same snapshot and `now`, a second run writes
/// exactly the same records and deletes nothing.
pub proof fn lemma_reconcile_idempotent(
    snap: Seq<EntryModel>,
    prior: Seq<RecordModel>,
    now: int,
    ttl: int,
    grace: int,
)
    requires
        entry_names_unique(snap),
        record_names_unique(prior),
        records_wf(prior),
        0 <= now,
        0 <= ttl,
        0 <= grace,
    ensures
        writes_spec(snap, writes_spec(snap, prior, now, ttl, grace), now, ttl, grace)
            == writes_spec(snap, prior, now, ttl, grace),
        deletes_spec(writes_spec(snap, prior, now, ttl, grace), snap, now, grace)
            == Seq::<Seq<char>>::empty(),
{
    let ows = offline_writes_spec(prior, snap, now, ttl, grace);
    let pws = present_writes_spec(snap, prior, now, ttl);
    let ws = writes_spec(snap, prior, now, ttl, grace);
    lemma_offline_writes_shape(prior, snap, now, ttl, grace);
    lemma_present_writes_len(snap, prior, now, ttl);
    lemma_writes_names_unique(snap, prior, now, ttl, grace);
    assert(ws == ows + pws);
    assert(ws.len() == ows.len() + pws.len());

    // Every offline write of the first run is again missing, within
    // grace, and a fixpoint of the offline write.
    assert forall|k: int|
        0 <= k < ows.len() implies keeps_offline(#[trigger] ows[k], snap, now, grace)
        && offline_write(ows[k], now, ttl) == ows[k] by {
        let i = choose|i: int|
            #![trigger offline_write(prior[i], now, ttl)]
            0 <= i < prior.len() && keeps_offline(prior[i], snap, now, grace)
                && offline_writes_spec(prior, snap, now, ttl, grace)[k] == offline_write(
                prior[i],
                now,
                ttl,
            );
        assert(offline_since_for(ows[k], now) == offline_since_for(prior[i], now));
        assert(!past_grace(ows[k], now, grace));
        assert(offline_write(ows[k], now, ttl) =~= ows[k]);
    };

    // Every present write of the first run carries a snapshot name.
    assert forall|j: int| 0 <= j < pws.len() implies snap_has(
        snap,
        #[trigger] pws[j].name,
    ) by {
        lemma_present_writes_index(snap, prior, now, ttl, j);
        assert(pws[j].name == snap[j].name);
        assert(snap_has(snap, snap[j].name));
    };

    // The second run's offline pass reproduces the offline writes.
    lemma_prior_concat(ows, pws, snap, now, ttl, grace);
    lemma_all_kept_fixpoint(ows, snap, now, ttl, grace);
    lemma_all_present_no_offline(pws, snap, now, ttl, grace);
    assert(offline_writes_spec(ws, snap, now, ttl, grace) == ows + Seq::<RecordModel>::empty());
    assert(ows + Seq::<RecordModel>::empty() =~= ows);

    // The second run deletes nothing: no record of the first run's
    // writes is both missing and past grace.
    assert forall|k: int|
        0 <= k < ws.len() implies !drops_record(#[trigger] ws[k], snap, now, grace) by {
        if k < ows.len() {
            assert(ws[k] == ows[k]);
        } else {
            assert(ws[k] == pws[k - ows.len()]);
        }
    };
    lemma_no_drops_no_deletes(ws, snap, now, grace);

    // The second run's present pass carries the same `first_seen`, so
    // it writes the same records.
    assert forall|j: int|
        0 <= j < snap.len() implies present_writes_spec(snap, ws, now, ttl)[j]
        == present_writes_spec(snap, prior, now, ttl)[j] by {
        lemma_present_writes_index(snap, ws, now, ttl, j);
        lemma_present_writes_index(snap, prior, now, ttl, j);
        let n = snap[j].name;
        assert(ws[ows.len() + j] == pws[j]);
        assert(pws[j].name == n);
        assert(recs_have(ws, n));
        lemma_rec_at_index(ws, ows.len() + j);
        assert(rec_at(ws, n) == pws[j]);
        assert(first_seen_for(ws, n, now) == pws[j].first_seen);
        assert(pws[j].first_seen == first_seen_for(prior, n, now));
    };
    lemma_present_writes_len(snap, ws, now, ttl);
    assert(present_writes_spec(snap, ws, now, ttl) =~= pws);
    assert(writes_spec(snap, ws, now, ttl, grace) == ows + pws);
}

} // verus!
