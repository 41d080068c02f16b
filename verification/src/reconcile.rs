//! The reconciler: the pure core of the engine.
//!
//! Given one snapshot, the records read from the store and the current
//! time, `reconcile` computes every write and delete to apply plus a
//! change summary. It does no I/O; the spec functions here say exactly
//! which records come out, so a caller knows the store's next state.

use vstd::prelude::*;

use crate::record::{
    lemma_rec_at_index, names_view, rec_at, record_names_unique, record_wf, records_wf,
    recs_have, recs_view, PresenceRecord, RecordModel,
};
use crate::text::clone_names;
use crate::snapshot::{
    entries_view, entry_names_unique, snap_has, snap_names, snapshot_contains, EntryModel,
    SnapshotEntry,
};

verus! {

// ---------------------------------------------------------------------
// Per-record decisions.
// ---------------------------------------------------------------------

/// The moment an absent entity went offline: the prior record's value if
/// it was already offline, else `now` (first time missing).
pub open spec fn offline_since_for(r: RecordModel, now: int) -> int {
    match r.offline_since {
        Option::Some(t) => t,
        Option::None => now,
    }
}

/// Whether an absent entity's offline age exceeds the deletion grace
/// period.
pub open spec fn past_grace(r: RecordModel, now: int, grace: int) -> bool {
    now - offline_since_for(r, now) > grace
}

/// The prior record is missing from the snapshot and its grace period
/// has run out: it is deleted this cycle.
pub open spec fn drops_record(r: RecordModel, snap: Seq<EntryModel>, now: int, grace: int) -> bool {
    !snap_has(snap, r.name) && past_grace(r, now, grace)
}

/// The prior record is missing from the snapshot but still within the
/// grace period: it is kept, marked offline.
pub open spec fn keeps_offline(
    r: RecordModel,
    snap: Seq<EntryModel>,
    now: int,
    grace: int,
) -> bool {
    !snap_has(snap, r.name) && !past_grace(r, now, grace)
}

/// The record written for an entity that is missing from the snapshot
/// but within grace: offline, emptied, `first_seen` carried forward,
/// `offline_since` preserved (or freshly set), TTL refreshed.
pub open spec fn offline_write(r: RecordModel, now: int, ttl: int) -> RecordModel {
    RecordModel {
        name: r.name,
        online: false,
        occupant_count: 0,
        occupants: Seq::empty(),
        first_seen: r.first_seen,
        offline_since: Option::Some(offline_since_for(r, now)),
        expire_at: now + ttl,
    }
}

/// The `first_seen` for an entity present this cycle: the prior record's
/// value if one exists, else `now`.
pub open spec fn first_seen_for(prior: Seq<RecordModel>, name: Seq<char>, now: int) -> int {
    if recs_have(prior, name) {
        rec_at(prior, name).first_seen
    } else {
        now
    }
}

/// The record written for an entity present in the snapshot. With
/// occupants it is online and `offline_since` is absent; present with
/// zero occupants it is offline with `offline_since` freshly set to
/// `now` each such cycle.
pub open spec fn present_write(e: EntryModel, first_seen: int, now: int, ttl: int) -> RecordModel {
    RecordModel {
        name: e.name,
        online: e.occupants.len() > 0,
        occupant_count: e.occupants.len() as int,
        occupants: e.occupants,
        first_seen: first_seen,
        offline_since: if e.occupants.len() > 0 {
            Option::None
        } else {
            Option::Some(now)
        },
        expire_at: now + ttl,
    }
}

// ---------------------------------------------------------------------
// Cycle-level results, defined over the whole inputs.
// ---------------------------------------------------------------------

/// Names deleted this cycle, in prior-record order.
pub open spec fn deletes_spec(
    prior: Seq<RecordModel>,
    snap: Seq<EntryModel>,
    now: int,
    grace: int,
) -> Seq<Seq<char>>
    decreases prior.len(),
{
    if prior.len() == 0 {
        Seq::empty()
    } else {
        let rest = deletes_spec(prior.drop_last(), snap, now, grace);
        if drops_record(prior.last(), snap, now, grace) {
            rest.push(prior.last().name)
        } else {
            rest
        }
    }
}

/// Offline writes for entities missing from the snapshot but kept, in
/// prior-record order.
pub open spec fn offline_writes_spec(
    prior: Seq<RecordModel>,
    snap: Seq<EntryModel>,
    now: int,
    ttl: int,
    grace: int,
) -> Seq<RecordModel>
    decreases prior.len(),
{
    if prior.len() == 0 {
        Seq::empty()
    } else {
        let rest = offline_writes_spec(prior.drop_last(), snap, now, ttl, grace);
        if keeps_offline(prior.last(), snap, now, grace) {
            rest.push(offline_write(prior.last(), now, ttl))
        } else {
            rest
        }
    }
}

/// The names considered offline after the cycle: missing but kept, in
/// prior-record order.
pub open spec fn offline_now_spec(
    prior: Seq<RecordModel>,
    snap: Seq<EntryModel>,
    now: int,
    grace: int,
) -> Seq<Seq<char>>
    decreases prior.len(),
{
    if prior.len() == 0 {
        Seq::empty()
    } else {
        let rest = offline_now_spec(prior.drop_last(), snap, now, grace);
        if keeps_offline(prior.last(), snap, now, grace) {
            rest.push(prior.last().name)
        } else {
            rest
        }
    }
}

/// Writes for entities present in the snapshot, in snapshot order.
pub open spec fn present_writes_spec(
    snap: Seq<EntryModel>,
    prior: Seq<RecordModel>,
    now: int,
    ttl: int,
) -> Seq<RecordModel>
    decreases snap.len(),
{
    if snap.len() == 0 {
        Seq::empty()
    } else {
        present_writes_spec(snap.drop_last(), prior, now, ttl).push(
            present_write(
                snap.last(),
                first_seen_for(prior, snap.last().name, now),
                now,
                ttl,
            ),
        )
    }
}

/// Names present this cycle that had no prior record, in snapshot order.
pub open spec fn added_names_spec(snap: Seq<EntryModel>, prior: Seq<RecordModel>) -> Seq<Seq<char>>
    decreases snap.len(),
{
    if snap.len() == 0 {
        Seq::empty()
    } else {
        let rest = added_names_spec(snap.drop_last(), prior);
        if !recs_have(prior, snap.last().name) {
            rest.push(snap.last().name)
        } else {
            rest
        }
    }
}

/// Every record written this cycle: offline writes first, then the
/// writes for present entities.
pub open spec fn writes_spec(
    snap: Seq<EntryModel>,
    prior: Seq<RecordModel>,
    now: int,
    ttl: int,
    grace: int,
) -> Seq<RecordModel> {
    offline_writes_spec(prior, snap, now, ttl, grace) + present_writes_spec(snap, prior, now, ttl)
}

/// Mathematical model of a [`CycleSummary`].
#[verifier::ext_equal]
pub ghost struct SummaryModel {
    pub added: int,
    pub removed: int,
    pub unchanged: int,
    pub added_names: Seq<Seq<char>>,
    pub removed_names: Seq<Seq<char>>,
    pub online_now: Seq<Seq<char>>,
    pub offline_now: Seq<Seq<char>>,
}

/// The summary a cycle must report: `added` counts present names with no
/// prior record, `removed` counts deletions, `unchanged` everything else
/// written; the online set is the snapshot's names and the offline set
/// the names missing but kept.
pub open spec fn summary_spec(
    snap: Seq<EntryModel>,
    prior: Seq<RecordModel>,
    now: int,
    grace: int,
) -> SummaryModel {
    SummaryModel {
        added: added_names_spec(snap, prior).len() as int,
        removed: deletes_spec(prior, snap, now, grace).len() as int,
        unchanged: offline_now_spec(prior, snap, now, grace).len() + snap.len()
            - added_names_spec(snap, prior).len(),
        added_names: added_names_spec(snap, prior),
        removed_names: deletes_spec(prior, snap, now, grace),
        online_now: snap_names(snap),
        offline_now: offline_now_spec(prior, snap, now, grace),
    }
}

/// The change summary of one reconciliation cycle.
pub struct CycleSummary {
    pub added: usize,
    pub removed: usize,
    pub unchanged: usize,
    pub added_names: Vec<String>,
    pub removed_names: Vec<String>,
    pub online_now: Vec<String>,
    pub offline_now: Vec<String>,
}

impl View for CycleSummary {
    type V = SummaryModel;

    open spec fn view(&self) -> SummaryModel {
        SummaryModel {
            added: self.added as int,
            removed: self.removed as int,
            unchanged: self.unchanged as int,
            added_names: names_view(self.added_names@),
            removed_names: names_view(self.removed_names@),
            online_now: names_view(self.online_now@),
            offline_now: names_view(self.offline_now@),
        }
    }
}

/// Everything one cycle asks the store to do, plus its summary.
pub struct ReconcileOutcome {
    pub writes: Vec<PresenceRecord>,
    pub deletes: Vec<String>,
    pub summary: CycleSummary,
}

// ---------------------------------------------------------------------
// Executable helpers.
// ---------------------------------------------------------------------

/// Finds the index of the record named `name`, if any.
fn find_record(prior: &Vec<PresenceRecord>, name: &String) -> (found: Option<usize>)
    ensures
        match found {
            Option::Some(k) => 0 <= k < prior@.len() && recs_view(prior@)[k as int].name == name@
                && recs_have(recs_view(prior@), name@),
            Option::None => !recs_have(recs_view(prior@), name@),
        },
{
    let ghost pm = recs_view(prior@);
    let mut i: usize = 0;
    while i < prior.len()
        invariant
            0 <= i <= prior@.len(),
            pm == recs_view(prior@),
            pm.len() == prior@.len(),
            forall|k: int| 0 <= k < i ==> pm[k].name != name@,
        decreases prior@.len() - i,
    {
        if prior[i].name == *name {
            assert(pm[i as int].name == name@);
            return Option::Some(i);
        }
        i += 1;
    }
    Option::None
}

// ---------------------------------------------------------------------
// The reconciler.
// ---------------------------------------------------------------------

/// Turns one snapshot plus the prior records into the writes and deletes
/// of this cycle and its summary, exactly as the cycle-level spec
/// functions describe.
#[verifier::loop_isolation(false)]
pub fn reconcile(
    snapshot: &Vec<SnapshotEntry>,
    prior: &Vec<PresenceRecord>,
    now: i64,
    ttl_seconds: i64,
    delete_grace_seconds: i64,
) -> (outcome: ReconcileOutcome)
    requires
        entry_names_unique(entries_view(snapshot@)),
        record_names_unique(recs_view(prior@)),
        records_wf(recs_view(prior@)),
        0 <= now,
        0 <= ttl_seconds,
        0 <= delete_grace_seconds,
        now + ttl_seconds <= i64::MAX,
        prior@.len() + snapshot@.len() <= usize::MAX,
    ensures
        recs_view(outcome.writes@) == writes_spec(
            entries_view(snapshot@),
            recs_view(prior@),
            now as int,
            ttl_seconds as int,
            delete_grace_seconds as int,
        ),
        names_view(outcome.deletes@) == deletes_spec(
            recs_view(prior@),
            entries_view(snapshot@),
            now as int,
            delete_grace_seconds as int,
        ),
        outcome.summary@ == summary_spec(
            entries_view(snapshot@),
            recs_view(prior@),
            now as int,
            delete_grace_seconds as int,
        ),
{
    let ghost pm = recs_view(prior@);
    let ghost sm = entries_view(snapshot@);
    let ghost nowi = now as int;
    let ghost ttl = ttl_seconds as int;
    let ghost grace = delete_grace_seconds as int;

    let mut writes: Vec<PresenceRecord> = Vec::new();
    let mut deletes: Vec<String> = Vec::new();
    let mut removed_names: Vec<String> = Vec::new();
    let mut added_names: Vec<String> = Vec::new();
    let mut online_now: Vec<String> = Vec::new();
    let mut offline_now: Vec<String> = Vec::new();
    let mut added: usize = 0;
    let mut unchanged: usize = 0;

    // Entities with a prior record that are missing from this snapshot:
    // delete them past grace, otherwise keep them offline.
    let mut i: usize = 0;
    while i < prior.len()
        invariant
            0 <= i <= prior@.len(),
            recs_view(writes@) == offline_writes_spec(pm.take(i as int), sm, nowi, ttl, grace),
            names_view(deletes@) == deletes_spec(pm.take(i as int), sm, nowi, grace),
            names_view(removed_names@) == deletes_spec(pm.take(i as int), sm, nowi, grace),
            names_view(offline_now@) == offline_now_spec(pm.take(i as int), sm, nowi, grace),
            unchanged == offline_now_spec(pm.take(i as int), sm, nowi, grace).len(),
            unchanged <= i,
        decreases prior@.len() - i,
    {
        let rec = &prior[i];
        proof {
            assert(pm[i as int] == prior@[i as int]@);
            assert(record_wf(pm[i as int]));
        }
        if !snapshot_contains(snapshot, &rec.name) {
            let offline_since: i64 = match rec.offline_since {
                Option::Some(t) => t,
                Option::None => now,
            };
            assert(offline_since as int == offline_since_for(pm[i as int], nowi));
            let age: i64 = now - offline_since;
            if age > delete_grace_seconds {
                let ghost old_deletes = deletes@;
                let ghost old_removed = removed_names@;
                deletes.push(rec.name.clone());
                removed_names.push(rec.name.clone());
                proof {
                    assert(names_view(deletes@) =~= names_view(old_deletes).push(
                        pm[i as int].name,
                    ));
                    assert(names_view(removed_names@) =~= names_view(old_removed).push(
                        pm[i as int].name,
                    ));
                }
            } else {
                let ghost old_writes = writes@;
                let ghost old_offline = offline_now@;
                let w = PresenceRecord {
                    name: rec.name.clone(),
                    online: false,
                    occupant_count: 0,
                    occupants: Vec::new(),
                    first_seen: rec.first_seen,
                    offline_since: Option::Some(offline_since),
                    expire_at: now + ttl_seconds,
                };
                proof {
                    assert(w@.occupants =~= Seq::<Seq<char>>::empty());
                    assert(w@ =~= offline_write(pm[i as int], nowi, ttl));
                }
                writes.push(w);
                offline_now.push(rec.name.clone());
                unchanged = unchanged + 1;
                proof {
                    assert(recs_view(writes@) =~= recs_view(old_writes).push(
                        offline_write(pm[i as int], nowi, ttl),
                    ));
                    assert(names_view(offline_now@) =~= names_view(old_offline).push(
                        pm[i as int].name,
                    ));
                }
            }
        }
        proof {
            let i0 = i as int;
            assert(pm.take(i0 + 1).drop_last() =~= pm.take(i0));
            assert(pm.take(i0 + 1).last() == pm[i0]);
        }
        i += 1;
    }
    proof {
        assert(pm.take(pm.len() as int) =~= pm);
    }

    // Entities present in this snapshot: written online, or offline with
    // a fresh `offline_since` when present with zero occupants.
    let mut j: usize = 0;
    while j < snapshot.len()
        invariant
            0 <= j <= snapshot@.len(),
            recs_view(writes@) == offline_writes_spec(pm, sm, nowi, ttl, grace)
                + present_writes_spec(sm.take(j as int), pm, nowi, ttl),
            names_view(added_names@) == added_names_spec(sm.take(j as int), pm),
            names_view(online_now@) == snap_names(sm.take(j as int)),
            added == added_names_spec(sm.take(j as int), pm).len(),
            added <= j,
            unchanged == offline_now_spec(pm, sm, nowi, grace).len() + j - added,
            unchanged <= prior@.len() + j,
        decreases snapshot@.len() - j,
    {
        let entry = &snapshot[j];
        proof {
            assert(sm[j as int] == snapshot@[j as int]@);
        }
        let found = find_record(prior, &entry.name);
        let first_seen: i64 = match found {
            Option::Some(k) => {
                proof {
                    lemma_rec_at_index(pm, k as int);
                }
                prior[k].first_seen
            },
            Option::None => now,
        };
        assert(first_seen as int == first_seen_for(pm, sm[j as int].name, nowi));

        let occupants = clone_names(&entry.occupants);
        let count = occupants.len();
        let is_online = count > 0;
        let w = PresenceRecord {
            name: entry.name.clone(),
            online: is_online,
            occupant_count: count,
            occupants: occupants,
            first_seen: first_seen,
            offline_since: if is_online {
                Option::None
            } else {
                Option::Some(now)
            },
            expire_at: now + ttl_seconds,
        };
        proof {
            assert(w@.occupants =~= sm[j as int].occupants);
            assert(w@ =~= present_write(
                sm[j as int],
                first_seen_for(pm, sm[j as int].name, nowi),
                nowi,
                ttl,
            ));
        }
        let ghost old_writes = writes@;
        let ghost old_added = added_names@;
        let ghost old_online = online_now@;
        writes.push(w);
        online_now.push(entry.name.clone());
        if found.is_none() {
            added_names.push(entry.name.clone());
            added = added + 1;
            proof {
                assert(names_view(added_names@) =~= names_view(old_added).push(
                    sm[j as int].name,
                ));
            }
        } else {
            unchanged = unchanged + 1;
        }
        proof {
            let j0 = j as int;
            assert(sm.take(j0 + 1).drop_last() =~= sm.take(j0));
            assert(sm.take(j0 + 1).last() == sm[j0]);
            assert(recs_view(writes@) =~= recs_view(old_writes).push(
                present_write(sm[j0], first_seen_for(pm, sm[j0].name, nowi), nowi, ttl),
            ));
            assert(recs_view(old_writes).push(
                present_write(sm[j0], first_seen_for(pm, sm[j0].name, nowi), nowi, ttl),
            ) =~= offline_writes_spec(pm, sm, nowi, ttl, grace)
                + present_writes_spec(sm.take(j0 + 1), pm, nowi, ttl));
            assert(names_view(online_now@) =~= names_view(old_online).push(sm[j0].name));
            assert(names_view(online_now@) =~= snap_names(sm.take(j0 + 1)));
        }
        j += 1;
    }
    proof {
        assert(sm.take(sm.len() as int) =~= sm);
    }

    let removed = deletes.len();
    let summary = CycleSummary {
        added,
        removed,
        unchanged,
        added_names,
        removed_names,
        online_now,
        offline_now,
    };
    proof {
        assert(summary@ =~= summary_spec(sm, pm, nowi, grace));
    }
    ReconcileOutcome { writes, deletes, summary }
}

} // verus!
