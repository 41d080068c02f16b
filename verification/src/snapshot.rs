//! One point-in-time population snapshot: entity names mapped to the
//! occupants currently on them, and the grouping step that builds the
//! snapshot out of raw (occupant, entity) sightings.

use vstd::prelude::*;

verus! {

/// Mathematical model of a [`SnapshotEntry`].
#[verifier::ext_equal]
pub ghost struct EntryModel {
    pub name: Seq<char>,
    pub occupants: Seq<Seq<char>>,
}

/// One entity of a snapshot together with its current occupants.
pub struct SnapshotEntry {
    pub name: String,
    pub occupants: Vec<String>,
}

impl View for SnapshotEntry {
    type V = EntryModel;

    open spec fn view(&self) -> EntryModel {
        EntryModel {
            name: self.name@,
            occupants: self.occupants@.map_values(|s: String| s@),
        }
    }
}

/// Model view of a snapshot.
pub open spec fn entries_view(es: Seq<SnapshotEntry>) -> Seq<EntryModel> {
    es.map_values(|e: SnapshotEntry| e@)
}

/// Whether the snapshot holds an entry for `name`.
pub open spec fn snap_has(snap: Seq<EntryModel>, name: Seq<char>) -> bool {
    exists|i: int| 0 <= i < snap.len() && snap[i].name == name
}

/// At most one entry per entity name.
pub open spec fn entry_names_unique(snap: Seq<EntryModel>) -> bool {
    forall|i: int, j: int| 0 <= i < j < snap.len() ==> snap[i].name != snap[j].name
}

/// The entity names of a snapshot, in snapshot order.
pub open spec fn snap_names(snap: Seq<EntryModel>) -> Seq<Seq<char>> {
    snap.map_values(|e: EntryModel| e.name)
}

/// The index of the entry named `name` (meaningful under [`snap_has`]
/// and [`entry_names_unique`]).
pub open spec fn snap_index_of(snap: Seq<EntryModel>, name: Seq<char>) -> int {
    choose|i: int| 0 <= i < snap.len() && snap[i].name == name
}

/// With unique names, looking an entry up by the name found at index
/// `i` yields exactly the entry at `i`.
pub proof fn lemma_entry_at_index(snap: Seq<EntryModel>, i: int)
    requires
        entry_names_unique(snap),
        0 <= i < snap.len(),
    ensures
        snap_has(snap, snap[i].name),
        snap_index_of(snap, snap[i].name) == i,
{
    assert(snap_has(snap, snap[i].name));
    let j = snap_index_of(snap, snap[i].name);
    assert(0 <= j < snap.len() && snap[j].name == snap[i].name);
    if i < j {
        assert(false);
    } else if j < i {
        assert(false);
    }
}

/// Mathematical model of a [`Sighting`].
#[verifier::ext_equal]
pub ghost struct SightingModel {
    pub occupant: Seq<char>,
    pub entity: Seq<char>,
}

/// One raw observation from the data source: one occupant currently on
/// one entity.
pub struct Sighting {
    pub occupant: String,
    pub entity: String,
}

impl View for Sighting {
    type V = SightingModel;

    open spec fn view(&self) -> SightingModel {
        SightingModel { occupant: self.occupant@, entity: self.entity@ }
    }
}

/// Model view of a list of sightings.
pub open spec fn sightings_view(ss: Seq<Sighting>) -> Seq<SightingModel> {
    ss.map_values(|s: Sighting| s@)
}

/// Order-preserving grouping of sightings by entity: an entity's entry
/// sits where the entity first appeared, and its occupants accumulate
/// in sighting order.
pub open spec fn group_spec(sights: Seq<SightingModel>) -> Seq<EntryModel>
    decreases sights.len(),
{
    if sights.len() == 0 {
        Seq::empty()
    } else {
        let rest = group_spec(sights.drop_last());
        let s = sights.last();
        if snap_has(rest, s.entity) {
            let k = snap_index_of(rest, s.entity);
            rest.update(
                k,
                EntryModel { name: s.entity, occupants: rest[k].occupants.push(s.occupant) },
            )
        } else {
            rest.push(EntryModel { name: s.entity, occupants: seq![s.occupant] })
        }
    }
}

/// Finds the index of the entry named `name`, if any.
fn find_entry(entries: &Vec<SnapshotEntry>, name: &String) -> (found: Option<usize>)
    ensures
        match found {
            Option::Some(k) => 0 <= k < entries@.len() && entries_view(entries@)[k as int].name
                == name@ && snap_has(entries_view(entries@), name@),
            Option::None => !snap_has(entries_view(entries@), name@),
        },
{
    let ghost em = entries_view(entries@);
    let mut i: usize = 0;
    while i < entries.len()
        invariant
            0 <= i <= entries@.len(),
            em == entries_view(entries@),
            em.len() == entries@.len(),
            forall|k: int| 0 <= k < i ==> em[k].name != name@,
        decreases entries@.len() - i,
    {
        if entries[i].name == *name {
            assert(em[i as int].name == name@);
            return Option::Some(i);
        }
        i += 1;
    }
    Option::None
}

/// Builds the snapshot out of raw sightings, grouping occupants under
/// their entity, exactly as [`group_spec`] describes; the resulting
/// entity names are unique.
#[verifier::loop_isolation(false)]
pub fn group_sightings(sightings: &Vec<Sighting>) -> (entries: Vec<SnapshotEntry>)
    ensures
        entries_view(entries@) == group_spec(sightings_view(sightings@)),
        entry_names_unique(entries_view(entries@)),
{
    let ghost sm = sightings_view(sightings@);
    let mut entries: Vec<SnapshotEntry> = Vec::new();
    let mut i: usize = 0;
    while i < sightings.len()
        invariant
            0 <= i <= sightings@.len(),
            entries_view(entries@) == group_spec(sm.take(i as int)),
            entry_names_unique(entries_view(entries@)),
        decreases sightings@.len() - i,
    {
        let s = &sightings[i];
        proof {
            assert(sm[i as int] == sightings@[i as int]@);
        }
        let found = find_entry(&entries, &s.entity);
        match found {
            Option::Some(k) => {
                let ghost old_entries = entries_view(entries@);
                proof {
                    lemma_entry_at_index(old_entries, k as int);
                }
                entries[k].occupants.push(s.occupant.clone());
                proof {
                    assert(entries_view(entries@) =~~= old_entries.update(
                        k as int,
                        EntryModel {
                            name: sm[i as int].entity,
                            occupants: old_entries[k as int].occupants.push(
                                sm[i as int].occupant,
                            ),
                        },
                    ));
                    assert forall|a: int, b: int|
                        0 <= a < b < entries_view(entries@).len() implies entries_view(
                        entries@,
                    )[a].name != entries_view(entries@)[b].name by {
                        assert(entries_view(entries@)[a].name == old_entries[a].name);
                        assert(entries_view(entries@)[b].name == old_entries[b].name);
                    };
                }
            },
            Option::None => {
                let ghost old_entries = entries_view(entries@);
                let mut occupants: Vec<String> = Vec::new();
                occupants.push(s.occupant.clone());
                let e = SnapshotEntry { name: s.entity.clone(), occupants: occupants };
                proof {
                    assert(e@.occupants =~= seq![sm[i as int].occupant]);
                }
                entries.push(e);
                proof {
                    assert(entries_view(entries@) =~~= old_entries.push(
                        EntryModel {
                            name: sm[i as int].entity,
                            occupants: seq![sm[i as int].occupant],
                        },
                    ));
                    assert forall|a: int, b: int|
                        0 <= a < b < entries_view(entries@).len() implies entries_view(
                        entries@,
                    )[a].name != entries_view(entries@)[b].name by {
                        if b < old_entries.len() {
                            assert(entries_view(entries@)[a].name == old_entries[a].name);
                            assert(entries_view(entries@)[b].name == old_entries[b].name);
                        } else {
                            assert(entries_view(entries@)[a].name == old_entries[a].name);
                        }
                    };
                }
            },
        }
        proof {
            assert(sm.take(i as int + 1).drop_last() =~= sm.take(i as int));
            assert(sm.take(i as int + 1).last() == sm[i as int]);
            assert(entries_view(entries@) =~~= group_spec(sm.take(i as int + 1)));
        }
        i += 1;
    }
    proof {
        assert(sm.take(sm.len() as int) =~= sm);
    }
    entries
}

/// Whether the snapshot holds an entry for `name`, decided by a scan.
pub fn snapshot_contains(snapshot: &Vec<SnapshotEntry>, name: &String) -> (found: bool)
    ensures
        found == snap_has(entries_view(snapshot@), name@),
{
    let ghost snapm = entries_view(snapshot@);
    let mut i: usize = 0;
    while i < snapshot.len()
        invariant
            0 <= i <= snapshot@.len(),
            snapm == entries_view(snapshot@),
            snapm.len() == snapshot@.len(),
            forall|k: int| 0 <= k < i ==> snapm[k].name != name@,
        decreases snapshot@.len() - i,
    {
        if snapshot[i].name == *name {
            assert(snapm[i as int].name == name@);
            return true;
        }
        i += 1;
    }
    false
}

} // verus!
