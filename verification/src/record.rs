//! The persisted record kept for each tracked entity, and its
//! mathematical model.

use vstd::prelude::*;
use vstd::string::StringExecFns;

verus! {

/// Mathematical model of a [`PresenceRecord`]: names as character
/// sequences, counts and timestamps as unbounded integers.
#[verifier::ext_equal]
pub ghost struct RecordModel {
    pub name: Seq<char>,
    pub online: bool,
    pub occupant_count: int,
    pub occupants: Seq<Seq<char>>,
    pub first_seen: int,
    pub offline_since: Option<int>,
    pub expire_at: int,
}

/// One persisted record per entity name.
///
/// `offline_since` is present exactly while the entity is offline;
/// `first_seen` is set once on first creation and carried forward on
/// every later write; `expire_at` is a store-level time-to-live marker
/// refreshed on every write.
pub struct PresenceRecord {
    pub name: String,
    pub online: bool,
    pub occupant_count: usize,
    pub occupants: Vec<String>,
    pub first_seen: i64,
    pub offline_since: Option<i64>,
    pub expire_at: i64,
}

impl View for PresenceRecord {
    type V = RecordModel;

    open spec fn view(&self) -> RecordModel {
        RecordModel {
            name: self.name@,
            online: self.online,
            occupant_count: self.occupant_count as int,
            occupants: self.occupants@.map_values(|s: String| s@),
            first_seen: self.first_seen as int,
            offline_since: match self.offline_since {
                Option::Some(t) => Option::Some(t as int),
                Option::None => Option::None,
            },
            expire_at: self.expire_at as int,
        }
    }
}

/// Well-formedness of a single record: a record is online exactly when
/// `offline_since` is absent, the count matches the occupant list, an
/// offline record has no occupants, and all timestamps are non-negative.
pub open spec fn record_wf(r: RecordModel) -> bool {
    &&& r.online <==> r.offline_since is None
    &&& r.occupant_count == r.occupants.len()
    &&& (!r.online ==> r.occupants.len() == 0)
    &&& 0 <= r.first_seen
    &&& (r.offline_since matches Option::Some(t) ==> 0 <= t)
    &&& 0 <= r.expire_at
}

pub open spec fn records_wf(rs: Seq<RecordModel>) -> bool {
    forall|i: int| 0 <= i < rs.len() ==> record_wf(#[trigger] rs[i])
}

/// At most one record per entity name.
pub open spec fn record_names_unique(rs: Seq<RecordModel>) -> bool {
    forall|i: int, j: int| 0 <= i < j < rs.len() ==> rs[i].name != rs[j].name
}

/// Model view of a list of records.
pub open spec fn recs_view(rs: Seq<PresenceRecord>) -> Seq<RecordModel> {
    rs.map_values(|r: PresenceRecord| r@)
}

/// Model view of a list of names.
pub open spec fn names_view(ns: Seq<String>) -> Seq<Seq<char>> {
    ns.map_values(|n: String| n@)
}

/// Whether the record list holds a record named `name`.
pub open spec fn recs_have(rs: Seq<RecordModel>, name: Seq<char>) -> bool {
    exists|i: int| 0 <= i < rs.len() && rs[i].name == name
}

/// The index of the record named `name` (meaningful under
/// [`recs_have`] and [`record_names_unique`]).
pub open spec fn rec_index_of(rs: Seq<RecordModel>, name: Seq<char>) -> int {
    choose|i: int| 0 <= i < rs.len() && rs[i].name == name
}

/// The record named `name`.
pub open spec fn rec_at(rs: Seq<RecordModel>, name: Seq<char>) -> RecordModel {
    rs[rec_index_of(rs, name)]
}

/// With unique names, looking a record up by the name found at index
/// `i` yields exactly the record at `i`.
pub proof fn lemma_rec_at_index(rs: Seq<RecordModel>, i: int)
    requires
        record_names_unique(rs),
        0 <= i < rs.len(),
    ensures
        recs_have(rs, rs[i].name),
        rec_index_of(rs, rs[i].name) == i,
        rec_at(rs, rs[i].name) == rs[i],
{
    assert(recs_have(rs, rs[i].name));
    let j = rec_index_of(rs, rs[i].name);
    assert(0 <= j < rs.len() && rs[j].name == rs[i].name);
    if i < j {
        assert(false);
    } else if j < i {
        assert(false);
    }
}

impl PresenceRecord {
    /// The key under which this record is stored in a key-value backend.
    pub fn store_key(&self) -> (key: String)
        ensures
            key@ == record_key_spec(self@.name),
    {
        record_key(&self.name)
    }

    /// The time-to-live marker in milliseconds, as a store that counts in
    /// milliseconds expects it.
    pub fn expire_at_millis(&self) -> (ms: i64)
        requires
            0 <= self@.expire_at,
            self@.expire_at * 1000 <= i64::MAX,
        ensures
            ms == self@.expire_at * 1000,
    {
        self.expire_at * 1000
    }
}

pub open spec fn record_key_spec(name: Seq<char>) -> Seq<char> {
    "presence:"@ + name + ":data"@
}

/// Derives the namespaced store key for an entity name.
pub fn record_key(name: &String) -> (key: String)
    ensures
        key@ == record_key_spec(name@),
{
    let mut key = "presence:".to_owned();
    key.append(name.as_str());
    key.append(":data");
    key
}

/// The key of the secondary index holding the set of all known entity
/// names, for key-value backends that cannot scan.
pub fn names_index_key() -> (key: String)
    ensures
        key@ == "presence:names"@,
{
    "presence:names".to_owned()
}

} // verus!
