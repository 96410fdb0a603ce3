//! The entity store and its last-write-wins upsert rule. One stored shape
//! carries all three entity types; the store keeps one table per type, each
//! with unique identifiers, and every mutation goes through `upsert`, which
//! keeps an existing row unless the incoming record is strictly newer.

use vstd::prelude::*;
use crate::timestamp::Instant;

verus! {

/// A stored row of any of the three entity types. An archive leaves
/// `parent` empty; a tome's parent is its archive, an entry's parent is its
/// tome. `name` carries an entry's title, `detail` a description or an
/// entry's content.
#[derive(Debug)]
pub struct Record {
    pub id: String,
    pub owner: String,
    pub parent: String,
    pub name: String,
    pub detail: Option<String>,
    pub created_at: Instant,
    pub updated_at: Instant,
}

/// The mathematical shadow of a stored row.
#[verifier::ext_equal]
pub struct RecordModel {
    pub id: Seq<char>,
    pub owner: Seq<char>,
    pub parent: Seq<char>,
    pub name: Seq<char>,
    pub detail: Option<Seq<char>>,
    pub created_at: Instant,
    pub updated_at: Instant,
}

impl View for Record {
    type V = RecordModel;

    open spec fn view(&self) -> RecordModel {
        RecordModel {
            id: self.id@,
            owner: self.owner@,
            parent: self.parent@,
            name: self.name@,
            detail: crate::timestamp::opt_view(self.detail),
            created_at: self.created_at,
            updated_at: self.updated_at,
        }
    }
}

impl Record {
    /// A fresh row with the same value.
    pub fn duplicate(&self) -> (r: Record)
        ensures
            r@ == self@,
    {
        Record {
            id: self.id.clone(),
            owner: self.owner.clone(),
            parent: self.parent.clone(),
            name: self.name.clone(),
            detail: match &self.detail {
                Some(s) => Some(s.clone()),
                None => None,
            },
            created_at: self.created_at,
            updated_at: self.updated_at,
        }
    }
}

/// The shadows of a table's rows, in table order.
pub open spec fn models(s: Seq<Record>) -> Seq<RecordModel> {
    s.map_values(|r: Record| r@)
}

/// No two rows share an identifier.
pub open spec fn ids_unique(s: Seq<RecordModel>) -> bool {
    forall|i: int, j: int| 0 <= i < j < s.len() ==> s[i].id != s[j].id
}

/// Every row's timestamps are well-formed instants.
pub open spec fn all_wf(s: Seq<RecordModel>) -> bool {
    forall|i: int|
        0 <= i < s.len() ==> (#[trigger] s[i]).created_at.wf() && s[i].updated_at.wf()
}

/// A table as a map from identifier to row. Later rows shadow earlier ones,
/// which is immaterial under `ids_unique`.
pub open spec fn map_of(s: Seq<RecordModel>) -> Map<Seq<char>, RecordModel>
    decreases s.len(),
{
    if s.len() == 0 {
        Map::empty()
    } else {
        map_of(s.drop_last()).insert(s.last().id, s.last())
    }
}

/// The row an upsert leaves when the incoming record is strictly newer:
/// the mutable fields and the update time come from the incoming record,
/// identity, ownership, parentage and creation time stay.
pub open spec fn merged(cur: RecordModel, inc: RecordModel) -> RecordModel {
    RecordModel {
        id: cur.id,
        owner: cur.owner,
        parent: cur.parent,
        name: inc.name,
        detail: inc.detail,
        created_at: cur.created_at,
        updated_at: inc.updated_at,
    }
}

/// The last-write-wins upsert on the map shadow: insert a missing
/// identifier; overwrite an existing row only when the incoming record
/// belongs to the row's owner and is strictly newer. On a tie or an older
/// record the stored row wins, and a row of another owner is never
/// touched: a push is scoped to the subject its records are attributed to.
pub open spec fn apply_record(
    m: Map<Seq<char>, RecordModel>,
    r: RecordModel,
) -> Map<Seq<char>, RecordModel> {
    if m.dom().contains(r.id) {
        if m[r.id].owner == r.owner && m[r.id].updated_at.lt(r.updated_at) {
            m.insert(r.id, merged(m[r.id], r))
        } else {
            m
        }
    } else {
        m.insert(r.id, r)
    }
}

/// A sub-batch applied in order, first record first.
pub open spec fn apply_batch(
    m: Map<Seq<char>, RecordModel>,
    rs: Seq<RecordModel>,
) -> Map<Seq<char>, RecordModel>
    decreases rs.len(),
{
    if rs.len() == 0 {
        m
    } else {
        apply_batch(apply_record(m, rs.first()), rs.drop_first())
    }
}

/// The durable table set: archives, tomes, entries.
#[derive(Debug)]
pub struct Store {
    pub archives: Vec<Record>,
    pub tomes: Vec<Record>,
    pub entries: Vec<Record>,
}

impl Store {
    /// Well-formed store: identifiers are unique within each entity type,
    /// and every stored timestamp is a well-formed instant.
    pub open spec fn wf(self) -> bool {
        &&& ids_unique(models(self.archives@))
        &&& ids_unique(models(self.tomes@))
        &&& ids_unique(models(self.entries@))
        &&& all_wf(models(self.archives@))
        &&& all_wf(models(self.tomes@))
        &&& all_wf(models(self.entries@))
    }

    /// The archive table as a map shadow.
    pub open spec fn archives_map(self) -> Map<Seq<char>, RecordModel> {
        map_of(models(self.archives@))
    }

    /// The tome table as a map shadow.
    pub open spec fn tomes_map(self) -> Map<Seq<char>, RecordModel> {
        map_of(models(self.tomes@))
    }

    /// The entry table as a map shadow.
    pub open spec fn entries_map(self) -> Map<Seq<char>, RecordModel> {
        map_of(models(self.entries@))
    }

    /// An empty store.
    pub fn new() -> (r: Store)
        ensures
            r.wf(),
            r.archives@.len() == 0,
            r.tomes@.len() == 0,
            r.entries@.len() == 0,
    {
        Store { archives: Vec::new(), tomes: Vec::new(), entries: Vec::new() }
    }

    /// Decides well-formedness at runtime, for callers that assemble a
    /// store outside the library and must meet `wf` before pulling or
    /// pushing.
    pub fn is_well_formed(&self) -> (r: bool)
        ensures
            r == self.wf(),
    {
        ids_distinct(&self.archives) && ids_distinct(&self.tomes) && ids_distinct(&self.entries)
            && stamps_wf(&self.archives) && stamps_wf(&self.tomes) && stamps_wf(&self.entries)
    }
}

/// Decides at runtime whether a table's identifiers are unique.
fn ids_distinct(table: &Vec<Record>) -> (r: bool)
    ensures
        r == ids_unique(models(table@)),
{
    let n = table.len();
    let mut i: usize = 0;
    while i < n
        invariant
            n == table@.len(),
            i <= n,
            forall|x: int, y: int| 0 <= x < i && x < y < n ==> models(table@)[x].id != models(
                table@,
            )[y].id,
        decreases n - i,
    {
        let mut j: usize = i + 1;
        while j < n
            invariant
                n == table@.len(),
                i < j <= n,
                forall|y: int| i < y < j ==> models(table@)[i as int].id != models(table@)[y].id,
            decreases n - j,
        {
            proof {
                assert(models(table@)[i as int] == table@[i as int]@);
                assert(models(table@)[j as int] == table@[j as int]@);
            }
            if table[i].id.eq(&table[j].id) {
                return false;
            }
            j = j + 1;
        }
        i = i + 1;
    }
    true
}

/// Decides at runtime whether every timestamp in a table is well-formed.
fn stamps_wf(table: &Vec<Record>) -> (r: bool)
    ensures
        r == all_wf(models(table@)),
{
    let n = table.len();
    let mut i: usize = 0;
    while i < n
        invariant
            n == table@.len(),
            i <= n,
            forall|k: int|
                0 <= k < i ==> (#[trigger] models(table@)[k]).created_at.wf() && models(
                    table@,
                )[k].updated_at.wf(),
        decreases n - i,
    {
        proof {
            assert(models(table@)[i as int] == table@[i as int]@);
        }
        if !table[i].created_at.check_wf() || !table[i].updated_at.check_wf() {
            return false;
        }
        i = i + 1;
    }
    true
}

/// The position of the row carrying `id`, if any.
fn find_index(table: &Vec<Record>, id: &String) -> (r: Option<usize>)
    ensures
        match r {
            Option::Some(i) => i < table@.len() && models(table@)[i as int].id == id@,
            Option::None => forall|k: int|
                0 <= k < table@.len() ==> models(table@)[k].id != id@,
        },
{
    let n = table.len();
    let mut i: usize = 0;
    while i < n
        invariant
            n == table@.len(),
            i <= n,
            forall|k: int| 0 <= k < i ==> models(table@)[k].id != id@,
        decreases n - i,
    {
        assert(models(table@)[i as int] == table@[i as int]@);
        if table[i].id.eq(id) {
            return Some(i);
        }
        i = i + 1;
    }
    None
}

/// Applies one record to one table under the last-write-wins rule.
pub fn upsert(table: &mut Vec<Record>, rec: Record)
    requires
        ids_unique(models(old(table)@)),
        all_wf(models(old(table)@)),
        rec@.created_at.wf(),
        rec@.updated_at.wf(),
    ensures
        ids_unique(models(final(table)@)),
        all_wf(models(final(table)@)),
        map_of(models(final(table)@)) == apply_record(map_of(models(old(table)@)), rec@),
{
    let ghost s0 = models(table@);
    match find_index(table, &rec.id) {
        Some(i) => {
            proof {
                lemma_map_of_found(s0, i as int);
            }
            if table[i].owner.eq(&rec.owner) && table[i].updated_at.before(&rec.updated_at) {
                let cur = &table[i];
                let merged_row = Record {
                    id: rec.id,
                    owner: cur.owner.clone(),
                    parent: cur.parent.clone(),
                    name: rec.name,
                    detail: rec.detail,
                    created_at: cur.created_at,
                    updated_at: rec.updated_at,
                };
                assert(merged_row@ =~= merged(s0[i as int], rec@));
                table.set(i, merged_row);
                proof {
                    assert(models(table@) =~= s0.update(i as int, merged(s0[i as int], rec@)));
                    lemma_map_of_update(s0, i as int, merged(s0[i as int], rec@));
                }
            } else {
                proof {
                    assert(models(table@) =~= s0);
                }
            }
        },
        None => {
            proof {
                lemma_map_of_absent(s0, rec@.id);
            }
            let ghost r = rec@;
            table.push(rec);
            proof {
                assert(models(table@) =~= s0.push(r));
                lemma_map_of_push(s0, r);
                assert(ids_unique(models(table@))) by {
                    assert(forall|k: int| 0 <= k < s0.len() ==> s0[k].id != r.id);
                }
            }
        },
    }
}

/// In a table with unique identifiers, each row is what the map shadow
/// holds under its identifier.
proof fn lemma_map_of_found(s: Seq<RecordModel>, i: int)
    requires
        ids_unique(s),
        0 <= i < s.len(),
    ensures
        map_of(s).dom().contains(s[i].id),
        map_of(s)[s[i].id] == s[i],
    decreases s.len(),
{
    if i == s.len() - 1 {
    } else {
        lemma_map_of_found(s.drop_last(), i);
        assert(s.drop_last()[i] == s[i]);
        assert(s[i].id != s.last().id);
    }
}

/// An identifier no row carries is outside the map shadow's domain.
proof fn lemma_map_of_absent(s: Seq<RecordModel>, id: Seq<char>)
    requires
        forall|k: int| 0 <= k < s.len() ==> s[k].id != id,
    ensures
        !map_of(s).dom().contains(id),
    decreases s.len(),
{
    if s.len() > 0 {
        lemma_map_of_absent(s.drop_last(), id);
    }
}

/// Replacing a row in place, keeping its identifier, inserts the new row
/// into the map shadow.
proof fn lemma_map_of_update(s: Seq<RecordModel>, i: int, r: RecordModel)
    requires
        ids_unique(s),
        0 <= i < s.len(),
        r.id == s[i].id,
    ensures
        ids_unique(s.update(i, r)),
        map_of(s.update(i, r)) =~= map_of(s).insert(r.id, r),
    decreases s.len(),
{
    let t = s.update(i, r);
    assert(forall|k: int| 0 <= k < s.len() && k != i ==> t[k] == s[k]);
    if i == s.len() - 1 {
        assert(t.drop_last() =~= s.drop_last());
    } else {
        lemma_map_of_update(s.drop_last(), i, r);
        assert(t.drop_last() =~= s.drop_last().update(i, r));
        assert(t.last() == s.last());
        assert(s[i].id != s.last().id);
    }
}

/// Appending a row with a fresh identifier inserts it into the map shadow.
proof fn lemma_map_of_push(s: Seq<RecordModel>, r: RecordModel)
    ensures
        map_of(s.push(r)) =~= map_of(s).insert(r.id, r),
{
    assert(s.push(r).drop_last() =~= s);
    assert(s.push(r).last() == r);
}

} // verus!
