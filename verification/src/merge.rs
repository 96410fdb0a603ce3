//! The merge engine: a pushed batch is validated whole, then applied to the
//! store in a fixed order (archives, tomes, entries) under the
//! last-write-wins rule. A malformed timestamp anywhere in the batch fails
//! the whole push before any write, so no partial application is ever
//! observable.

use vstd::prelude::*;
use crate::timestamp::{Instant, rfc3339_parse, opt_view, now_instant, format_rfc3339};
use crate::store::{Record, RecordModel, Store, models, ids_unique, all_wf, map_of, apply_record, apply_batch, upsert};
use crate::wire::{SyncArchive, SyncTome, SyncEntry, SyncRequest};

verus! {

/// How a synchronization request fails.
#[derive(Clone, Copy, Debug, PartialEq, Eq, Structural)]
pub enum SyncError {
    /// The client's fault: a record in the batch is malformed. Retrying the
    /// same request cannot succeed.
    Validation,
    /// The server's fault: the storage layer around the engine failed. The
    /// whole request is safe to retry, since merges are idempotent.
    Storage,
}

/// The instant a parsed timestamp pair denotes.
pub open spec fn instant_of(p: (int, int)) -> Instant {
    Instant { secs: p.0 as i64, nanos: p.1 as u32 }
}

/// Both timestamps of a pushed archive parse.
pub open spec fn archive_valid(w: SyncArchive) -> bool {
    rfc3339_parse(w.created_at@) is Some && rfc3339_parse(w.updated_at@) is Some
}

/// Both timestamps of a pushed tome parse.
pub open spec fn tome_valid(w: SyncTome) -> bool {
    rfc3339_parse(w.created_at@) is Some && rfc3339_parse(w.updated_at@) is Some
}

/// Both timestamps of a pushed entry parse.
pub open spec fn entry_valid(w: SyncEntry) -> bool {
    rfc3339_parse(w.created_at@) is Some && rfc3339_parse(w.updated_at@) is Some
}

/// The stored row a valid pushed archive denotes, attributed to `owner`.
pub open spec fn archive_rec(w: SyncArchive, owner: Seq<char>) -> RecordModel {
    RecordModel {
        id: w.id@,
        owner: owner,
        parent: Seq::empty(),
        name: w.name@,
        detail: opt_view(w.description),
        created_at: instant_of(rfc3339_parse(w.created_at@)->0),
        updated_at: instant_of(rfc3339_parse(w.updated_at@)->0),
    }
}

/// The stored row a valid pushed tome denotes, attributed to `owner`.
pub open spec fn tome_rec(w: SyncTome, owner: Seq<char>) -> RecordModel {
    RecordModel {
        id: w.id@,
        owner: owner,
        parent: w.archive_id@,
        name: w.name@,
        detail: opt_view(w.description),
        created_at: instant_of(rfc3339_parse(w.created_at@)->0),
        updated_at: instant_of(rfc3339_parse(w.updated_at@)->0),
    }
}

/// The stored row a valid pushed entry denotes, attributed to `owner`.
pub open spec fn entry_rec(w: SyncEntry, owner: Seq<char>) -> RecordModel {
    RecordModel {
        id: w.id@,
        owner: owner,
        parent: w.tome_id@,
        name: w.title@,
        detail: Option::Some(w.content@),
        created_at: instant_of(rfc3339_parse(w.created_at@)->0),
        updated_at: instant_of(rfc3339_parse(w.updated_at@)->0),
    }
}

/// Every archive of the sub-batch is valid.
pub open spec fn archives_valid(ws: Seq<SyncArchive>) -> bool {
    forall|i: int| 0 <= i < ws.len() ==> archive_valid(ws[i])
}

/// Every tome of the sub-batch is valid.
pub open spec fn tomes_valid(ws: Seq<SyncTome>) -> bool {
    forall|i: int| 0 <= i < ws.len() ==> tome_valid(ws[i])
}

/// Every entry of the sub-batch is valid.
pub open spec fn entries_valid(ws: Seq<SyncEntry>) -> bool {
    forall|i: int| 0 <= i < ws.len() ==> entry_valid(ws[i])
}

/// Every record of the whole batch is valid.
pub open spec fn request_valid(req: SyncRequest) -> bool {
    archives_valid(req.archives@) && tomes_valid(req.tomes@) && entries_valid(req.entries@)
}

/// The rows a valid archive sub-batch denotes, in batch order.
pub open spec fn archive_recs(ws: Seq<SyncArchive>, owner: Seq<char>) -> Seq<RecordModel> {
    ws.map_values(|w: SyncArchive| archive_rec(w, owner))
}

/// The rows a valid tome sub-batch denotes, in batch order.
pub open spec fn tome_recs(ws: Seq<SyncTome>, owner: Seq<char>) -> Seq<RecordModel> {
    ws.map_values(|w: SyncTome| tome_rec(w, owner))
}

/// The rows a valid entry sub-batch denotes, in batch order.
pub open spec fn entry_recs(ws: Seq<SyncEntry>, owner: Seq<char>) -> Seq<RecordModel> {
    ws.map_values(|w: SyncEntry| entry_rec(w, owner))
}

/// Clones an optional string.
pub(crate) fn clone_opt(o: &Option<String>) -> (r: Option<String>)
    ensures
        opt_view(r) == opt_view(*o),
{
    match o {
        Some(s) => Some(s.clone()),
        None => None,
    }
}

/// Validates an archive sub-batch and turns it into stored rows attributed
/// to the caller's subject. Fails on the first malformed timestamp.
fn convert_archives(ws: &Vec<SyncArchive>, subject: &str) -> (r: Result<Vec<Record>, SyncError>)
    ensures
        (r is Ok) == archives_valid(ws@),
        r is Err ==> r == Err::<Vec<Record>, SyncError>(SyncError::Validation),
        r is Ok ==> models((r->Ok_0)@) == archive_recs(ws@, subject@),
        r is Ok ==> all_wf(models((r->Ok_0)@)),
{
    let n = ws.len();
    let mut out: Vec<Record> = Vec::new();
    let mut i: usize = 0;
    while i < n
        invariant
            n == ws@.len(),
            i <= n,
            out@.len() == i,
            forall|k: int| 0 <= k < i ==> archive_valid(ws@[k]),
            forall|k: int|
                0 <= k < i ==> (#[trigger] models(out@)[k]) == archive_rec(ws@[k], subject@),
            all_wf(models(out@)),
        decreases n - i,
    {
        let w = &ws[i];
        let created = match crate::timestamp::parse_rfc3339(w.created_at.as_str()) {
            Some(t) => t,
            None => {
                return Err(SyncError::Validation);
            },
        };
        let updated = match crate::timestamp::parse_rfc3339(w.updated_at.as_str()) {
            Some(t) => t,
            None => {
                return Err(SyncError::Validation);
            },
        };
        let rec = Record {
            id: w.id.clone(),
            owner: subject.to_owned(),
            parent: String::new(),
            name: w.name.clone(),
            detail: clone_opt(&w.description),
            created_at: created,
            updated_at: updated,
        };
        assert(rec@ =~= archive_rec(ws@[i as int], subject@));
        let ghost prev = out@;
        out.push(rec);
        proof {
            assert(models(out@)[i as int] == out@[i as int]@);
            assert forall|k: int| 0 <= k < i + 1 implies (#[trigger] models(out@)[k])
                == archive_rec(ws@[k], subject@) by {
                if k < i as int {
                    assert(models(out@)[k] == models(prev)[k]);
                }
            }
            assert forall|k: int| 0 <= k < i + 1 implies (#[trigger] models(out@)[k]).created_at.wf()
                && models(out@)[k].updated_at.wf() by {
                if k < i as int {
                    assert(models(out@)[k] == models(prev)[k]);
                } else {
                    assert(models(out@)[k] == out@[k]@);
                }
            }
            assert(all_wf(models(out@)));
        }
        i = i + 1;
    }
    proof {
        assert forall|k: int| 0 <= k < n implies models(out@)[k] == archive_recs(ws@, subject@)[k]
        by {
            assert(archive_recs(ws@, subject@)[k] == archive_rec(ws@[k], subject@));
        }
        assert(models(out@) =~= archive_recs(ws@, subject@));
    }
    Ok(out)
}

/// Validates a tome sub-batch and turns it into stored rows attributed to
/// the caller's subject. Fails on the first malformed timestamp.
fn convert_tomes(ws: &Vec<SyncTome>, subject: &str) -> (r: Result<Vec<Record>, SyncError>)
    ensures
        (r is Ok) == tomes_valid(ws@),
        r is Err ==> r == Err::<Vec<Record>, SyncError>(SyncError::Validation),
        r is Ok ==> models((r->Ok_0)@) == tome_recs(ws@, subject@),
        r is Ok ==> all_wf(models((r->Ok_0)@)),
{
    let n = ws.len();
    let mut out: Vec<Record> = Vec::new();
    let mut i: usize = 0;
    while i < n
        invariant
            n == ws@.len(),
            i <= n,
            out@.len() == i,
            forall|k: int| 0 <= k < i ==> tome_valid(ws@[k]),
            forall|k: int|
                0 <= k < i ==> (#[trigger] models(out@)[k]) == tome_rec(ws@[k], subject@),
            all_wf(models(out@)),
        decreases n - i,
    {
        let w = &ws[i];
        let created = match crate::timestamp::parse_rfc3339(w.created_at.as_str()) {
            Some(t) => t,
            None => {
                return Err(SyncError::Validation);
            },
        };
        let updated = match crate::timestamp::parse_rfc3339(w.updated_at.as_str()) {
            Some(t) => t,
            None => {
                return Err(SyncError::Validation);
            },
        };
        let rec = Record {
            id: w.id.clone(),
            owner: subject.to_owned(),
            parent: w.archive_id.clone(),
            name: w.name.clone(),
            detail: clone_opt(&w.description),
            created_at: created,
            updated_at: updated,
        };
        assert(rec@ =~= tome_rec(ws@[i as int], subject@));
        let ghost prev = out@;
        out.push(rec);
        proof {
            assert(models(out@)[i as int] == out@[i as int]@);
            assert forall|k: int| 0 <= k < i + 1 implies (#[trigger] models(out@)[k])
                == tome_rec(ws@[k], subject@) by {
                if k < i as int {
                    assert(models(out@)[k] == models(prev)[k]);
                }
            }
            assert forall|k: int| 0 <= k < i + 1 implies (#[trigger] models(out@)[k]).created_at.wf()
                && models(out@)[k].updated_at.wf() by {
                if k < i as int {
                    assert(models(out@)[k] == models(prev)[k]);
                } else {
                    assert(models(out@)[k] == out@[k]@);
                }
            }
            assert(all_wf(models(out@)));
        }
        i = i + 1;
    }
    proof {
        assert forall|k: int| 0 <= k < n implies models(out@)[k] == tome_recs(ws@, subject@)[k] by {
            assert(tome_recs(ws@, subject@)[k] == tome_rec(ws@[k], subject@));
        }
        assert(models(out@) =~= tome_recs(ws@, subject@));
    }
    Ok(out)
}

/// Validates an entry sub-batch and turns it into stored rows attributed to
/// the caller's subject. Fails on the first malformed timestamp.
fn convert_entries(ws: &Vec<SyncEntry>, subject: &str) -> (r: Result<Vec<Record>, SyncError>)
    ensures
        (r is Ok) == entries_valid(ws@),
        r is Err ==> r == Err::<Vec<Record>, SyncError>(SyncError::Validation),
        r is Ok ==> models((r->Ok_0)@) == entry_recs(ws@, subject@),
        r is Ok ==> all_wf(models((r->Ok_0)@)),
{
    let n = ws.len();
    let mut out: Vec<Record> = Vec::new();
    let mut i: usize = 0;
    while i < n
        invariant
            n == ws@.len(),
            i <= n,
            out@.len() == i,
            forall|k: int| 0 <= k < i ==> entry_valid(ws@[k]),
            forall|k: int|
                0 <= k < i ==> (#[trigger] models(out@)[k]) == entry_rec(ws@[k], subject@),
            all_wf(models(out@)),
        decreases n - i,
    {
        let w = &ws[i];
        let created = match crate::timestamp::parse_rfc3339(w.created_at.as_str()) {
            Some(t) => t,
            None => {
                return Err(SyncError::Validation);
            },
        };
        let updated = match crate::timestamp::parse_rfc3339(w.updated_at.as_str()) {
            Some(t) => t,
            None => {
                return Err(SyncError::Validation);
            },
        };
        let rec = Record {
            id: w.id.clone(),
            owner: subject.to_owned(),
            parent: w.tome_id.clone(),
            name: w.title.clone(),
            detail: Some(w.content.clone()),
            created_at: created,
            updated_at: updated,
        };
        assert(rec@ =~= entry_rec(ws@[i as int], subject@));
        let ghost prev = out@;
        out.push(rec);
        proof {
            assert(models(out@)[i as int] == out@[i as int]@);
            assert forall|k: int| 0 <= k < i + 1 implies (#[trigger] models(out@)[k])
                == entry_rec(ws@[k], subject@) by {
                if k < i as int {
                    assert(models(out@)[k] == models(prev)[k]);
                }
            }
            assert forall|k: int| 0 <= k < i + 1 implies (#[trigger] models(out@)[k]).created_at.wf()
                && models(out@)[k].updated_at.wf() by {
                if k < i as int {
                    assert(models(out@)[k] == models(prev)[k]);
                } else {
                    assert(models(out@)[k] == out@[k]@);
                }
            }
            assert(all_wf(models(out@)));
        }
        i = i + 1;
    }
    proof {
        assert forall|k: int| 0 <= k < n implies models(out@)[k] == entry_recs(ws@, subject@)[k]
        by {
            assert(entry_recs(ws@, subject@)[k] == entry_rec(ws@[k], subject@));
        }
        assert(models(out@) =~= entry_recs(ws@, subject@));
    }
    Ok(out)
}

/// Applying a batch and then one more record is applying the extended
/// batch.
proof fn lemma_apply_batch_snoc(
    m: Map<Seq<char>, RecordModel>,
    rs: Seq<RecordModel>,
    r: RecordModel,
)
    ensures
        apply_batch(m, rs.push(r)) == apply_record(apply_batch(m, rs), r),
    decreases rs.len(),
{
    if rs.len() == 0 {
        assert(apply_batch(m, rs) == m);
        assert(rs.push(r).first() == r);
        assert(rs.push(r).drop_first() =~= Seq::<RecordModel>::empty());
        assert(apply_batch(m, rs.push(r)) == apply_batch(
            apply_record(m, r),
            Seq::<RecordModel>::empty(),
        ));
    } else {
        assert(rs.push(r).first() == rs.first());
        assert(rs.push(r).drop_first() =~= rs.drop_first().push(r));
        lemma_apply_batch_snoc(apply_record(m, rs.first()), rs.drop_first(), r);
        assert(apply_batch(m, rs.push(r)) == apply_batch(
            apply_record(m, rs.first()),
            rs.drop_first().push(r),
        ));
        assert(apply_batch(m, rs) == apply_batch(apply_record(m, rs.first()), rs.drop_first()));
    }
}

/// Applies validated rows to one table, in order.
fn apply_table(table: &mut Vec<Record>, recs: &Vec<Record>)
    requires
        ids_unique(models(old(table)@)),
        all_wf(models(old(table)@)),
        all_wf(models(recs@)),
    ensures
        ids_unique(models(final(table)@)),
        all_wf(models(final(table)@)),
        map_of(models(final(table)@)) == apply_batch(map_of(models(old(table)@)), models(recs@)),
{
    let ghost m0 = map_of(models(table@));
    let n = recs.len();
    let mut i: usize = 0;
    while i < n
        invariant
            n == recs@.len(),
            i <= n,
            ids_unique(models(table@)),
            all_wf(models(table@)),
            all_wf(models(recs@)),
            map_of(models(table@)) == apply_batch(m0, models(recs@).take(i as int)),
        decreases n - i,
    {
        assert(models(recs@)[i as int] == recs@[i as int]@);
        upsert(table, recs[i].duplicate());
        proof {
            assert(models(recs@).take(i as int + 1) =~= models(recs@).take(i as int).push(
                recs@[i as int]@,
            ));
            lemma_apply_batch_snoc(m0, models(recs@).take(i as int), recs@[i as int]@);
        }
        i = i + 1;
    }
    proof {
        assert(models(recs@).take(n as int) =~= models(recs@));
    }
}

/// Merges a pushed batch into the store for the authenticated subject.
///
/// The whole batch is validated first; a malformed timestamp anywhere fails
/// the push with a validation error and leaves the store untouched. A valid
/// batch is applied in the fixed order archives, tomes, entries, each record
/// as a last-write-wins upsert attributed to `subject`; a stored row that
/// belongs to another subject is never overwritten. On success the
/// returned cursor is the server's clock at commit, as RFC 3339 text that
/// parses back to an instant.
pub fn post_sync(store: &mut Store, subject: &str, req: &SyncRequest) -> (r: Result<
    String,
    SyncError,
>)
    requires
        old(store).wf(),
    ensures
        final(store).wf(),
        (r is Ok) == request_valid(*req),
        r is Err ==> r == Err::<String, SyncError>(SyncError::Validation) && *final(store) == *old(
            store,
        ),
        r is Ok ==> final(store).archives_map() == apply_batch(
            old(store).archives_map(),
            archive_recs(req.archives@, subject@),
        ),
        r is Ok ==> final(store).tomes_map() == apply_batch(
            old(store).tomes_map(),
            tome_recs(req.tomes@, subject@),
        ),
        r is Ok ==> final(store).entries_map() == apply_batch(
            old(store).entries_map(),
            entry_recs(req.entries@, subject@),
        ),
        r is Ok ==> rfc3339_parse((r->Ok_0)@) is Some,
{
    let archive_rows = match convert_archives(&req.archives, subject) {
        Ok(v) => v,
        Err(e) => {
            return Err(e);
        },
    };
    let tome_rows = match convert_tomes(&req.tomes, subject) {
        Ok(v) => v,
        Err(e) => {
            return Err(e);
        },
    };
    let entry_rows = match convert_entries(&req.entries, subject) {
        Ok(v) => v,
        Err(e) => {
            return Err(e);
        },
    };
    apply_table(&mut store.archives, &archive_rows);
    apply_table(&mut store.tomes, &tome_rows);
    apply_table(&mut store.entries, &entry_rows);
    let committed = now_instant();
    Ok(format_rfc3339(committed))
}

} // verus!
