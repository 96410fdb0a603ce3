//! The pull exporter: selects every record owned by the subject and
//! changed strictly after the cursor, orders the delta newest first, and
//! renders it with canonical RFC 3339 timestamps plus a fresh server
//! cursor for the client to persist.

use vstd::prelude::*;
use vstd::seq_lib::group_to_multiset_ensures;
use vstd::multiset::group_multiset_axioms;
use crate::timestamp::{Instant, rfc3339_parse, rfc3339_format, cursor_spec, opt_view, parse_cursor, now_instant, format_rfc3339};
use crate::store::{Record, RecordModel, Store, models, all_wf};
use crate::wire::{SyncArchive, SyncTome, SyncEntry, SyncResponse, SyncQuery};

verus! {

/// A row belongs to the delta: the subject owns it and it changed strictly
/// after the cursor.
pub open spec fn included(r: RecordModel, subject: Seq<char>, since: Instant) -> bool {
    r.owner == subject && since.lt(r.updated_at)
}

/// The delta membership test as a predicate on rows.
pub open spec fn included_pred(subject: Seq<char>, since: Instant) -> spec_fn(RecordModel) -> bool {
    |r: RecordModel| included(r, subject, since)
}

/// Rows ordered newest first: no row is strictly older than a later one.
pub open spec fn sorted_desc(s: Seq<RecordModel>) -> bool {
    forall|x: int, y: int| 0 <= x <= y < s.len() ==> !s[x].updated_at.lt(s[y].updated_at)
}

/// What a correct pull section is: ordered newest first and, as a
/// multiset, exactly the included rows of the table.
pub open spec fn section_ok(
    table: Seq<RecordModel>,
    sel: Seq<RecordModel>,
    subject: Seq<char>,
    since: Instant,
) -> bool {
    &&& sorted_desc(sel)
    &&& sel.to_multiset() == table.filter(included_pred(subject, since)).to_multiset()
}

/// Collects the rows of one table that belong to the delta, in table
/// order.
fn collect_included(table: &Vec<Record>, subject: &str, since: Instant) -> (out: Vec<Record>)
    requires
        all_wf(models(table@)),
    ensures
        models(out@) == models(table@).filter(included_pred(subject@, since)),
        all_wf(models(out@)),
{
    let ghost pred = included_pred(subject@, since);
    let subj: String = subject.to_owned();
    let n = table.len();
    let mut out: Vec<Record> = Vec::new();
    let mut i: usize = 0;
    proof {
        reveal(Seq::filter);
        assert(models(table@).take(0) =~= Seq::<RecordModel>::empty());
        assert(models(out@) =~= models(table@).take(0).filter(pred));
    }
    while i < n
        invariant
            n == table@.len(),
            i <= n,
            subj@ == subject@,
            pred == included_pred(subject@, since),
            models(out@) == models(table@).take(i as int).filter(pred),
            all_wf(models(table@)),
            all_wf(models(out@)),
        decreases n - i,
    {
        let ghost s = models(table@);
        let ghost prev = out@;
        proof {
            assert(s[i as int] == table@[i as int]@);
        }
        let row = &table[i];
        if row.owner.eq(&subj) && since.before(&row.updated_at) {
            out.push(row.duplicate());
            assert(models(out@) =~= prev.map_values(|r: Record| r@).push(s[i as int]));
            assert forall|k: int| 0 <= k < models(out@).len() implies (#[trigger] models(
                out@,
            )[k]).created_at.wf() && models(out@)[k].updated_at.wf() by {
                if k < prev.len() {
                    assert(models(out@)[k] == models(prev)[k]);
                } else {
                    assert(models(out@)[k] == s[i as int]);
                }
            }
        } else {
            assert(!included(s[i as int], subject@, since));
        }
        proof {
            reveal(Seq::filter);
            let t = s.take(i as int + 1);
            assert(t.drop_last() =~= s.take(i as int));
            assert(t.last() == s[i as int]);
            if included(s[i as int], subject@, since) {
                assert(t.filter(pred) == s.take(i as int).filter(pred).push(s[i as int]));
                assert(models(out@) =~= s.take(i as int).filter(pred).push(s[i as int]));
            } else {
                assert(t.filter(pred) == s.take(i as int).filter(pred));
            }
        }
        i = i + 1;
    }
    proof {
        assert(models(table@).take(n as int) =~= models(table@));
    }
    out
}

/// The position of a newest row: no other row is strictly newer.
fn find_newest(v: &Vec<Record>) -> (m: usize)
    requires
        v@.len() > 0,
    ensures
        m < v@.len(),
        forall|j: int|
            0 <= j < v@.len() ==> !models(v@)[m as int].updated_at.lt(
                (#[trigger] models(v@)[j]).updated_at,
            ),
{
    let n = v.len();
    let mut m: usize = 0;
    let mut i: usize = 1;
    while i < n
        invariant
            n == v@.len(),
            m < i <= n,
            forall|j: int|
                0 <= j < i ==> !models(v@)[m as int].updated_at.lt(
                    (#[trigger] models(v@)[j]).updated_at,
                ),
        decreases n - i,
    {
        proof {
            assert(models(v@)[i as int] == v@[i as int]@);
            assert(models(v@)[m as int] == v@[m as int]@);
        }
        if v[m].updated_at.before(&v[i].updated_at) {
            m = i;
        }
        i = i + 1;
    }
    m
}

/// Orders rows newest first, keeping exactly the given rows.
fn sort_newest_first(input: Vec<Record>) -> (out: Vec<Record>)
    requires
        all_wf(models(input@)),
    ensures
        sorted_desc(models(out@)),
        models(out@).to_multiset() == models(input@).to_multiset(),
        all_wf(models(out@)),
{
    broadcast use group_to_multiset_ensures;
    broadcast use group_multiset_axioms;

    let ghost total = models(input@).to_multiset();
    let mut rest = input;
    let mut out: Vec<Record> = Vec::new();
    proof {
        assert(models(out@) =~= Seq::<RecordModel>::empty());
        assert(models(out@).to_multiset().add(models(rest@).to_multiset()) =~= total);
    }
    while rest.len() > 0
        invariant
            sorted_desc(models(out@)),
            forall|x: int, y: int|
                0 <= x < models(out@).len() && 0 <= y < models(rest@).len() ==> !(
                #[trigger] models(out@)[x]).updated_at.lt(
                    (#[trigger] models(rest@)[y]).updated_at,
                ),
            models(out@).to_multiset().add(models(rest@).to_multiset()) == total,
            all_wf(models(out@)),
            all_wf(models(rest@)),
        decreases rest@.len(),
    {
        let ghost rest0 = models(rest@);
        let ghost out0 = models(out@);
        let m = find_newest(&rest);
        let r = rest.remove(m);
        let ghost rv = r@;
        proof {
            broadcast use group_to_multiset_ensures;
            broadcast use group_multiset_axioms;

            assert(rv == rest0[m as int]);
            assert(models(rest@) =~= rest0.remove(m as int));
            assert(rest0.remove(m as int).to_multiset() =~= rest0.to_multiset().remove(rv));
            assert(rest0.contains(rv)) by {
                assert(rest0[m as int] == rv);
            }
            assert(rest0.to_multiset().count(rv) > 0);
            assert(rest0.to_multiset() =~= models(rest@).to_multiset().insert(rv));
            assert forall|k: int| 0 <= k < models(rest@).len() implies (#[trigger] models(
                rest@,
            )[k]).created_at.wf() && models(rest@)[k].updated_at.wf() by {
                let z = if k < m as int { k } else { k + 1 };
                assert(models(rest@)[k] == rest0[z]);
            }
        }
        out.push(r);
        proof {
            broadcast use group_to_multiset_ensures;
            broadcast use group_multiset_axioms;

            assert(models(out@) =~= out0.push(rv));
            assert(out0.push(rv).to_multiset() =~= out0.to_multiset().insert(rv));
            assert(models(out@).to_multiset() =~= out0.to_multiset().insert(rv));
            assert(models(out@).to_multiset().add(models(rest@).to_multiset()) =~= total);
            assert forall|k: int| 0 <= k < models(out@).len() implies (#[trigger] models(
                out@,
            )[k]).created_at.wf() && models(out@)[k].updated_at.wf() by {
                if k < out0.len() {
                    assert(models(out@)[k] == out0[k]);
                } else {
                    assert(models(out@)[k] == rv);
                    assert(rv == rest0[m as int]);
                }
            }
            assert forall|x: int, y: int|
                0 <= x <= y < models(out@).len() implies !models(out@)[x].updated_at.lt(
                models(out@)[y].updated_at,
            ) by {
                if y < out0.len() {
                    assert(models(out@)[x] == out0[x]);
                    assert(models(out@)[y] == out0[y]);
                } else {
                    assert(models(out@)[y] == rv);
                    if x < out0.len() {
                        assert(models(out@)[x] == out0[x]);
                        assert(!out0[x].updated_at.lt(rest0[m as int].updated_at));
                    }
                }
            }
            assert forall|x: int, y: int|
                0 <= x < models(out@).len() && 0 <= y < models(rest@).len() implies !models(
                out@,
            )[x].updated_at.lt(models(rest@)[y].updated_at) by {
                let z = if y < m as int {
                    y
                } else {
                    y + 1
                };
                assert(models(rest@)[y] == rest0[z]);
                if x < out0.len() {
                    assert(models(out@)[x] == out0[x]);
                    assert(!out0[x].updated_at.lt(rest0[z].updated_at));
                } else {
                    assert(models(out@)[x] == rv);
                    assert(!rest0[m as int].updated_at.lt(rest0[z].updated_at));
                }
            }
        }
    }
    out
}

/// Selects the delta of one table for a subject and cursor: every owned
/// row changed strictly after the cursor, exactly once, newest first.
pub fn select_updated(table: &Vec<Record>, subject: &str, since: Instant) -> (out: Vec<Record>)
    requires
        all_wf(models(table@)),
    ensures
        section_ok(models(table@), models(out@), subject@, since),
        all_wf(models(out@)),
{
    let collected = collect_included(table, subject, since);
    sort_newest_first(collected)
}

/// The text an entry's stored detail renders as: its content, or empty.
pub open spec fn detail_text(d: Option<Seq<char>>) -> Seq<char> {
    match d {
        Option::Some(t) => t,
        Option::None => Seq::empty(),
    }
}

/// The canonical timestamp text of an instant.
pub open spec fn stamp_text(t: Instant) -> Seq<char> {
    rfc3339_format(t.secs as int, t.nanos as int)
}

/// The text renders the instant: it is the canonical timestamp text, and
/// parsing it yields exactly the instant back, sub-second precision
/// preserved.
pub open spec fn stamp_rendered(s: Seq<char>, t: Instant) -> bool {
    &&& s == stamp_text(t)
    &&& rfc3339_parse(s) == Some((t.secs as int, t.nanos as int))
}

/// The wire archive `w` renders the stored row `r`.
pub open spec fn is_archive_wire(w: SyncArchive, r: RecordModel) -> bool {
    &&& w.id@ == r.id
    &&& w.name@ == r.name
    &&& opt_view(w.description) == r.detail
    &&& stamp_rendered(w.created_at@, r.created_at)
    &&& stamp_rendered(w.updated_at@, r.updated_at)
}

/// The wire tome `w` renders the stored row `r`.
pub open spec fn is_tome_wire(w: SyncTome, r: RecordModel) -> bool {
    &&& w.id@ == r.id
    &&& w.archive_id@ == r.parent
    &&& w.name@ == r.name
    &&& opt_view(w.description) == r.detail
    &&& stamp_rendered(w.created_at@, r.created_at)
    &&& stamp_rendered(w.updated_at@, r.updated_at)
}

/// The wire entry `w` renders the stored row `r`.
pub open spec fn is_entry_wire(w: SyncEntry, r: RecordModel) -> bool {
    &&& w.id@ == r.id
    &&& w.tome_id@ == r.parent
    &&& w.title@ == r.name
    &&& w.content@ == detail_text(r.detail)
    &&& stamp_rendered(w.created_at@, r.created_at)
    &&& stamp_rendered(w.updated_at@, r.updated_at)
}

/// Every wire archive renders the row at its position.
pub open spec fn archives_rendered(ws: Seq<SyncArchive>, sel: Seq<RecordModel>) -> bool {
    &&& ws.len() == sel.len()
    &&& forall|k: int| 0 <= k < ws.len() ==> #[trigger] is_archive_wire(ws[k], sel[k])
}

/// Every wire tome renders the row at its position.
pub open spec fn tomes_rendered(ws: Seq<SyncTome>, sel: Seq<RecordModel>) -> bool {
    &&& ws.len() == sel.len()
    &&& forall|k: int| 0 <= k < ws.len() ==> #[trigger] is_tome_wire(ws[k], sel[k])
}

/// Every wire entry renders the row at its position.
pub open spec fn entries_rendered(ws: Seq<SyncEntry>, sel: Seq<RecordModel>) -> bool {
    &&& ws.len() == sel.len()
    &&& forall|k: int| 0 <= k < ws.len() ==> #[trigger] is_entry_wire(ws[k], sel[k])
}

/// Renders a selected delta as wire archives, position by position.
pub fn render_archives(rows: &Vec<Record>) -> (out: Vec<SyncArchive>)
    requires
        all_wf(models(rows@)),
    ensures
        archives_rendered(out@, models(rows@)),
{
    let n = rows.len();
    let mut out: Vec<SyncArchive> = Vec::new();
    let mut i: usize = 0;
    while i < n
        invariant
            n == rows@.len(),
            i <= n,
            out@.len() == i,
            all_wf(models(rows@)),
            forall|k: int| 0 <= k < i ==> #[trigger] is_archive_wire(out@[k], models(rows@)[k]),
        decreases n - i,
    {
        proof {
            assert(models(rows@)[i as int] == rows@[i as int]@);
        }
        let row = &rows[i];
        let w = SyncArchive {
            id: row.id.clone(),
            name: row.name.clone(),
            description: crate::merge::clone_opt(&row.detail),
            created_at: format_rfc3339(row.created_at),
            updated_at: format_rfc3339(row.updated_at),
        };
        assert(is_archive_wire(w, models(rows@)[i as int]));
        let ghost prev = out@;
        out.push(w);
        proof {
            assert forall|k: int| 0 <= k < i + 1 implies #[trigger] is_archive_wire(
                out@[k],
                models(rows@)[k],
            ) by {
                if k < i as int {
                    assert(out@[k] == prev[k]);
                }
            }
        }
        i = i + 1;
    }
    out
}

/// Renders a selected delta as wire tomes, position by position.
pub fn render_tomes(rows: &Vec<Record>) -> (out: Vec<SyncTome>)
    requires
        all_wf(models(rows@)),
    ensures
        tomes_rendered(out@, models(rows@)),
{
    let n = rows.len();
    let mut out: Vec<SyncTome> = Vec::new();
    let mut i: usize = 0;
    while i < n
        invariant
            n == rows@.len(),
            i <= n,
            out@.len() == i,
            all_wf(models(rows@)),
            forall|k: int| 0 <= k < i ==> #[trigger] is_tome_wire(out@[k], models(rows@)[k]),
        decreases n - i,
    {
        proof {
            assert(models(rows@)[i as int] == rows@[i as int]@);
        }
        let row = &rows[i];
        let w = SyncTome {
            id: row.id.clone(),
            archive_id: row.parent.clone(),
            name: row.name.clone(),
            description: crate::merge::clone_opt(&row.detail),
            created_at: format_rfc3339(row.created_at),
            updated_at: format_rfc3339(row.updated_at),
        };
        assert(is_tome_wire(w, models(rows@)[i as int]));
        let ghost prev = out@;
        out.push(w);
        proof {
            assert forall|k: int| 0 <= k < i + 1 implies #[trigger] is_tome_wire(
                out@[k],
                models(rows@)[k],
            ) by {
                if k < i as int {
                    assert(out@[k] == prev[k]);
                }
            }
        }
        i = i + 1;
    }
    out
}

/// Renders a selected delta as wire entries, position by position.
pub fn render_entries(rows: &Vec<Record>) -> (out: Vec<SyncEntry>)
    requires
        all_wf(models(rows@)),
    ensures
        entries_rendered(out@, models(rows@)),
{
    let n = rows.len();
    let mut out: Vec<SyncEntry> = Vec::new();
    let mut i: usize = 0;
    while i < n
        invariant
            n == rows@.len(),
            i <= n,
            out@.len() == i,
            all_wf(models(rows@)),
            forall|k: int| 0 <= k < i ==> #[trigger] is_entry_wire(out@[k], models(rows@)[k]),
        decreases n - i,
    {
        proof {
            assert(models(rows@)[i as int] == rows@[i as int]@);
        }
        let row = &rows[i];
        let content = match &row.detail {
            Some(t) => t.clone(),
            None => String::new(),
        };
        let w = SyncEntry {
            id: row.id.clone(),
            tome_id: row.parent.clone(),
            title: row.name.clone(),
            content: content,
            created_at: format_rfc3339(row.created_at),
            updated_at: format_rfc3339(row.updated_at),
        };
        assert(is_entry_wire(w, models(rows@)[i as int]));
        let ghost prev = out@;
        out.push(w);
        proof {
            assert forall|k: int| 0 <= k < i + 1 implies #[trigger] is_entry_wire(
                out@[k],
                models(rows@)[k],
            ) by {
                if k < i as int {
                    assert(out@[k] == prev[k]);
                }
            }
        }
        i = i + 1;
    }
    out
}

/// The whole pull response is right for this store, subject and cursor:
/// each list renders a correct section of its table, and the fresh cursor
/// is timestamp text that parses.
pub open spec fn response_ok(
    store: Store,
    subject: Seq<char>,
    since: Instant,
    resp: SyncResponse,
) -> bool {
    &&& exists|sel: Seq<RecordModel>|
        #[trigger] archives_rendered(resp.archives@, sel) && section_ok(
            models(store.archives@),
            sel,
            subject,
            since,
        )
    &&& exists|sel: Seq<RecordModel>|
        #[trigger] tomes_rendered(resp.tomes@, sel) && section_ok(
            models(store.tomes@),
            sel,
            subject,
            since,
        )
    &&& exists|sel: Seq<RecordModel>|
        #[trigger] entries_rendered(resp.entries@, sel) && section_ok(
            models(store.entries@),
            sel,
            subject,
            since,
        )
    &&& rfc3339_parse(resp.last_modified@) is Some
}

/// Answers a pull: every record the subject owns that changed strictly
/// after the caller's checkpoint (epoch when absent or unreadable), newest
/// first, with canonical timestamps, plus the server's clock as the next
/// cursor.
pub fn get_sync(store: &Store, subject: &str, query: &SyncQuery) -> (resp: SyncResponse)
    requires
        store.wf(),
    ensures
        response_ok(*store, subject@, cursor_spec(opt_view(query.since)), resp),
{
    let ghost since_g = cursor_spec(opt_view(query.since));
    let since = parse_cursor(&query.since);
    let sel_archives = select_updated(&store.archives, subject, since);
    let sel_tomes = select_updated(&store.tomes, subject, since);
    let sel_entries = select_updated(&store.entries, subject, since);
    let archives = render_archives(&sel_archives);
    let tomes = render_tomes(&sel_tomes);
    let entries = render_entries(&sel_entries);
    let exported = now_instant();
    let last_modified = format_rfc3339(exported);
    let resp = SyncResponse { archives, tomes, entries, last_modified };
    proof {
        assert(archives_rendered(resp.archives@, models(sel_archives@)) && section_ok(
            models(store.archives@),
            models(sel_archives@),
            subject@,
            since_g,
        ));
        assert(tomes_rendered(resp.tomes@, models(sel_tomes@)) && section_ok(
            models(store.tomes@),
            models(sel_tomes@),
            subject@,
            since_g,
        ));
        assert(entries_rendered(resp.entries@, models(sel_entries@)) && section_ok(
            models(store.entries@),
            models(sel_entries@),
            subject@,
            since_g,
        ));
    }
    resp
}

} // verus!
