//! Laws of the synchronization protocol, proved over the map shadows that
//! the merge engine's and pull exporter's contracts speak of: idempotence
//! of a push, monotonicity of last-write-wins, determinism of the
//! tie-break, the frame and ownership scoping of the merge, completeness
//! and agreement of a pull, and convergence of a full push/pull round
//! trip. Atomicity of a push is part of `post_sync`'s own contract: on a
//! validation error the store is left exactly as it was.

use vstd::prelude::*;
use vstd::seq_lib::group_to_multiset_ensures;
use vstd::multiset::{Multiset, group_multiset_axioms};
use crate::timestamp::Instant;
use crate::store::{RecordModel, ids_unique, apply_record, apply_batch};
use crate::pull::{included, included_pred, section_ok};

verus! {

/// The store has settled this record: applying it (again) changes
/// nothing, because its identifier is present and the stored row either
/// belongs to another owner or is at least as new.
pub open spec fn settled(m: Map<Seq<char>, RecordModel>, r: RecordModel) -> bool {
    &&& m.dom().contains(r.id)
    &&& (m[r.id].owner != r.owner || !m[r.id].updated_at.lt(r.updated_at))
}

/// Every record of the batch is attributed to this subject.
pub open spec fn batch_owned(rs: Seq<RecordModel>, subject: Seq<char>) -> bool {
    forall|j: int| 0 <= j < rs.len() ==> (#[trigger] rs[j]).owner == subject
}

/// Every stored row belongs to this subject.
pub open spec fn store_owned(m: Map<Seq<char>, RecordModel>, subject: Seq<char>) -> bool {
    forall|id: Seq<char>| m.dom().contains(id) ==> (#[trigger] m[id]).owner == subject
}

/// Applying one record keeps every stored identifier, and never makes any
/// stored row older.
proof fn lemma_apply_record_preserves(
    m: Map<Seq<char>, RecordModel>,
    r: RecordModel,
    id: Seq<char>,
)
    requires
        m.dom().contains(id),
    ensures
        apply_record(m, r).dom().contains(id),
        !apply_record(m, r)[id].updated_at.lt(m[id].updated_at),
{
}

/// Applying a batch keeps every stored identifier, and never makes any
/// stored row older.
proof fn lemma_apply_batch_preserves(
    m: Map<Seq<char>, RecordModel>,
    rs: Seq<RecordModel>,
    id: Seq<char>,
)
    requires
        m.dom().contains(id),
    ensures
        apply_batch(m, rs).dom().contains(id),
        !apply_batch(m, rs)[id].updated_at.lt(m[id].updated_at),
    decreases rs.len(),
{
    if rs.len() > 0 {
        lemma_apply_record_preserves(m, rs.first(), id);
        lemma_apply_batch_preserves(apply_record(m, rs.first()), rs.drop_first(), id);
    }
}

/// Once a record is settled, no later application unsettles it: an
/// overwrite keeps the row's owner and only raises its update time.
proof fn lemma_apply_record_keeps_settled(
    m: Map<Seq<char>, RecordModel>,
    other: RecordModel,
    r: RecordModel,
)
    requires
        settled(m, r),
    ensures
        settled(apply_record(m, other), r),
{
}

/// A whole batch cannot unsettle a settled record.
proof fn lemma_apply_batch_keeps_settled(
    m: Map<Seq<char>, RecordModel>,
    rs: Seq<RecordModel>,
    r: RecordModel,
)
    requires
        settled(m, r),
    ensures
        settled(apply_batch(m, rs), r),
    decreases rs.len(),
{
    if rs.len() > 0 {
        lemma_apply_record_keeps_settled(m, rs.first(), r);
        lemma_apply_batch_keeps_settled(apply_record(m, rs.first()), rs.drop_first(), r);
    }
}

/// After a batch is applied, every record of the batch is settled.
proof fn lemma_apply_batch_settles(m: Map<Seq<char>, RecordModel>, rs: Seq<RecordModel>)
    ensures
        forall|j: int| 0 <= j < rs.len() ==> settled(apply_batch(m, rs), #[trigger] rs[j]),
    decreases rs.len(),
{
    if rs.len() > 0 {
        let m1 = apply_record(m, rs.first());
        lemma_apply_batch_settles(m1, rs.drop_first());
        assert(settled(m1, rs.first()));
        lemma_apply_batch_keeps_settled(m1, rs.drop_first(), rs.first());
        assert forall|j: int| 0 <= j < rs.len() implies settled(
            apply_batch(m, rs),
            #[trigger] rs[j],
        ) by {
            if j > 0 {
                assert(rs.drop_first()[j - 1] == rs[j]);
            }
        }
    }
}

/// Replaying a batch against a store in which every batch record is
/// settled changes nothing.
proof fn lemma_replay_noop(m: Map<Seq<char>, RecordModel>, rs: Seq<RecordModel>)
    requires
        forall|j: int| 0 <= j < rs.len() ==> settled(m, #[trigger] rs[j]),
    ensures
        apply_batch(m, rs) == m,
    decreases rs.len(),
{
    if rs.len() > 0 {
        assert(apply_record(m, rs.first()) == m);
        assert(forall|j: int| 0 <= j < rs.drop_first().len() ==> rs.drop_first()[j] == rs[j + 1]);
        lemma_replay_noop(m, rs.drop_first());
    }
}

/// Idempotence: applying the same push batch twice leaves exactly the
/// store state that applying it once leaves.
pub proof fn lemma_push_idempotent(m: Map<Seq<char>, RecordModel>, rs: Seq<RecordModel>)
    ensures
        apply_batch(apply_batch(m, rs), rs) == apply_batch(m, rs),
{
    lemma_apply_batch_settles(m, rs);
    lemma_replay_noop(apply_batch(m, rs), rs);
}

/// Monotonicity of last-write-wins: once a record of a subject has been
/// applied, a record of the same subject under the same identifier with a
/// strictly older update time changes nothing, whatever its fields say.
pub proof fn lemma_lww_monotone(
    m: Map<Seq<char>, RecordModel>,
    a: RecordModel,
    b: RecordModel,
)
    requires
        b.id == a.id,
        b.owner == a.owner,
        b.updated_at.lt(a.updated_at),
    ensures
        apply_record(apply_record(m, a), b) == apply_record(m, a),
{
}

/// Tie-break determinism: with identical identifiers, the same subject
/// and identical update times, the first-applied record's fields persist;
/// the later arrival is a no-op.
pub proof fn lemma_lww_tie_break(
    m: Map<Seq<char>, RecordModel>,
    a: RecordModel,
    b: RecordModel,
)
    requires
        b.id == a.id,
        b.owner == a.owner,
        b.updated_at == a.updated_at,
    ensures
        apply_record(apply_record(m, a), b) == apply_record(m, a),
{
}

/// Frame of the merge: a stored row whose identifier occurs nowhere in
/// the batch is exactly as it was, and no such identifier appears or
/// disappears.
pub proof fn lemma_push_frame(
    m: Map<Seq<char>, RecordModel>,
    rs: Seq<RecordModel>,
    id: Seq<char>,
)
    requires
        forall|j: int| 0 <= j < rs.len() ==> (#[trigger] rs[j]).id != id,
    ensures
        apply_batch(m, rs).dom().contains(id) == m.dom().contains(id),
        m.dom().contains(id) ==> apply_batch(m, rs)[id] == m[id],
    decreases rs.len(),
{
    if rs.len() > 0 {
        assert(forall|j: int| 0 <= j < rs.drop_first().len() ==> rs.drop_first()[j] == rs[j + 1]);
        lemma_push_frame(apply_record(m, rs.first()), rs.drop_first(), id);
    }
}

/// Ownership scoping of the merge: a push attributed to one subject never
/// modifies a row that belongs to another subject.
pub proof fn lemma_push_leaves_foreign_rows(
    m: Map<Seq<char>, RecordModel>,
    rs: Seq<RecordModel>,
    subject: Seq<char>,
    id: Seq<char>,
)
    requires
        batch_owned(rs, subject),
        m.dom().contains(id),
        m[id].owner != subject,
    ensures
        apply_batch(m, rs).dom().contains(id),
        apply_batch(m, rs)[id] == m[id],
    decreases rs.len(),
{
    if rs.len() > 0 {
        assert(apply_record(m, rs.first())[id] == m[id]);
        assert(forall|j: int| 0 <= j < rs.drop_first().len() ==> rs.drop_first()[j] == rs[j + 1]);
        lemma_push_leaves_foreign_rows(apply_record(m, rs.first()), rs.drop_first(), subject, id);
    }
}

/// Attribution: after a push, every row is either a pre-existing row left
/// untouched or a row that belongs to the authenticated subject — no
/// client-asserted owner survives the merge.
pub proof fn lemma_push_attributes_to_subject(
    m: Map<Seq<char>, RecordModel>,
    rs: Seq<RecordModel>,
    subject: Seq<char>,
)
    requires
        batch_owned(rs, subject),
    ensures
        forall|id: Seq<char>| #[trigger]
            apply_batch(m, rs).dom().contains(id) ==> (m.dom().contains(id) && apply_batch(m, rs)[id]
                == m[id]) || apply_batch(m, rs)[id].owner == subject,
    decreases rs.len(),
{
    if rs.len() > 0 {
        let m1 = apply_record(m, rs.first());
        assert(forall|j: int| 0 <= j < rs.drop_first().len() ==> rs.drop_first()[j] == rs[j + 1]);
        lemma_push_attributes_to_subject(m1, rs.drop_first(), subject);
        assert forall|id: Seq<char>| #[trigger]
            apply_batch(m, rs).dom().contains(id) implies (m.dom().contains(id) && apply_batch(
            m,
            rs,
        )[id] == m[id]) || apply_batch(m, rs)[id].owner == subject by {
            if m1.dom().contains(id) && apply_batch(m1, rs.drop_first())[id] == m1[id] {
                assert((m.dom().contains(id) && m1[id] == m[id]) || m1[id].owner == subject);
            }
        }
    }
}

/// A push by the store's one subject keeps every row owned by that
/// subject.
proof fn lemma_push_keeps_store_owned(
    m: Map<Seq<char>, RecordModel>,
    rs: Seq<RecordModel>,
    subject: Seq<char>,
)
    requires
        store_owned(m, subject),
        batch_owned(rs, subject),
    ensures
        store_owned(apply_batch(m, rs), subject),
{
    lemma_push_attributes_to_subject(m, rs, subject);
}

/// In any sequence, an element's count in the filtered multiset is its
/// count in the whole multiset when the predicate holds of it, and zero
/// otherwise.
proof fn lemma_filter_multiset_count(s: Seq<RecordModel>, pred: spec_fn(RecordModel) -> bool, x: RecordModel)
    ensures
        s.filter(pred).to_multiset().count(x) == if pred(x) {
            s.to_multiset().count(x)
        } else {
            0
        },
    decreases s.len(),
{
    broadcast use group_to_multiset_ensures;
    broadcast use group_multiset_axioms;

    reveal(Seq::filter);
    if s.len() == 0 {
        assert(s.filter(pred) =~= Seq::<RecordModel>::empty());
        assert(s.to_multiset() =~= Multiset::<RecordModel>::empty());
        assert(s.filter(pred).to_multiset() =~= Multiset::<RecordModel>::empty());
    } else {
        let t = s.drop_last();
        let l = s.last();
        lemma_filter_multiset_count(t, pred, x);
        assert(t.push(l) =~= s);
        assert(t.push(l).to_multiset() =~= t.to_multiset().insert(l));
        if pred(l) {
            assert(s.filter(pred) == t.filter(pred).push(l));
            assert(t.filter(pred).push(l).to_multiset() =~= t.filter(pred).to_multiset().insert(
                l,
            ));
        } else {
            assert(s.filter(pred) == t.filter(pred));
        }
    }
}

/// Identifier-unique rows are pairwise distinct, so each occurs exactly
/// once in the table's multiset.
proof fn lemma_unique_count(table: Seq<RecordModel>, i: int)
    requires
        ids_unique(table),
        0 <= i < table.len(),
    ensures
        table.to_multiset().count(table[i]) == 1,
{
    broadcast use group_to_multiset_ensures;

    assert(table.no_duplicates()) by {
        assert forall|x: int, y: int|
            0 <= x < table.len() && 0 <= y < table.len() && x != y implies table[x] != table[y]
        by {
            if x < y {
                assert(table[x].id != table[y].id);
            } else {
                assert(table[y].id != table[x].id);
            }
        }
    }
    table.lemma_multiset_has_no_duplicates();
    assert(table.contains(table[i]));
    assert(table.to_multiset().count(table[i]) > 0);
}

/// Pull completeness: a correct pull section holds every included row of
/// the table exactly once and nothing else, and never two rows under one
/// identifier.
pub proof fn lemma_pull_complete(
    table: Seq<RecordModel>,
    sel: Seq<RecordModel>,
    subject: Seq<char>,
    since: Instant,
)
    requires
        ids_unique(table),
        section_ok(table, sel, subject, since),
    ensures
        forall|i: int|
            0 <= i < table.len() && included(#[trigger] table[i], subject, since)
                ==> sel.to_multiset().count(table[i]) == 1,
        forall|j: int|
            0 <= j < sel.len() ==> included(#[trigger] sel[j], subject, since) && table.contains(
                sel[j],
            ),
        ids_unique(sel),
{
    broadcast use group_to_multiset_ensures;

    let pred = included_pred(subject, since);
    assert forall|i: int|
        0 <= i < table.len() && included(#[trigger] table[i], subject, since) implies sel
        .to_multiset().count(table[i]) == 1 by {
        lemma_filter_multiset_count(table, pred, table[i]);
        lemma_unique_count(table, i);
        assert(pred(table[i]));
    }
    assert forall|j: int|
        0 <= j < sel.len() implies included(#[trigger] sel[j], subject, since) && table.contains(
        sel[j],
    ) by {
        assert(sel.contains(sel[j]));
        assert(sel.to_multiset().count(sel[j]) > 0);
        lemma_filter_multiset_count(table, pred, sel[j]);
        assert(pred(sel[j]));
        assert(table.to_multiset().count(sel[j]) > 0);
        assert(table.to_multiset().contains(sel[j]));
    }
    assert forall|x: RecordModel|
        sel.to_multiset().contains(x) implies sel.to_multiset().count(x) == 1 by {
        lemma_filter_multiset_count(table, pred, x);
        assert(table.to_multiset().count(x) > 0);
        assert(table.to_multiset().contains(x));
        assert(table.contains(x));
        let i = choose|i: int| 0 <= i < table.len() && table[i] == x;
        lemma_unique_count(table, i);
    }
    sel.lemma_multiset_has_no_duplicates_conv();
    assert forall|j1: int, j2: int| 0 <= j1 < j2 < sel.len() implies sel[j1].id != sel[j2].id by {
        if sel[j1].id == sel[j2].id {
            assert(table.contains(sel[j1]));
            assert(table.contains(sel[j2]));
            let i1 = choose|i: int| 0 <= i < table.len() && table[i] == sel[j1];
            let i2 = choose|i: int| 0 <= i < table.len() && table[i] == sel[j2];
            assert(table[i1].id == table[i2].id);
            assert(i1 == i2);
            assert(sel[j1] == sel[j2]);
        }
    }
}

/// A pull hands out stored rows unchanged, so any per-row fact of the
/// store carries over: in particular, in a store whose rows never update
/// backwards in time, every pulled row still has its update time at or
/// past its creation time.
pub proof fn lemma_pull_rows_keep_row_facts(
    table: Seq<RecordModel>,
    sel: Seq<RecordModel>,
    subject: Seq<char>,
    since: Instant,
)
    requires
        ids_unique(table),
        section_ok(table, sel, subject, since),
        forall|i: int|
            0 <= i < table.len() ==> !(#[trigger] table[i]).updated_at.lt(table[i].created_at),
    ensures
        forall|j: int|
            0 <= j < sel.len() ==> !(#[trigger] sel[j]).updated_at.lt(sel[j].created_at),
{
    lemma_pull_complete(table, sel, subject, since);
    assert forall|j: int|
        0 <= j < sel.len() implies !(#[trigger] sel[j]).updated_at.lt(sel[j].created_at) by {
        assert(table.contains(sel[j]));
        let i = choose|i: int| 0 <= i < table.len() && table[i] == sel[j];
        assert(!table[i].updated_at.lt(table[i].created_at));
    }
}

/// Two pulls of the same table with the same subject and cursor agree:
/// they hand out exactly the same rows, whatever order ties were broken
/// in.
pub proof fn lemma_pulls_agree(
    table: Seq<RecordModel>,
    sel1: Seq<RecordModel>,
    sel2: Seq<RecordModel>,
    subject: Seq<char>,
    since: Instant,
)
    requires
        section_ok(table, sel1, subject, since),
        section_ok(table, sel2, subject, since),
    ensures
        sel1.to_multiset() == sel2.to_multiset(),
        forall|j: int| 0 <= j < sel1.len() ==> sel2.contains(#[trigger] sel1[j]),
{
    broadcast use group_to_multiset_ensures;

    assert forall|j: int| 0 <= j < sel1.len() implies sel2.contains(#[trigger] sel1[j]) by {
        assert(sel1.contains(sel1[j]));
        assert(sel1.to_multiset().count(sel1[j]) > 0);
        assert(sel2.to_multiset().contains(sel1[j]));
    }
}

/// A pull whose cursor is at or past every update time of the table
/// returns nothing: once a client has caught up, and absent new writes, it
/// sees no record again.
pub proof fn lemma_pull_nothing_new(
    table: Seq<RecordModel>,
    sel: Seq<RecordModel>,
    subject: Seq<char>,
    since: Instant,
)
    requires
        section_ok(table, sel, subject, since),
        forall|i: int| 0 <= i < table.len() ==> !since.lt((#[trigger] table[i]).updated_at),
    ensures
        sel.len() == 0,
{
    broadcast use group_to_multiset_ensures;

    if sel.len() > 0 {
        let x = sel[0];
        assert(sel.contains(x));
        assert(sel.to_multiset().count(x) > 0);
        lemma_filter_multiset_count(table, included_pred(subject, since), x);
        assert(included(x, subject, since));
        assert(table.to_multiset().count(x) > 0);
        assert(table.to_multiset().contains(x));
        assert(table.contains(x));
        let i = choose|i: int| 0 <= i < table.len() && table[i] == x;
        assert(!since.lt(table[i].updated_at));
    }
}

/// Round-trip convergence: in a store scoped to one subject, after two
/// replicas of that subject each push their state, the store holds
/// exactly one row under every pushed identifier, at least as new as
/// anything either replica pushed for it; a following pull hands both
/// replicas that same row, so they converge on an identical record for
/// every shared identifier.
pub proof fn lemma_round_trip_convergence(
    m: Map<Seq<char>, RecordModel>,
    a: Seq<RecordModel>,
    b: Seq<RecordModel>,
    subject: Seq<char>,
)
    requires
        store_owned(m, subject),
        batch_owned(a, subject),
        batch_owned(b, subject),
    ensures
        forall|j: int|
            0 <= j < a.len() ==> apply_batch(apply_batch(m, a), b).dom().contains(
                (#[trigger] a[j]).id,
            ) && !apply_batch(apply_batch(m, a), b)[a[j].id].updated_at.lt(a[j].updated_at),
        forall|j: int|
            0 <= j < b.len() ==> apply_batch(apply_batch(m, a), b).dom().contains(
                (#[trigger] b[j]).id,
            ) && !apply_batch(apply_batch(m, a), b)[b[j].id].updated_at.lt(b[j].updated_at),
{
    let m1 = apply_batch(m, a);
    let m2 = apply_batch(m1, b);
    lemma_push_keeps_store_owned(m, a, subject);
    lemma_push_keeps_store_owned(m1, b, subject);
    lemma_apply_batch_settles(m, a);
    lemma_apply_batch_settles(m1, b);
    assert forall|j: int|
        0 <= j < a.len() implies m2.dom().contains((#[trigger] a[j]).id) && !m2[a[j].id].updated_at
        .lt(a[j].updated_at) by {
        assert(settled(m1, a[j]));
        assert(m1[a[j].id].owner == subject);
        assert(!m1[a[j].id].updated_at.lt(a[j].updated_at));
        lemma_apply_batch_preserves(m1, b, a[j].id);
    }
    assert forall|j: int|
        0 <= j < b.len() implies m2.dom().contains((#[trigger] b[j]).id) && !m2[b[j].id].updated_at
        .lt(b[j].updated_at) by {
        assert(settled(m2, b[j]));
        assert(m2[b[j].id].owner == subject);
    }
}

} // verus!
