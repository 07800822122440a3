//! The engine's global laws, stated over the same specification functions
//! its contracts use, and proved once and for all.

use vstd::prelude::*;
use crate::engine::{
    Retention, apply_dec_rows, apply_insert_refs, key_view_set, mer_row_of, remove_blobs,
    rows_of_refs, upsert_row,
};
use crate::records::{CandView, MediaRef, MerView, RetentionPolicy};

verus! {

/// How many references of a list name the given media identifier.
pub open spec fn count_refs(refs: Seq<(String, bool, String)>, mxc: Seq<char>) -> int
    decreases refs.len(),
{
    if refs.len() == 0 {
        0
    } else {
        count_refs(refs.drop_last(), mxc) + (if refs.last().0@ == mxc {
            1int
        } else {
            0int
        })
    }
}

/// How many event rows name the given media identifier.
pub open spec fn count_rows(rows: Seq<MerView>, mxc: Seq<char>) -> int
    decreases rows.len(),
{
    if rows.len() == 0 {
        0
    } else {
        count_rows(rows.drop_last(), mxc) + (if rows.last().mxc == mxc {
            1int
        } else {
            0int
        })
    }
}

/// The reference kinds of a row list are pairwise distinct.
pub open spec fn distinct_kinds(rows: Seq<MerView>) -> bool {
    forall|i: int, j: int| 0 <= i < j < rows.len() ==> rows[i].kind != rows[j].kind
}

/// Whether a row list holds a row of the given kind.
pub open spec fn has_kind(rows: Seq<MerView>, kind: Seq<char>) -> bool {
    exists|i: int| 0 <= i < rows.len() && #[trigger] rows[i].kind == kind
}

/// Whether a reference list mentions the given kind.
pub open spec fn refs_have_kind(refs: Seq<(String, bool, String)>, kind: Seq<char>) -> bool {
    exists|i: int| 0 <= i < refs.len() && (#[trigger] refs[i]).2@ == kind
}

proof fn lemma_upsert_kinds(rows: Seq<MerView>, row: MerView, kind: Seq<char>)
    ensures
        has_kind(upsert_row(rows, row), kind) <==> has_kind(rows, kind) || kind == row.kind,
        distinct_kinds(rows) ==> distinct_kinds(upsert_row(rows, row)),
    decreases rows.len(),
{
    let out = upsert_row(rows, row);
    if rows.len() == 0 {
        assert(out =~= seq![row]);
        assert(out[0].kind == row.kind);
        if has_kind(out, kind) {
            let i = choose|i: int| 0 <= i < out.len() && #[trigger] out[i].kind == kind;
            assert(i == 0);
        }
    } else if rows[0].kind == row.kind {
        assert(out =~= seq![row] + rows.drop_first());
        assert forall|k2: Seq<char>|
            has_kind(out, k2) implies has_kind(rows, k2) || k2 == row.kind by {
            let i = choose|i: int| 0 <= i < out.len() && #[trigger] out[i].kind == k2;
            if i > 0 {
                assert(rows[i] == out[i]);
            }
        }
        if has_kind(rows, kind) {
            let i = choose|i: int| 0 <= i < rows.len() && #[trigger] rows[i].kind == kind;
            if i == 0 {
                assert(out[0].kind == row.kind);
            } else {
                assert(out[i] == rows[i]);
            }
        }
        if kind == row.kind {
            assert(out[0].kind == kind);
        }
        if distinct_kinds(rows) {
            assert forall|i: int, j: int|
                0 <= i < j < out.len() implies out[i].kind != out[j].kind by {
                if i > 0 {
                    assert(out[i] == rows[i] && out[j] == rows[j]);
                } else {
                    assert(out[j] == rows[j]);
                    assert(rows[0].kind != rows[j].kind);
                }
            }
        }
    } else {
        lemma_upsert_kinds(rows.drop_first(), row, kind);
        let inner = upsert_row(rows.drop_first(), row);
        assert(out =~= seq![rows[0]] + inner);
        assert forall|k2: Seq<char>|
            has_kind(out, k2) implies has_kind(rows, k2) || k2 == row.kind by {
            let i = choose|i: int| 0 <= i < out.len() && #[trigger] out[i].kind == k2;
            if i == 0 {
                assert(rows[0].kind == k2);
            } else {
                assert(inner[i - 1].kind == k2);
                lemma_upsert_kinds(rows.drop_first(), row, k2);
                if has_kind(rows.drop_first(), k2) {
                    let m = choose|m: int|
                        0 <= m < rows.drop_first().len() && #[trigger] rows.drop_first()[m].kind
                            == k2;
                    assert(rows[m + 1].kind == k2);
                }
            }
        }
        if has_kind(rows, kind) {
            let i = choose|i: int| 0 <= i < rows.len() && #[trigger] rows[i].kind == kind;
            if i == 0 {
                assert(out[0].kind == kind);
            } else {
                assert(rows.drop_first()[i - 1].kind == kind);
                assert(has_kind(inner, kind));
                let m = choose|m: int| 0 <= m < inner.len() && #[trigger] inner[m].kind == kind;
                assert(out[m + 1].kind == kind);
            }
        }
        if kind == row.kind {
            assert(has_kind(inner, kind));
            let m = choose|m: int| 0 <= m < inner.len() && #[trigger] inner[m].kind == kind;
            assert(out[m + 1].kind == kind);
        }
        if distinct_kinds(rows) {
            assert(distinct_kinds(rows.drop_first())) by {
                assert(forall|i: int|
                    0 <= i < rows.len() - 1 ==> rows.drop_first()[i] == rows[i + 1]);
            }
            assert(distinct_kinds(inner));
            assert forall|i: int, j: int|
                0 <= i < j < out.len() implies out[i].kind != out[j].kind by {
                if i == 0 {
                    assert(out[j] == inner[j - 1]);
                    assert(!has_kind(rows.drop_first(), rows[0].kind)) by {
                        if has_kind(rows.drop_first(), rows[0].kind) {
                            let m = choose|m: int|
                                0 <= m < rows.drop_first().len()
                                    && #[trigger] rows.drop_first()[m].kind == rows[0].kind;
                            assert(rows[m + 1].kind == rows[0].kind);
                        }
                    }
                    lemma_upsert_kinds(rows.drop_first(), row, inner[j - 1].kind);
                    assert(has_kind(inner, inner[j - 1].kind)) by {
                        assert(inner[j - 1].kind == inner[j - 1].kind);
                    }
                } else {
                    assert(out[i] == inner[i - 1] && out[j] == inner[j - 1]);
                }
            }
        }
    }
}

/// Conservation of event rows: the rows an event's reference list stores
/// hold exactly one row per reference kind the list mentions, and none for
/// any other kind.
pub proof fn lemma_rows_one_per_kind(
    refs: Seq<(String, bool, String)>,
    room_id: Seq<char>,
    sender: Seq<char>,
)
    ensures
        distinct_kinds(rows_of_refs(refs, room_id, sender)),
        forall|kind: Seq<char>|
            has_kind(rows_of_refs(refs, room_id, sender), kind) <==> refs_have_kind(refs, kind),
    decreases refs.len(),
{
    let rows = rows_of_refs(refs, room_id, sender);
    if refs.len() == 0 {
        assert forall|kind: Seq<char>| !has_kind(rows, kind) by {
            if has_kind(rows, kind) {
                let i = choose|i: int| 0 <= i < rows.len() && #[trigger] rows[i].kind == kind;
            }
        }
        assert forall|kind: Seq<char>| !refs_have_kind(refs, kind) by {
            if refs_have_kind(refs, kind) {
                let i = choose|i: int|
                    0 <= i < refs.len() && (#[trigger] refs[i]).2@ == kind;
            }
        }
    } else {
        lemma_rows_one_per_kind(refs.drop_last(), room_id, sender);
        let prev = rows_of_refs(refs.drop_last(), room_id, sender);
        let row = mer_row_of(refs.last().0@, refs.last().2@, room_id, sender);
        assert(rows == upsert_row(prev, row));
        assert forall|kind: Seq<char>|
            has_kind(rows, kind) <==> refs_have_kind(refs, kind) by {
            lemma_upsert_kinds(prev, row, kind);
            if refs_have_kind(refs.drop_last(), kind) {
                let i = choose|i: int|
                    0 <= i < refs.drop_last().len() && (#[trigger] refs.drop_last()[i]).2@
                        == kind;
                assert(refs[i].2@ == kind);
            }
            if refs_have_kind(refs, kind) && kind != row.kind {
                let i = choose|i: int|
                    0 <= i < refs.len() && (#[trigger] refs[i]).2@ == kind;
                assert(i < refs.len() - 1);
                assert(refs.drop_last()[i].2@ == kind);
            }
            if kind == row.kind {
                assert(refs_have_kind(refs, kind)) by {
                    assert(refs[refs.len() - 1].2@ == kind);
                }
            }
        }
        lemma_upsert_kinds(prev, row, row.kind);
    }
}

/// Conservation across one event's life: recording its references stores
/// its rows, exactly one per mentioned reference kind; completing its
/// redaction leaves no row of the event behind.
pub proof fn lemma_conservation(
    m0: Map<Seq<char>, Seq<MerView>>,
    m1: Map<Seq<char>, Seq<MerView>>,
    m2: Map<Seq<char>, Seq<MerView>>,
    event_id: Seq<char>,
    refs: Seq<(String, bool, String)>,
    room_id: Seq<char>,
    sender: Seq<char>,
)
    requires
        m1 == m0.insert(event_id, rows_of_refs(refs, room_id, sender)),
        m2 == m1.remove(event_id),
    ensures
        m1.contains_key(event_id),
        distinct_kinds(m1[event_id]),
        forall|kind: Seq<char>| has_kind(m1[event_id], kind) <==> refs_have_kind(refs, kind),
        !m2.contains_key(event_id),
        !m0.contains_key(event_id) ==> m2 == m0,
{
    lemma_rows_one_per_kind(refs, room_id, sender);
    if !m0.contains_key(event_id) {
        assert(m2 =~= m0);
    }
}

/// Refcount arithmetic on insertion: recording a reference list raises a
/// media identifier's count by the number of references naming it,
/// saturating at the top of the type; a fresh identifier starts from zero.
pub proof fn lemma_insert_refs_refcount(
    m: Map<Seq<char>, MediaRef>,
    refs: Seq<(String, bool, String)>,
    now: u64,
    mxc: Seq<char>,
)
    ensures
        count_refs(refs, mxc) >= 0,
        count_refs(refs, mxc) == 0 ==> (apply_insert_refs(m, refs, now).contains_key(mxc)
            == m.contains_key(mxc) && (m.contains_key(mxc) ==> apply_insert_refs(m, refs, now)[mxc]
            == m[mxc])),
        count_refs(refs, mxc) > 0 ==> apply_insert_refs(m, refs, now).contains_key(mxc)
            && apply_insert_refs(m, refs, now)[mxc].refcount == (if m.contains_key(mxc) {
            if m[mxc].refcount + count_refs(refs, mxc) <= i64::MAX {
                m[mxc].refcount + count_refs(refs, mxc)
            } else {
                i64::MAX as int
            }
        } else {
            if count_refs(refs, mxc) <= i64::MAX {
                count_refs(refs, mxc)
            } else {
                i64::MAX as int
            }
        }),
    decreases refs.len(),
{
    if refs.len() > 0 {
        lemma_insert_refs_refcount(m, refs.drop_last(), now, mxc);
    }
}

/// Refcount arithmetic on redaction: removing an event's rows lowers a
/// media identifier's count by the number of rows naming it, clamped at
/// zero on every step; an unknown identifier stays unknown.
pub proof fn lemma_dec_rows_refcount(
    m: Map<Seq<char>, MediaRef>,
    rows: Seq<MerView>,
    now: u64,
    policy: RetentionPolicy,
    mxc: Seq<char>,
)
    ensures
        count_rows(rows, mxc) >= 0,
        apply_dec_rows(m, rows, now, policy).0.contains_key(mxc) == m.contains_key(mxc),
        m.contains_key(mxc) && count_rows(rows, mxc) == 0 ==> apply_dec_rows(
            m,
            rows,
            now,
            policy,
        ).0[mxc] == m[mxc],
        m.contains_key(mxc) && count_rows(rows, mxc) > 0 ==> apply_dec_rows(
            m,
            rows,
            now,
            policy,
        ).0[mxc].refcount == (if m[mxc].refcount - count_rows(rows, mxc) >= 0 {
            m[mxc].refcount - count_rows(rows, mxc)
        } else {
            0
        }),
    decreases rows.len(),
{
    if rows.len() > 0 {
        lemma_dec_rows_refcount(m, rows.drop_last(), now, policy, mxc);
    }
}

/// One step of a clamped counter: a positive delta adds, a negative delta
/// subtracts but never below zero.
pub open spec fn clamp_step(v: int, d: int) -> int {
    if v + d < 0 {
        0
    } else {
        v + d
    }
}

/// A clamped counter after a sequence of deltas.
pub open spec fn apply_deltas(v: int, ds: Seq<int>) -> int
    decreases ds.len(),
{
    if ds.len() == 0 {
        v
    } else {
        clamp_step(apply_deltas(v, ds.drop_last()), ds.last())
    }
}

/// The sum of a sequence of deltas.
pub open spec fn sum_deltas(ds: Seq<int>) -> int
    decreases ds.len(),
{
    if ds.len() == 0 {
        0
    } else {
        sum_deltas(ds.drop_last()) + ds.last()
    }
}

/// Refcount arithmetic over any sequence of operations: the clamped
/// counter never goes negative, and as long as no prefix would drive it
/// below zero it equals the plain sum of insertions and decrements.
pub proof fn lemma_refcount_arithmetic(v: int, ds: Seq<int>)
    requires
        v >= 0,
    ensures
        apply_deltas(v, ds) >= 0,
        (forall|i: int| 0 <= i <= ds.len() ==> v + sum_deltas(#[trigger] ds.take(i)) >= 0)
            ==> apply_deltas(v, ds) == v + sum_deltas(ds),
    decreases ds.len(),
{
    if ds.len() > 0 {
        lemma_refcount_arithmetic(v, ds.drop_last());
        if forall|i: int| 0 <= i <= ds.len() ==> v + sum_deltas(#[trigger] ds.take(i)) >= 0 {
            assert forall|i: int|
                0 <= i <= ds.drop_last().len() implies v + sum_deltas(
                #[trigger] ds.drop_last().take(i),
            ) >= 0 by {
                assert(ds.drop_last().take(i) =~= ds.take(i));
            }
            assert(ds.take(ds.len() as int) =~= ds);
            assert(ds.take(ds.len() - 1) =~= ds.drop_last());
        }
    }
}

/// The blob catalogue after a removal pass holds exactly the files the
/// pass did not name, unchanged.
pub proof fn lemma_remove_blobs_dom(b: Map<Seq<char>, u64>, names: Seq<Seq<char>>)
    ensures
        forall|k: Seq<char>|
            #![trigger remove_blobs(b, names).0.contains_key(k)]
            remove_blobs(b, names).0.contains_key(k) == (b.contains_key(k) && !names.contains(
                k,
            )),
        forall|k: Seq<char>|
            #![trigger remove_blobs(b, names).0[k]]
            remove_blobs(b, names).0.contains_key(k) ==> remove_blobs(b, names).0[k] == b[k],
    decreases names.len(),
{
    if names.len() > 0 {
        lemma_remove_blobs_dom(b, names.drop_last());
        let prev = remove_blobs(b, names.drop_last());
        let res = remove_blobs(b, names);
        assert forall|k: Seq<char>|
            res.0.contains_key(k) == (b.contains_key(k) && !names.contains(k)) by {
            if names.contains(k) {
                let i = choose|i: int| 0 <= i < names.len() && names[i] == k;
                if i < names.len() - 1 {
                    assert(names.drop_last()[i] == k);
                    assert(names.drop_last().contains(k));
                    assert(!prev.0.contains_key(k));
                } else {
                    assert(k == names.last());
                }
            } else {
                assert(!names.drop_last().contains(k)) by {
                    if names.drop_last().contains(k) {
                        let i = choose|i: int|
                            0 <= i < names.drop_last().len() && names.drop_last()[i] == k;
                        assert(names[i] == k);
                    }
                }
                assert(k != names.last()) by {
                    if k == names.last() {
                        assert(names[names.len() - 1] == k);
                    }
                }
            }
        }
        assert forall|k: Seq<char>|
            res.0.contains_key(k) implies res.0[k] == b[k] by {
            assert(prev.0.contains_key(k));
        }
    } else {
        assert forall|k: Seq<char>| !names.contains(k) by {
            if names.contains(k) {
                let i = choose|i: int| 0 <= i < names.len() && names[i] == k;
            }
        }
    }
}

/// Removing files that are already gone frees nothing and changes
/// nothing.
pub proof fn lemma_remove_blobs_absent(b: Map<Seq<char>, u64>, names: Seq<Seq<char>>)
    requires
        forall|j: int| 0 <= j < names.len() ==> !b.contains_key(#[trigger] names[j]),
    ensures
        remove_blobs(b, names) == (b, 0u64),
    decreases names.len(),
{
    if names.len() > 0 {
        lemma_remove_blobs_absent(b, names.drop_last());
        assert(!b.contains_key(names.last())) by {
            assert(names[names.len() - 1] == names.last());
        }
    }
}

/// Idempotent blob deletion: deleting the same media identifier twice
/// frees bytes only the first time; the second pass finds every file
/// already gone, frees zero bytes, and is no error.
pub proof fn lemma_idempotent_blob_delete(b: Map<Seq<char>, u64>, names: Seq<Seq<char>>)
    ensures
        remove_blobs(remove_blobs(b, names).0, names) == (remove_blobs(b, names).0, 0u64),
{
    let first = remove_blobs(b, names);
    lemma_remove_blobs_dom(b, names);
    assert forall|j: int| 0 <= j < names.len() implies !first.0.contains_key(
        #[trigger] names[j],
    ) by {
        assert(names.contains(names[j]));
    }
    lemma_remove_blobs_absent(first.0, names);
}

/// Grace enforcement: across one reclamation pass, any candidate that
/// left the queue had no pending confirmation and had outlived its grace
/// period; one whose `enqueued_ts + grace_period` lies beyond `now` is
/// still queued afterwards.
pub proof fn lemma_grace_enforcement(
    old_q: Map<Seq<char>, CandView>,
    new_q: Map<Seq<char>, CandView>,
    due: Seq<String>,
    grace: u64,
    now: u64,
)
    requires
        new_q == old_q.remove_keys(key_view_set(due)),
        forall|j: int| #![trigger due[j]]
            0 <= j < due.len() ==> old_q.contains_key(due[j]@) && Retention::sweep_due(
                old_q[due[j]@],
                grace,
                now,
            ),
    ensures
        forall|k: Seq<char>| #[trigger]
            old_q.contains_key(k) && !new_q.contains_key(k)
                ==> !old_q[k].awaiting_confirmation && old_q[k].enqueued_ts + grace <= now,
        forall|k: Seq<char>| #[trigger]
            old_q.contains_key(k) && old_q[k].enqueued_ts + grace > now ==> new_q.contains_key(
                k,
            ) && new_q[k] == old_q[k],
{
    assert forall|k: Seq<char>| #[trigger]
        old_q.contains_key(k) && !new_q.contains_key(k)
            implies !old_q[k].awaiting_confirmation && old_q[k].enqueued_ts + grace <= now by {
        assert(key_view_set(due).contains(k));
        let m = due.map_values(|x: String| x@);
        let j = choose|j: int| 0 <= j < m.len() && m[j] == k;
        assert(due[j]@ == k);
    }
}

/// A media identifier has at most one live deletion candidate: the queue
/// is keyed by the identifier itself, so two distinct queue entries name
/// two distinct identifiers.
pub proof fn lemma_single_candidate_per_media(r: &Retention, k1: Seq<char>, k2: Seq<char>)
    requires
        r.wf(),
        r.queue_map().contains_key(k1),
        r.queue_map().contains_key(k2),
        r.queue_map()[k1].mxc == r.queue_map()[k2].mxc,
    ensures
        k1 == k2,
{
    r.lemma_single_candidate();
}

/// The uploads of a user that an encrypted event at the given time would
/// be handed.
pub open spec fn window_filter(
    rows: Seq<crate::records::PendingView>,
    event_ts: u64,
) -> Seq<crate::records::PendingView> {
    rows.filter(
        |p: crate::records::PendingView| crate::engine::in_pending_window(
            p.upload_ts,
            event_ts,
        ),
    )
}

/// The pending window: an upload is handed to an encrypted event exactly
/// when it fell inside the sixty-second window before the event.
pub proof fn lemma_pending_window(rows: Seq<crate::records::PendingView>, event_ts: u64)
    ensures
        forall|i: int|
            0 <= i < rows.len() && crate::engine::in_pending_window(
                (#[trigger] rows[i]).upload_ts,
                event_ts,
            ) ==> window_filter(rows, event_ts).contains(rows[i]),
        forall|j: int|
            0 <= j < window_filter(rows, event_ts).len() ==> crate::engine::in_pending_window(
                (#[trigger] window_filter(rows, event_ts)[j]).upload_ts,
                event_ts,
            ),
{
    broadcast use vstd::seq_lib::group_filter_ensures;

    let pred = |p: crate::records::PendingView| crate::engine::in_pending_window(
        p.upload_ts,
        event_ts,
    );
    assert(rows.filter(pred).len() <= rows.len());
    assert forall|i: int|
        0 <= i < rows.len() && crate::engine::in_pending_window(
            (#[trigger] rows[i]).upload_ts,
            event_ts,
        ) implies window_filter(rows, event_ts).contains(rows[i]) by {
        assert(pred(rows[i]));
    }
    assert forall|j: int|
        0 <= j < window_filter(rows, event_ts).len() implies crate::engine::in_pending_window(
        (#[trigger] window_filter(rows, event_ts)[j]).upload_ts,
        event_ts,
    ) by {
        assert(pred(rows.filter(pred)[j]));
    }
}

} // verus!
