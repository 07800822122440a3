//! The retention engine: one value holding the retention index (media
//! references, event references, deletion queue, pending uploads,
//! preferences), the upload catalogue (storage keys, owners) and the blob
//! catalogue (file name to size), together with the configured policy.
//!
//! Callers outside the crate perform clock reads, event sends and real file
//! removal; every decision and every index mutation happens here, against
//! the map views the accessors expose.

use vstd::prelude::*;
use crate::kv::KvStore;
use crate::strutil::str_eq;
use vstd::string::StringExecFns;
use crate::records::{
    CandView, DeletionCandidate, MediaEventRef, MediaRef, MerView, PendingUpload,
    RetentionError, RetentionPolicy, UserRetentionPrefs, opt_view,
};

verus! {

/// A reference count raised by one, saturating at the top of its type.
pub open spec fn sat_bump(rc: int) -> int {
    if rc + 1 > i64::MAX {
        i64::MAX as int
    } else {
        rc + 1
    }
}

/// A reference record after one more event reference was seen.
pub open spec fn bump_mref(mr: MediaRef, now: u64) -> MediaRef {
    MediaRef {
        refcount: sat_bump(mr.refcount as int) as i64,
        local: mr.local,
        first_seen_ts: mr.first_seen_ts,
        last_seen_ts: now,
    }
}

/// The reference record a first event reference creates.
pub open spec fn fresh_mref(local: bool, now: u64) -> MediaRef {
    MediaRef { refcount: 1, local: local, first_seen_ts: now, last_seen_ts: now }
}

/// One reference applied to the reference table.
pub open spec fn apply_insert_ref(
    m: Map<Seq<char>, MediaRef>,
    mxc: Seq<char>,
    local: bool,
    now: u64,
) -> Map<Seq<char>, MediaRef> {
    if m.contains_key(mxc) {
        m.insert(mxc, bump_mref(m[mxc], now))
    } else {
        m.insert(mxc, fresh_mref(local, now))
    }
}

/// A reference list applied left to right; duplicates count double.
pub open spec fn apply_insert_refs(
    m: Map<Seq<char>, MediaRef>,
    refs: Seq<(String, bool, String)>,
    now: u64,
) -> Map<Seq<char>, MediaRef>
    decreases refs.len(),
{
    if refs.len() == 0 {
        m
    } else {
        apply_insert_ref(
            apply_insert_refs(m, refs.drop_last(), now),
            refs.last().0@,
            refs.last().1,
            now,
        )
    }
}

/// The abstract rows of a sequence of event references.
pub open spec fn mer_views(rows: Seq<MediaEventRef>) -> Seq<MerView> {
    rows.map_values(|r: MediaEventRef| r@)
}

/// A row stored for one reference of an event.
pub open spec fn mer_row_of(
    mxc: Seq<char>,
    kind: Seq<char>,
    room_id: Seq<char>,
    sender: Seq<char>,
) -> MerView {
    MerView { mxc: mxc, room_id: room_id, kind: kind, sender: Some(sender) }
}

/// A row written into an event's rows: it replaces the row of its kind, or
/// is appended when the kind is new.
pub open spec fn upsert_row(rows: Seq<MerView>, row: MerView) -> Seq<MerView>
    decreases rows.len(),
{
    if rows.len() == 0 {
        seq![row]
    } else if rows[0].kind == row.kind {
        seq![row] + rows.drop_first()
    } else {
        seq![rows[0]] + upsert_row(rows.drop_first(), row)
    }
}

/// The rows an event's reference list produces, one per distinct kind, the
/// later reference of a kind winning.
pub open spec fn rows_of_refs(
    refs: Seq<(String, bool, String)>,
    room_id: Seq<char>,
    sender: Seq<char>,
) -> Seq<MerView>
    decreases refs.len(),
{
    if refs.len() == 0 {
        Seq::empty()
    } else {
        upsert_row(
            rows_of_refs(refs.drop_last(), room_id, sender),
            mer_row_of(refs.last().0@, refs.last().2@, room_id, sender),
        )
    }
}

/// A reference count lowered by one, clamped at zero.
pub open spec fn dec_mref(mr: MediaRef, now: u64) -> MediaRef {
    MediaRef {
        refcount: if mr.refcount - 1 < 0 {
            0
        } else {
            (mr.refcount - 1) as i64
        },
        local: mr.local,
        first_seen_ts: mr.first_seen_ts,
        last_seen_ts: now,
    }
}

/// Whether a just-decremented reference record is queued for deletion.
pub open spec fn should_queue(policy: RetentionPolicy, mr: MediaRef) -> bool {
    match policy {
        RetentionPolicy::Keep => false,
        RetentionPolicy::AskSender => mr.refcount == 0,
        RetentionPolicy::DeleteAlways => mr.local,
    }
}

/// One event row applied to the reference table on redaction: the count is
/// lowered when the record exists, and the row is reported as a deletion
/// candidate when the policy asks for it.
pub open spec fn apply_dec_row(
    m: Map<Seq<char>, MediaRef>,
    row: MerView,
    now: u64,
    policy: RetentionPolicy,
) -> (Map<Seq<char>, MediaRef>, Option<MerView>) {
    if m.contains_key(row.mxc) {
        let mr2 = dec_mref(m[row.mxc], now);
        (
            m.insert(row.mxc, mr2),
            if should_queue(policy, mr2) {
                Some(row)
            } else {
                None
            },
        )
    } else {
        (m, None)
    }
}

/// An event's rows applied left to right on redaction, gathering the
/// reported candidates in row order.
pub open spec fn apply_dec_rows(
    m: Map<Seq<char>, MediaRef>,
    rows: Seq<MerView>,
    now: u64,
    policy: RetentionPolicy,
) -> (Map<Seq<char>, MediaRef>, Seq<MerView>)
    decreases rows.len(),
{
    if rows.len() == 0 {
        (m, Seq::empty())
    } else {
        let prev = apply_dec_rows(m, rows.drop_last(), now, policy);
        let step = apply_dec_row(prev.0, rows.last(), now, policy);
        (
            step.0,
            match step.1 {
                Some(r) => prev.1.push(r),
                None => prev.1,
            },
        )
    }
}

/// The characters of a list of released references.
pub open spec fn triple_views(s: Seq<(String, String, Option<String>)>) -> Seq<
    (Seq<char>, Seq<char>, Option<Seq<char>>),
> {
    s.map_values(|t: (String, String, Option<String>)| (t.0@, t.1@, opt_view(t.2)))
}

/// The matching window: an upload is attributed to an encrypted event when
/// it happened at most sixty seconds before it, and not after it.
pub open spec fn in_pending_window(upload_ts: u64, event_ts: u64) -> bool {
    upload_ts <= event_ts && event_ts - 60000 <= upload_ts
}

/// The abstract rows of a user's pending uploads.
pub open spec fn pending_views(rows: Seq<PendingUpload>) -> Seq<crate::records::PendingView> {
    rows.map_values(|p: PendingUpload| p@)
}

/// A pending upload written into a user's rows: it replaces the row of its
/// timestamp, or is appended when the timestamp is new.
pub open spec fn upsert_pending(
    rows: Seq<crate::records::PendingView>,
    p: crate::records::PendingView,
) -> Seq<crate::records::PendingView>
    decreases rows.len(),
{
    if rows.len() == 0 {
        seq![p]
    } else if rows[0].upload_ts == p.upload_ts {
        seq![p] + rows.drop_first()
    } else {
        seq![rows[0]] + upsert_pending(rows.drop_first(), p)
    }
}


/// Saturating addition of byte counts.
pub open spec fn sat_add_u64(a: u64, b: u64) -> u64 {
    if a + b > u64::MAX {
        u64::MAX
    } else {
        (a + b) as u64
    }
}

/// The file names, hashed then legacy, of a list of storage keys.
pub open spec fn blob_names_of(keys: Seq<String>) -> Seq<Seq<char>>
    decreases keys.len(),
{
    if keys.len() == 0 {
        Seq::empty()
    } else {
        blob_names_of(keys.drop_last()) + seq![
            crate::hash::hashed_file_name(keys.last()@),
            crate::hash::legacy_file_name(keys.last()@),
        ]
    }
}

/// Removes the named files from the blob catalogue, left to right, summing
/// the sizes of those that were present; a missing file frees nothing and
/// is no error.
pub open spec fn remove_blobs(b: Map<Seq<char>, u64>, names: Seq<Seq<char>>) -> (
    Map<Seq<char>, u64>,
    u64,
)
    decreases names.len(),
{
    if names.len() == 0 {
        (b, 0)
    } else {
        let prev = remove_blobs(b, names.drop_last());
        let n = names.last();
        if prev.0.contains_key(n) {
            (prev.0.remove(n), sat_add_u64(prev.1, prev.0[n]))
        } else {
            prev
        }
    }
}


/// The characters of a list of strings.
pub open spec fn string_views(s: Seq<String>) -> Seq<Seq<char>> {
    s.map_values(|x: String| x@)
}

/// The set of characters-views of a list of strings.
pub open spec fn key_view_set(s: Seq<String>) -> Set<Seq<char>> {
    string_views(s).to_set()
}

/// One reclamation pass folded over the due identifiers, left to right:
/// each one's files leave the blob catalogue and the freed bytes add up,
/// saturating.
pub open spec fn sweep_fold(
    b: Map<Seq<char>, u64>,
    km: Map<Seq<char>, Seq<String>>,
    due: Seq<Seq<char>>,
) -> (Map<Seq<char>, u64>, u64)
    decreases due.len(),
{
    if due.len() == 0 {
        (b, 0)
    } else {
        let prev = sweep_fold(b, km, due.drop_last());
        let keys = if km.contains_key(due.last()) {
            km[due.last()]
        } else {
            Seq::empty()
        };
        let rem = remove_blobs(prev.0, blob_names_of(keys));
        (rem.0, sat_add_u64(prev.1, rem.1))
    }
}

/// Copies a list of storage keys.
fn clone_string_vec(v: &Vec<String>) -> (r: Vec<String>)
    ensures
        r@ == v@,
{
    let mut r: Vec<String> = Vec::new();
    let n = v.len();
    let mut i: usize = 0;
    while i < n
        invariant
            n == v@.len(),
            0 <= i <= n,
            r@ == v@.take(i as int),
        decreases n - i,
    {
        r.push(v[i].clone());
        proof {
            assert(r@ =~= v@.take(i + 1));
        }
        i += 1;
    }
    proof {
        assert(v@.take(n as int) =~= v@);
    }
    r
}

proof fn lemma_filter_pending_distinct(
    s: Seq<crate::records::PendingView>,
    f: spec_fn(crate::records::PendingView) -> bool,
)
    requires
        forall|j: int, l: int| 0 <= j < l < s.len() ==> s[j].upload_ts != s[l].upload_ts,
    ensures
        forall|j: int, l: int|
            0 <= j < l < s.filter(f).len() ==> s.filter(f)[j].upload_ts != s.filter(
                f,
            )[l].upload_ts,
        forall|j: int| 0 <= j < s.filter(f).len() ==> s.contains(#[trigger] s.filter(f)[j]),
    decreases s.len(),
{
    reveal(Seq::filter);
    if s.len() > 0 {
        let d = s.drop_last();
        assert(forall|j: int, l: int|
            0 <= j < l < d.len() ==> d[j].upload_ts != d[l].upload_ts) by {
            assert(forall|j: int| 0 <= j < d.len() ==> d[j] == s[j]);
        }
        lemma_filter_pending_distinct(d, f);
        assert(forall|j: int| 0 <= j < d.filter(f).len() ==> d.contains(
            #[trigger] d.filter(f)[j],
        ));
        assert(forall|j: int| 0 <= j < d.len() ==> s.contains(#[trigger] d[j])) by {
            assert(forall|j: int| 0 <= j < d.len() ==> d[j] == s[j]);
        }
        if f(s.last()) {
            assert(s.filter(f) == d.filter(f).push(s.last()));
            assert forall|j: int, l: int|
                0 <= j < l < s.filter(f).len() implies s.filter(f)[j].upload_ts != s.filter(
                f,
            )[l].upload_ts by {
                if l == s.filter(f).len() - 1 {
                    let e = s.filter(f)[j];
                    assert(d.contains(e));
                    let m = choose|m: int| 0 <= m < d.len() && d[m] == e;
                    assert(s[m] == e);
                    assert(s.last() == s[s.len() - 1]);
                }
            }
            assert(s.contains(s.last()));
        } else {
            assert(s.filter(f) == d.filter(f));
        }
    }
}

proof fn lemma_upsert_pending_replace(
    s: Seq<crate::records::PendingView>,
    p: crate::records::PendingView,
    i: int,
)
    requires
        0 <= i < s.len(),
        s[i].upload_ts == p.upload_ts,
        forall|j: int| 0 <= j < i ==> s[j].upload_ts != p.upload_ts,
    ensures
        upsert_pending(s, p) =~= s.update(i, p),
    decreases s.len(),
{
    if i == 0 {
        assert(seq![p] + s.drop_first() =~= s.update(0, p));
    } else {
        assert(forall|j: int|
            0 <= j < i - 1 ==> s.drop_first()[j].upload_ts != p.upload_ts) by {
            assert(forall|j: int| 0 <= j < i - 1 ==> s.drop_first()[j] == s[j + 1]);
        }
        assert(s.drop_first()[i - 1] == s[i]);
        lemma_upsert_pending_replace(s.drop_first(), p, i - 1);
        assert(seq![s[0]] + s.drop_first().update(i - 1, p) =~= s.update(i, p));
    }
}

proof fn lemma_upsert_pending_append(
    s: Seq<crate::records::PendingView>,
    p: crate::records::PendingView,
)
    requires
        forall|j: int| 0 <= j < s.len() ==> s[j].upload_ts != p.upload_ts,
    ensures
        upsert_pending(s, p) =~= s.push(p),
    decreases s.len(),
{
    if s.len() > 0 {
        assert(forall|j: int|
            0 <= j < s.len() - 1 ==> s.drop_first()[j].upload_ts != p.upload_ts) by {
            assert(forall|j: int| 0 <= j < s.len() - 1 ==> s.drop_first()[j] == s[j + 1]);
        }
        lemma_upsert_pending_append(s.drop_first(), p);
        assert(seq![s[0]] + s.drop_first().push(p) =~= s.push(p));
    }
}

proof fn lemma_upsert_replace(s: Seq<MerView>, row: MerView, i: int)
    requires
        0 <= i < s.len(),
        s[i].kind == row.kind,
        forall|j: int| 0 <= j < i ==> s[j].kind != row.kind,
    ensures
        upsert_row(s, row) =~= s.update(i, row),
    decreases s.len(),
{
    if i == 0 {
        assert(seq![row] + s.drop_first() =~= s.update(0, row));
    } else {
        assert(forall|j: int|
            0 <= j < i - 1 ==> s.drop_first()[j].kind != row.kind) by {
            assert(forall|j: int| 0 <= j < i - 1 ==> s.drop_first()[j] == s[j + 1]);
        }
        assert(s.drop_first()[i - 1] == s[i]);
        lemma_upsert_replace(s.drop_first(), row, i - 1);
        assert(seq![s[0]] + s.drop_first().update(i - 1, row) =~= s.update(i, row));
    }
}

proof fn lemma_upsert_append(s: Seq<MerView>, row: MerView)
    requires
        forall|j: int| 0 <= j < s.len() ==> s[j].kind != row.kind,
    ensures
        upsert_row(s, row) =~= s.push(row),
    decreases s.len(),
{
    if s.len() > 0 {
        assert(forall|j: int|
            0 <= j < s.len() - 1 ==> s.drop_first()[j].kind != row.kind) by {
            assert(forall|j: int| 0 <= j < s.len() - 1 ==> s.drop_first()[j] == s[j + 1]);
        }
        lemma_upsert_append(s.drop_first(), row);
        assert(seq![s[0]] + s.drop_first().push(row) =~= s.push(row));
    }
}


/// Writes one row into an event's rows, replacing the row of its kind.
fn upsert_mer(rows: &mut Vec<MediaEventRef>, row: MediaEventRef)
    requires
        Retention::rows_wf(old(rows)@),
    ensures
        Retention::rows_wf(final(rows)@),
        mer_views(final(rows)@) == upsert_row(mer_views(old(rows)@), row@),
{
    let n = rows.len();
    let mut i: usize = 0;
    while i < n
        invariant
            *rows == *old(rows),
            Retention::rows_wf(rows@),
            n == rows@.len(),
            0 <= i <= n,
            forall|j: int| 0 <= j < i ==> rows@[j]@.kind != row@.kind,
        decreases n - i,
    {
        if str_eq(rows[i].kind.as_str(), row.kind.as_str()) {
            proof {
                lemma_upsert_replace(mer_views(rows@), row@, i as int);
            }
            rows.set(i, row);
            assert(mer_views(rows@) =~= mer_views(old(rows)@).update(i as int, row@));
            assert(Retention::rows_wf(rows@)) by {
                assert(forall|j: int|
                    0 <= j < rows@.len() && j != i ==> rows@[j] == old(rows)@[j]);
            }
            return;
        }
        i += 1;
    }
    proof {
        lemma_upsert_append(mer_views(rows@), row@);
    }
    rows.push(row);
    assert(mer_views(rows@) =~= mer_views(old(rows)@).push(row@));
    assert(Retention::rows_wf(rows@)) by {
        assert(forall|j: int| 0 <= j < rows@.len() - 1 ==> rows@[j] == old(rows)@[j]);
    }
}


/// The map of a user's stored flags, or both off when absent.
pub open spec fn prefs_or_default(m: Map<Seq<char>, UserRetentionPrefs>, user: Seq<char>) -> UserRetentionPrefs {
    if m.contains_key(user) {
        m[user]
    } else {
        UserRetentionPrefs { auto_delete_unencrypted: false, auto_delete_encrypted: false }
    }
}

/// What a confirmed deletion does: rejection on a missing candidate, a
/// foreign or unknown owner, a candidate no longer awaiting confirmation,
/// or a malformed identifier, each leaving the state untouched; otherwise
/// the delete subroutine runs and the cancel reaction comes back.
pub open spec fn confirm_transition(
    pre: Retention,
    post: Retention,
    mxc: Seq<char>,
    requester: Seq<char>,
    r: Result<(u64, Option<String>), RetentionError>,
) -> bool {
    &&& !pre.queue_map().contains_key(mxc) ==> r == Err::<(u64, Option<String>), RetentionError>(
        RetentionError::NotFound,
    ) && post == pre
    &&& pre.queue_map().contains_key(mxc) && (pre.queue_map()[mxc].user_id is None || pre.queue_map()[mxc].user_id != Some(requester)) ==> r == Err::<(u64, Option<String>), RetentionError>(
        RetentionError::Forbidden,
    ) && post == pre
    &&& pre.queue_map().contains_key(mxc) && pre.queue_map()[mxc].user_id == Some(requester) && !pre.queue_map()[mxc].awaiting_confirmation ==> r == Err::<(u64, Option<String>), RetentionError>(
        RetentionError::AlreadyProcessed,
    ) && post == pre
    &&& pre.queue_map().contains_key(mxc) && pre.queue_map()[mxc].user_id == Some(requester) && pre.queue_map()[mxc].awaiting_confirmation && !crate::mxc::is_valid_mxc(mxc) ==> r == Err::<(u64, Option<String>), RetentionError>(
        RetentionError::BadRequest,
    ) && post == pre
    &&& pre.queue_map().contains_key(mxc) && pre.queue_map()[mxc].user_id == Some(requester) && pre.queue_map()[mxc].awaiting_confirmation && crate::mxc::is_valid_mxc(mxc) ==> ({
        let keys = if pre.media_key_map().contains_key(mxc) {
            pre.media_key_map()[mxc]
        } else {
            Seq::empty()
        };
        let removed = remove_blobs(pre.blob_map(), blob_names_of(keys));
        &&& r matches Ok(out) && out.0 == removed.1 && opt_view(out.1) == pre.queue_map()[mxc].cancel_reaction_id
        &&& post.blob_map() == removed.0
        &&& post.queue_map() == pre.queue_map().remove(mxc)
        &&& post.mref_map() == pre.mref_map().remove(mxc)
        &&& post.mer_map() == pre.mer_map()
        &&& post.pending_map() == pre.pending_map()
        &&& post.prefs_map() == pre.prefs_map()
        &&& post.owner_map() == pre.owner_map()
        &&& post.media_key_map() == pre.media_key_map()
    })
    &&& post.same_config(&pre)
    &&& post.wf()
}

/// What a cancelled deletion does: the same rejections as confirmation,
/// except that an already-processed candidate may still be cancelled;
/// otherwise only the candidate row leaves and the confirm reaction comes
/// back.
pub open spec fn cancel_transition(
    pre: Retention,
    post: Retention,
    mxc: Seq<char>,
    requester: Seq<char>,
    r: Result<Option<String>, RetentionError>,
) -> bool {
    &&& !pre.queue_map().contains_key(mxc) ==> r == Err::<Option<String>, RetentionError>(
        RetentionError::NotFound,
    ) && post == pre
    &&& pre.queue_map().contains_key(mxc) && (pre.queue_map()[mxc].user_id is None || pre.queue_map()[mxc].user_id != Some(requester)) ==> r == Err::<Option<String>, RetentionError>(
        RetentionError::Forbidden,
    ) && post == pre
    &&& pre.queue_map().contains_key(mxc) && pre.queue_map()[mxc].user_id == Some(requester) ==> ({
        &&& r matches Ok(out) && opt_view(out) == pre.queue_map()[mxc].confirm_reaction_id
        &&& post.queue_map() == pre.queue_map().remove(mxc)
        &&& post.mref_map() == pre.mref_map()
        &&& post.mer_map() == pre.mer_map()
        &&& post.pending_map() == pre.pending_map()
        &&& post.prefs_map() == pre.prefs_map()
        &&& post.owner_map() == pre.owner_map()
        &&& post.media_key_map() == pre.media_key_map()
        &&& post.blob_map() == pre.blob_map()
    })
    &&& post.same_config(&pre)
    &&& post.wf()
}

/// What enabling auto-delete through a candidate does: the owner checks of
/// cancellation; then the flag matching the candidate's room class is
/// stored, and the delete subroutine runs, handing back both unused
/// reactions; on a malformed identifier the flag is stored but nothing is
/// deleted.
pub open spec fn auto_transition(
    pre: Retention,
    post: Retention,
    mxc: Seq<char>,
    requester: Seq<char>,
    r: Result<(u64, Option<String>, Option<String>, bool), RetentionError>,
) -> bool {
    &&& !pre.queue_map().contains_key(mxc) ==> r == Err::<
        (u64, Option<String>, Option<String>, bool),
        RetentionError,
    >(RetentionError::NotFound) && post == pre
    &&& pre.queue_map().contains_key(mxc) && (pre.queue_map()[mxc].user_id is None || pre.queue_map()[mxc].user_id != Some(requester)) ==> r == Err::<
        (u64, Option<String>, Option<String>, bool),
        RetentionError,
    >(RetentionError::Forbidden) && post == pre
    &&& pre.queue_map().contains_key(mxc) && pre.queue_map()[mxc].user_id == Some(requester) ==> ({
        let cand = pre.queue_map()[mxc];
        let prefs0 = prefs_or_default(pre.prefs_map(), requester);
        let prefs1 = if cand.from_encrypted_room {
            UserRetentionPrefs {
                auto_delete_unencrypted: prefs0.auto_delete_unencrypted,
                auto_delete_encrypted: true,
            }
        } else {
            UserRetentionPrefs {
                auto_delete_unencrypted: true,
                auto_delete_encrypted: prefs0.auto_delete_encrypted,
            }
        };
        &&& post.prefs_map() == pre.prefs_map().insert(requester, prefs1)
        &&& !crate::mxc::is_valid_mxc(mxc) ==> r == Err::<
            (u64, Option<String>, Option<String>, bool),
            RetentionError,
        >(RetentionError::BadRequest) && post.queue_map() == pre.queue_map() && post.mref_map() == pre.mref_map() && post.blob_map() == pre.blob_map()
        &&& crate::mxc::is_valid_mxc(mxc) ==> ({
            let keys = if pre.media_key_map().contains_key(mxc) {
                pre.media_key_map()[mxc]
            } else {
                Seq::empty()
            };
            let removed = remove_blobs(pre.blob_map(), blob_names_of(keys));
            &&& r matches Ok(out) && out.0 == removed.1 && opt_view(out.1) == cand.confirm_reaction_id && opt_view(out.2) == cand.cancel_reaction_id && out.3 == cand.from_encrypted_room
            &&& post.blob_map() == removed.0
            &&& post.queue_map() == pre.queue_map().remove(mxc)
            &&& post.mref_map() == pre.mref_map().remove(mxc)
        })
        &&& post.mer_map() == pre.mer_map()
        &&& post.pending_map() == pre.pending_map()
        &&& post.owner_map() == pre.owner_map()
        &&& post.media_key_map() == pre.media_key_map()
    })
    &&& post.same_config(&pre)
    &&& post.wf()
}

/// The engine.  See the module documentation.
pub struct Retention {
    policy: RetentionPolicy,
    grace_period_secs: u64,
    server_name: String,
    compat_file_link: bool,
    mrefs: KvStore<MediaRef>,
    mers: KvStore<Vec<MediaEventRef>>,
    queue: KvStore<DeletionCandidate>,
    pending: KvStore<Vec<PendingUpload>>,
    prefs: KvStore<UserRetentionPrefs>,
    owners: KvStore<String>,
    media_keys: KvStore<Vec<String>>,
    blobs: KvStore<u64>,
}

impl Retention {
    /// The configured policy.
    pub closed spec fn policy_spec(&self) -> RetentionPolicy {
        self.policy
    }

    /// The configured grace period, in seconds.
    pub closed spec fn grace_spec(&self) -> u64 {
        self.grace_period_secs
    }

    /// The name of this server.
    pub closed spec fn server_name_spec(&self) -> Seq<char> {
        self.server_name@
    }

    /// Whether blobs also carry a legacy-named link.
    pub closed spec fn compat_link_spec(&self) -> bool {
        self.compat_file_link
    }

    /// Media identifier to its reference record.
    pub closed spec fn mref_map(&self) -> Map<Seq<char>, MediaRef> {
        self.mrefs@
    }

    /// Event identifier to the references the event contributed.
    pub closed spec fn mer_map(&self) -> Map<Seq<char>, Seq<MerView>> {
        self.mers@.map_values(|rows: Seq<MediaEventRef>| mer_views(rows))
    }

    /// Media identifier to its deletion candidate.
    pub closed spec fn queue_map(&self) -> Map<Seq<char>, CandView> {
        self.queue@
    }

    /// How many candidates the queue holds.
    pub closed spec fn queue_len_spec(&self) -> nat {
        self.queue.num_entries()
    }

    /// The candidate at a queue position.
    pub closed spec fn queue_at_spec(&self, i: int) -> CandView {
        self.queue.val_at_spec(i)
    }

    /// User to their pending uploads.
    pub closed spec fn pending_map(&self) -> Map<Seq<char>, Seq<crate::records::PendingView>> {
        self.pending@.map_values(|rows: Seq<PendingUpload>| pending_views(rows))
    }

    /// The pending uploads of one user; the empty sequence when none are
    /// recorded.
    pub open spec fn pending_of(&self, user: Seq<char>) -> Seq<crate::records::PendingView> {
        if self.pending_map().contains_key(user) {
            self.pending_map()[user]
        } else {
            Seq::empty()
        }
    }

    /// The configuration of two engine states agrees.
    pub open spec fn same_config(&self, other: &Retention) -> bool {
        &&& self.policy_spec() == other.policy_spec()
        &&& self.grace_spec() == other.grace_spec()
        &&& self.server_name_spec() == other.server_name_spec()
        &&& self.compat_link_spec() == other.compat_link_spec()
    }

    /// User to their auto-delete flags.
    pub closed spec fn prefs_map(&self) -> Map<Seq<char>, UserRetentionPrefs> {
        self.prefs@
    }

    /// Media identifier to its uploader.
    pub closed spec fn owner_map(&self) -> Map<Seq<char>, Seq<char>> {
        self.owners@
    }

    /// Media identifier to the storage keys of its files.
    pub closed spec fn media_key_map(&self) -> Map<Seq<char>, Seq<String>> {
        self.media_keys@
    }

    /// Blob file name to its size in bytes.
    pub closed spec fn blob_map(&self) -> Map<Seq<char>, u64> {
        self.blobs@
    }

    /// Distinct reference kinds within one event's rows.
    pub open spec fn rows_wf(rows: Seq<MediaEventRef>) -> bool {
        forall|i: int, j: int| 0 <= i < j < rows.len() ==> rows[i]@.kind != rows[j]@.kind
    }

    /// Pending rows belong to their user and carry distinct timestamps.
    pub open spec fn pending_rows_wf(user: Seq<char>, rows: Seq<PendingUpload>) -> bool {
        &&& forall|i: int| 0 <= i < rows.len() ==> rows[i]@.user_id == user
        &&& forall|i: int, j: int|
            0 <= i < j < rows.len() ==> rows[i]@.upload_ts != rows[j]@.upload_ts
    }

    /// Well-formedness: unique keys everywhere, every queued candidate filed
    /// under its own media identifier, event rows with distinct kinds, and
    /// pending rows owned by their key.
    pub closed spec fn wf(&self) -> bool {
        &&& self.mrefs.wf()
        &&& self.mers.wf()
        &&& self.queue.wf()
        &&& self.pending.wf()
        &&& self.prefs.wf()
        &&& self.owners.wf()
        &&& self.media_keys.wf()
        &&& self.blobs.wf()
        &&& forall|k: Seq<char>| #[trigger]
            self.queue@.contains_key(k) ==> self.queue@[k].mxc == k
        &&& forall|k: Seq<char>| #[trigger]
            self.mers@.contains_key(k) ==> Self::rows_wf(self.mers@[k])
        &&& forall|k: Seq<char>| #[trigger]
            self.pending@.contains_key(k) ==> Self::pending_rows_wf(k, self.pending@[k])
    }

    /// Every queued candidate is filed under its own media identifier, so a
    /// media identifier has at most one live candidate.
    pub proof fn lemma_single_candidate(&self)
        requires
            self.wf(),
        ensures
            forall|k: Seq<char>| #[trigger]
                self.queue_map().contains_key(k) ==> self.queue_map()[k].mxc == k,
    {
    }

    /// A fresh engine with the given configuration and empty stores.
    pub fn new(
        policy: RetentionPolicy,
        grace_period_secs: u64,
        server_name: String,
        compat_file_link: bool,
    ) -> (r: Self)
        ensures
            r.wf(),
            r.policy_spec() == policy,
            r.grace_spec() == grace_period_secs,
            r.server_name_spec() == server_name@,
            r.compat_link_spec() == compat_file_link,
            r.mref_map() == Map::<Seq<char>, MediaRef>::empty(),
            r.mer_map() == Map::<Seq<char>, Seq<MerView>>::empty(),
            r.queue_map() == Map::<Seq<char>, CandView>::empty(),
            r.pending_map() == Map::<Seq<char>, Seq<crate::records::PendingView>>::empty(),
            r.prefs_map() == Map::<Seq<char>, UserRetentionPrefs>::empty(),
            r.owner_map() == Map::<Seq<char>, Seq<char>>::empty(),
            r.media_key_map() == Map::<Seq<char>, Seq<String>>::empty(),
            r.blob_map() == Map::<Seq<char>, u64>::empty(),
    {
        Retention {
            policy,
            grace_period_secs,
            server_name,
            compat_file_link,
            mrefs: KvStore::new(),
            mers: KvStore::new(),
            queue: KvStore::new(),
            pending: KvStore::new(),
            prefs: KvStore::new(),
            owners: KvStore::new(),
            media_keys: KvStore::new(),
            blobs: KvStore::new(),
        }
    }

    /// The configured policy.
    pub fn policy(&self) -> (r: RetentionPolicy)
        ensures
            r == self.policy_spec(),
    {
        self.policy
    }

    /// The configured grace period, in seconds.
    pub fn grace_period(&self) -> (r: u64)
        ensures
            r == self.grace_spec(),
    {
        self.grace_period_secs
    }

    /// The name of this server.
    pub fn server_name(&self) -> (r: &String)
        ensures
            r@ == self.server_name_spec(),
    {
        &self.server_name
    }

    /// The recorded uploader of a media identifier.
    pub fn get_media_owner(&self, mxc: &str) -> (r: Option<String>)
        requires
            self.wf(),
        ensures
            match r {
                Some(u) => self.owner_map().contains_key(mxc@) && u@ == self.owner_map()[mxc@],
                None => !self.owner_map().contains_key(mxc@),
            },
    {
        match self.owners.get(mxc) {
            Some(u) => Some(u.clone()),
            None => None,
        }
    }

    /// The auto-delete flags of a user; an absent record means both off.
    pub fn get_user_prefs(&self, user_id: &str) -> (r: UserRetentionPrefs)
        requires
            self.wf(),
        ensures
            self.prefs_map().contains_key(user_id@) ==> r == self.prefs_map()[user_id@],
            !self.prefs_map().contains_key(user_id@) ==> r == (UserRetentionPrefs {
                auto_delete_unencrypted: false,
                auto_delete_encrypted: false,
            }),
    {
        match self.prefs.get(user_id) {
            Some(p) => *p,
            None => UserRetentionPrefs {
                auto_delete_unencrypted: false,
                auto_delete_encrypted: false,
            },
        }
    }

    /// Stores the auto-delete flags of a user.
    pub fn set_user_prefs(&mut self, user_id: &str, prefs: &UserRetentionPrefs)
        requires
            old(self).wf(),
        ensures
            final(self).wf(),
            final(self).prefs_map() == old(self).prefs_map().insert(user_id@, *prefs),
            final(self).mref_map() == old(self).mref_map(),
            final(self).mer_map() == old(self).mer_map(),
            final(self).queue_map() == old(self).queue_map(),
            final(self).pending_map() == old(self).pending_map(),
            final(self).owner_map() == old(self).owner_map(),
            final(self).media_key_map() == old(self).media_key_map(),
            final(self).blob_map() == old(self).blob_map(),
            final(self).policy_spec() == old(self).policy_spec(),
            final(self).grace_spec() == old(self).grace_spec(),
            final(self).server_name_spec() == old(self).server_name_spec(),
            final(self).compat_link_spec() == old(self).compat_link_spec(),
    {
        self.prefs.insert(user_id.to_owned(), *prefs);
    }

    /// The reference record of a media identifier.
    pub fn get_media_ref(&self, mxc: &str) -> (r: Option<MediaRef>)
        requires
            self.wf(),
        ensures
            match r {
                Some(mr) => self.mref_map().contains_key(mxc@) && mr == self.mref_map()[mxc@],
                None => !self.mref_map().contains_key(mxc@),
            },
    {
        match self.mrefs.get(mxc) {
            Some(mr) => Some(*mr),
            None => None,
        }
    }

    /// Stores the reference record of a media identifier.
    pub fn put_media_ref(&mut self, mxc: &str, mr: &MediaRef)
        requires
            old(self).wf(),
        ensures
            final(self).wf(),
            final(self).mref_map() == old(self).mref_map().insert(mxc@, *mr),
            final(self).mer_map() == old(self).mer_map(),
            final(self).queue_map() == old(self).queue_map(),
            final(self).pending_map() == old(self).pending_map(),
            final(self).prefs_map() == old(self).prefs_map(),
            final(self).owner_map() == old(self).owner_map(),
            final(self).media_key_map() == old(self).media_key_map(),
            final(self).blob_map() == old(self).blob_map(),
            final(self).policy_spec() == old(self).policy_spec(),
            final(self).grace_spec() == old(self).grace_spec(),
            final(self).server_name_spec() == old(self).server_name_spec(),
            final(self).compat_link_spec() == old(self).compat_link_spec(),
    {
        self.mrefs.insert(mxc.to_owned(), *mr);
    }

    /// Queues a media identifier for deletion, overwriting any previous
    /// candidate and refreshing its timestamp.
    pub fn queue_media_for_deletion(
        &mut self,
        mxc: &str,
        owner: Option<&str>,
        awaiting_confirmation: bool,
        notification_event_id: Option<String>,
        confirm_reaction_id: Option<String>,
        cancel_reaction_id: Option<String>,
        auto_reaction_id: Option<String>,
        from_encrypted_room: bool,
        now_secs: u64,
    )
        requires
            old(self).wf(),
        ensures
            final(self).wf(),
            final(self).queue_map() == old(self).queue_map().insert(
                mxc@,
                CandView {
                    mxc: mxc@,
                    enqueued_ts: now_secs,
                    user_id: match owner {
                        Some(o) => Some(o@),
                        None => None,
                    },
                    awaiting_confirmation: awaiting_confirmation,
                    notification_event_id: opt_view(notification_event_id),
                    confirm_reaction_id: opt_view(confirm_reaction_id),
                    cancel_reaction_id: opt_view(cancel_reaction_id),
                    auto_reaction_id: opt_view(auto_reaction_id),
                    from_encrypted_room: from_encrypted_room,
                },
            ),
            final(self).mref_map() == old(self).mref_map(),
            final(self).mer_map() == old(self).mer_map(),
            final(self).pending_map() == old(self).pending_map(),
            final(self).prefs_map() == old(self).prefs_map(),
            final(self).owner_map() == old(self).owner_map(),
            final(self).media_key_map() == old(self).media_key_map(),
            final(self).blob_map() == old(self).blob_map(),
            final(self).policy_spec() == old(self).policy_spec(),
            final(self).grace_spec() == old(self).grace_spec(),
            final(self).server_name_spec() == old(self).server_name_spec(),
            final(self).compat_link_spec() == old(self).compat_link_spec(),
    {
        let cand = DeletionCandidate {
            mxc: mxc.to_owned(),
            enqueued_ts: now_secs,
            user_id: match owner {
                Some(o) => Some(o.to_owned()),
                None => None,
            },
            awaiting_confirmation,
            notification_event_id,
            confirm_reaction_id,
            cancel_reaction_id,
            auto_reaction_id,
            from_encrypted_room,
        };
        self.queue.insert(mxc.to_owned(), cand);
    }


    /// Records an upload that may belong to an upcoming encrypted message,
    /// keyed by its millisecond timestamp; an upload at an already-recorded
    /// timestamp replaces that record.
    pub fn track_pending_upload(&mut self, user_id: &str, mxc: &str, now_ms: u64)
        requires
            old(self).wf(),
        ensures
            final(self).wf(),
            final(self).pending_map() == old(self).pending_map().insert(
                user_id@,
                upsert_pending(
                    old(self).pending_of(user_id@),
                    crate::records::PendingView {
                        mxc: mxc@,
                        user_id: user_id@,
                        upload_ts: now_ms,
                    },
                ),
            ),
            final(self).mref_map() == old(self).mref_map(),
            final(self).mer_map() == old(self).mer_map(),
            final(self).queue_map() == old(self).queue_map(),
            final(self).prefs_map() == old(self).prefs_map(),
            final(self).owner_map() == old(self).owner_map(),
            final(self).media_key_map() == old(self).media_key_map(),
            final(self).blob_map() == old(self).blob_map(),
            final(self).same_config(old(self)),
    {
        let row = PendingUpload {
            mxc: mxc.to_owned(),
            user_id: user_id.to_owned(),
            upload_ts: now_ms,
        };
        let mut rows = match self.pending.remove(user_id) {
            Some(rows) => rows,
            None => Vec::new(),
        };
        let ghost rows0 = pending_views(rows@);
        let n = rows.len();
        let mut i: usize = 0;
        let mut replaced = false;
        while i < n && !replaced
            invariant
                n == rows@.len(),
                0 <= i <= n,
                pending_views(rows@) == if replaced {
                    upsert_pending(rows0, row@)
                } else {
                    rows0
                },
                Self::pending_rows_wf(user_id@, rows@),
                row@.user_id == user_id@,
                row@.upload_ts == now_ms,
                !replaced ==> forall|j: int| 0 <= j < i ==> rows@[j]@.upload_ts != now_ms,
            decreases n - i + (if replaced { 0int } else { 1int }),
        {
            if rows[i].upload_ts == now_ms {
                proof {
                    lemma_upsert_pending_replace(pending_views(rows@), row@, i as int);
                }
                let ghost before = rows@;
                rows.set(i, row.clone());
                proof {
                    assert(pending_views(rows@) =~= pending_views(before).update(
                        i as int,
                        row@,
                    ));
                    assert(forall|j: int|
                        0 <= j < rows@.len() && j != i ==> rows@[j] == before[j]);
                }
                replaced = true;
            } else {
                i += 1;
            }
        }
        if !replaced {
            proof {
                lemma_upsert_pending_append(pending_views(rows@), row@);
            }
            let ghost before = rows@;
            rows.push(row);
            proof {
                assert(pending_views(rows@) =~= pending_views(before).push(rows@.last()@));
                assert(forall|j: int| 0 <= j < rows@.len() - 1 ==> rows@[j] == before[j]);
            }
        }
        self.pending.insert(user_id.to_owned(), rows);
        proof {
            assert(final(self).pending_map() =~= old(self).pending_map().insert(
                user_id@,
                upsert_pending(old(self).pending_of(user_id@), row@),
            ));
        }
    }

    /// Hands out, as `(mxc, local, kind)` reference triples, every pending
    /// upload of the user that falls inside the matching window of the given
    /// encrypted event, and forgets both those and any older rows; an upload
    /// is matched exactly when `event_ts - 60000 <= upload_ts <= event_ts`.
    pub fn consume_pending_uploads(
        &mut self,
        user_id: &str,
        event_ts_ms: u64,
    ) -> (out: Vec<(String, bool, String)>)
        requires
            old(self).wf(),
        ensures
            final(self).wf(),
            ({
                let rows = old(self).pending_of(user_id@);
                let matched = rows.filter(
                    |p: crate::records::PendingView| in_pending_window(p.upload_ts, event_ts_ms),
                );
                &&& out@.len() == matched.len()
                &&& forall|i: int|
                    0 <= i < matched.len() ==> out@[i].0@ == matched[i].mxc && out@[i].1 == true
                        && out@[i].2@ == "encrypted.media"@
                &&& final(self).pending_map() == old(self).pending_map().insert(
                    user_id@,
                    rows.filter(|p: crate::records::PendingView| p.upload_ts > event_ts_ms),
                )
            }),
            final(self).mref_map() == old(self).mref_map(),
            final(self).mer_map() == old(self).mer_map(),
            final(self).queue_map() == old(self).queue_map(),
            final(self).prefs_map() == old(self).prefs_map(),
            final(self).owner_map() == old(self).owner_map(),
            final(self).media_key_map() == old(self).media_key_map(),
            final(self).blob_map() == old(self).blob_map(),
            final(self).same_config(old(self)),
    {
        let cutoff: u64 = if event_ts_ms >= 60000 {
            event_ts_ms - 60000
        } else {
            0
        };
        let rows = match self.pending.remove(user_id) {
            Some(rows) => rows,
            None => Vec::new(),
        };
        proof {
            assert(Self::pending_rows_wf(user_id@, rows@));
        }
        let ghost rows_v = pending_views(rows@);
        proof {
            assert(rows_v =~= old(self).pending_of(user_id@));
            assert(forall|m: int| 0 <= m < rows@.len() ==> rows_v[m] == (#[trigger] rows@[m])@);
        }
        let ghost win = |p: crate::records::PendingView| in_pending_window(p.upload_ts, event_ts_ms);
        let ghost keep = |p: crate::records::PendingView| p.upload_ts > event_ts_ms;
        let n = rows.len();
        let mut out: Vec<(String, bool, String)> = Vec::new();
        let mut kept: Vec<PendingUpload> = Vec::new();
        let mut i: usize = 0;
        while i < n
            invariant
                n == rows@.len(),
                rows_v == pending_views(rows@),
                win == (|p: crate::records::PendingView| in_pending_window(
                    p.upload_ts,
                    event_ts_ms,
                )),
                keep == (|p: crate::records::PendingView| p.upload_ts > event_ts_ms),
                cutoff == if event_ts_ms >= 60000 {
                    event_ts_ms - 60000
                } else {
                    0
                },
                Self::pending_rows_wf(user_id@, rows@),
                0 <= i <= n,
                ({
                    let matched = rows_v.take(i as int).filter(win);
                    out@.len() == matched.len() && forall|j: int|
                        0 <= j < matched.len() ==> out@[j].0@ == matched[j].mxc && out@[j].1
                            == true && out@[j].2@ == "encrypted.media"@
                }),
                pending_views(kept@) == rows_v.take(i as int).filter(keep),
            decreases n - i,
        {
            proof {
                reveal(Seq::filter);
                assert(rows_v.take(i + 1).drop_last() =~= rows_v.take(i as int));
                assert(rows_v.take(i + 1).last() == rows_v[i as int]);
                assert(rows_v.take(i + 1).filter(win) == if win(rows_v[i as int]) {
                    rows_v.take(i as int).filter(win).push(rows_v[i as int])
                } else {
                    rows_v.take(i as int).filter(win)
                });
                assert(rows_v.take(i + 1).filter(keep) == if keep(rows_v[i as int]) {
                    rows_v.take(i as int).filter(keep).push(rows_v[i as int])
                } else {
                    rows_v.take(i as int).filter(keep)
                });
            }
            let row = &rows[i];
            proof {
                assert(rows_v[i as int] == rows@[i as int]@);
                assert(rows_v[i as int].upload_ts == row.upload_ts);
            }
            if row.upload_ts >= cutoff && row.upload_ts <= event_ts_ms {
                proof {
                    assert(win(rows_v[i as int]));
                }
                let ghost out_before = out@;
                out.push((row.mxc.clone(), true, String::from_str("encrypted.media")));
                proof {
                    assert(forall|j: int|
                        0 <= j < out@.len() - 1 ==> out@[j] == out_before[j]);
                    assert(out@.last().0@ == rows_v[i as int].mxc);
                    assert(out@.last().1 == true);
                    assert(out@.last().2@ == "encrypted.media"@);
                }
            } else if row.upload_ts > event_ts_ms {
                proof {
                    assert(!win(rows_v[i as int]));
                    assert(keep(rows_v[i as int]));
                }
                let ghost kept_before = kept@;
                kept.push(row.clone());
                proof {
                    assert(pending_views(kept@) =~= pending_views(kept_before).push(row@));
                }
            }
            proof {
                let matched2 = rows_v.take(i + 1).filter(win);
                assert(out@.len() == matched2.len());
                assert forall|j: int|
                    0 <= j < matched2.len() implies out@[j].0@ == matched2[j].mxc && out@[j].1
                    == true && out@[j].2@ == "encrypted.media"@ by {
                    let prior = rows_v.take(i as int).filter(win);
                    if j < prior.len() {
                        assert(out@[j].0@ == prior[j].mxc && out@[j].1 == true && out@[j].2@
                            == "encrypted.media"@);
                        if matched2.len() > prior.len() {
                            assert(matched2 == prior.push(rows_v[i as int]));
                            assert(matched2[j] == prior[j]);
                        }
                    } else {
                        assert(matched2 == prior.push(rows_v[i as int]));
                        assert(matched2[j] == rows_v[i as int]);
                        assert(out@[j] == out@.last());
                    }
                }
            }
            i += 1;
        }
        proof {
            assert(rows_v.take(n as int) =~= rows_v);
            lemma_filter_pending_distinct(rows_v, keep);
            assert(pending_views(kept@) == rows_v.filter(keep));
            assert forall|j: int, l: int|
                0 <= j < l < kept@.len() implies kept@[j]@.upload_ts != kept@[l]@.upload_ts by {
                assert(kept@[j]@ == rows_v.filter(keep)[j]);
                assert(kept@[l]@ == rows_v.filter(keep)[l]);
            }
            assert forall|j: int| 0 <= j < kept@.len() implies kept@[j]@.user_id == user_id@ by {
                assert(kept@[j]@ == rows_v.filter(keep)[j]);
                assert(rows_v.contains(rows_v.filter(keep)[j]));
                let m = choose|m: int| 0 <= m < rows_v.len() && rows_v[m] == rows_v.filter(
                    keep,
                )[j];
                assert(rows_v[m] == rows@[m]@);
                assert(rows@[m]@.user_id == user_id@);
            }
            assert(Self::pending_rows_wf(user_id@, kept@));
        }
        self.pending.insert(user_id.to_owned(), kept);
        proof {
            assert(final(self).pending_map() =~= old(self).pending_map().insert(
                user_id@,
                rows_v.filter(keep),
            ));
        }
        out
    }

    /// Forgets every pending upload of the user older than the sixty-second
    /// window before the given time; newer rows stay.
    pub fn cleanup_old_pending_uploads(&mut self, user_id: &str, current_ts_ms: u64)
        requires
            old(self).wf(),
        ensures
            final(self).wf(),
            final(self).pending_map() == old(self).pending_map().insert(
                user_id@,
                old(self).pending_of(user_id@).filter(
                    |p: crate::records::PendingView| p.upload_ts + 60000 >= current_ts_ms,
                ),
            ),
            final(self).mref_map() == old(self).mref_map(),
            final(self).mer_map() == old(self).mer_map(),
            final(self).queue_map() == old(self).queue_map(),
            final(self).prefs_map() == old(self).prefs_map(),
            final(self).owner_map() == old(self).owner_map(),
            final(self).media_key_map() == old(self).media_key_map(),
            final(self).blob_map() == old(self).blob_map(),
            final(self).same_config(old(self)),
    {
        let rows = match self.pending.remove(user_id) {
            Some(rows) => rows,
            None => Vec::new(),
        };
        proof {
            assert(Self::pending_rows_wf(user_id@, rows@));
        }
        let ghost rows_v = pending_views(rows@);
        proof {
            assert(rows_v =~= old(self).pending_of(user_id@));
            assert(forall|m: int| 0 <= m < rows@.len() ==> rows_v[m] == (#[trigger] rows@[m])@);
        }
        let ghost keep = |p: crate::records::PendingView| p.upload_ts + 60000 >= current_ts_ms;
        let n = rows.len();
        let mut kept: Vec<PendingUpload> = Vec::new();
        let mut i: usize = 0;
        while i < n
            invariant
                n == rows@.len(),
                rows_v == pending_views(rows@),
                keep == (|p: crate::records::PendingView| p.upload_ts + 60000
                    >= current_ts_ms),
                Self::pending_rows_wf(user_id@, rows@),
                0 <= i <= n,
                pending_views(kept@) == rows_v.take(i as int).filter(keep),
            decreases n - i,
        {
            proof {
                reveal(Seq::filter);
                assert(rows_v.take(i + 1).drop_last() =~= rows_v.take(i as int));
                assert(rows_v.take(i + 1).last() == rows_v[i as int]);
            }
            let row = &rows[i];
            proof {
                assert(rows_v[i as int] == rows@[i as int]@);
            }
            let old_row = current_ts_ms >= 60000 && row.upload_ts < current_ts_ms - 60000;
            if !old_row {
                let ghost kept_before = kept@;
                kept.push(row.clone());
                proof {
                    assert(pending_views(kept@) =~= pending_views(kept_before).push(row@));
                }
            }
            i += 1;
        }
        proof {
            assert(rows_v.take(n as int) =~= rows_v);
            lemma_filter_pending_distinct(rows_v, keep);
            assert(pending_views(kept@) == rows_v.filter(keep));
            assert forall|j: int, l: int|
                0 <= j < l < kept@.len() implies kept@[j]@.upload_ts != kept@[l]@.upload_ts by {
                assert(kept@[j]@ == rows_v.filter(keep)[j]);
                assert(kept@[l]@ == rows_v.filter(keep)[l]);
            }
            assert forall|j: int| 0 <= j < kept@.len() implies kept@[j]@.user_id == user_id@ by {
                assert(kept@[j]@ == rows_v.filter(keep)[j]);
                assert(rows_v.contains(rows_v.filter(keep)[j]));
                let m = choose|m: int| 0 <= m < rows_v.len() && rows_v[m] == rows_v.filter(
                    keep,
                )[j];
                assert(rows_v[m] == rows@[m]@);
                assert(rows@[m]@.user_id == user_id@);
            }
            assert(Self::pending_rows_wf(user_id@, kept@));
        }
        self.pending.insert(user_id.to_owned(), kept);
        proof {
            assert(final(self).pending_map() =~= old(self).pending_map().insert(
                user_id@,
                rows_v.filter(keep),
            ));
        }
    }

    /// Registers an uploaded file: its storage key under its media
    /// identifier, its uploader as the owner when given, and its blob, under
    /// the hashed file name and, when the compatibility link is configured,
    /// the legacy name too, both of the given size.
    pub fn create(&mut self, mxc: &str, user: Option<&str>, storage_key: &str, size: u64)
        requires
            old(self).wf(),
        ensures
            final(self).wf(),
            final(self).media_key_map().contains_key(mxc@),
            ({
                let keys0 = if old(self).media_key_map().contains_key(mxc@) {
                    old(self).media_key_map()[mxc@]
                } else {
                    Seq::empty()
                };
                &&& final(self).media_key_map()[mxc@].len() == keys0.len() + 1
                &&& final(self).media_key_map()[mxc@].subrange(0, keys0.len() as int) == keys0
                &&& final(self).media_key_map()[mxc@].last()@ == storage_key@
                &&& forall|k: Seq<char>|
                    k != mxc@ ==> (final(self).media_key_map().contains_key(k) == old(self).media_key_map().contains_key(k) && (old(self).media_key_map().contains_key(
                        k,
                    ) ==> final(self).media_key_map()[k] == old(self).media_key_map()[k]))
            }),
            final(self).owner_map() == match user {
                Some(u) => old(self).owner_map().insert(mxc@, u@),
                None => old(self).owner_map(),
            },
            final(self).blob_map() == if old(self).compat_link_spec() {
                old(self).blob_map().insert(
                    crate::hash::hashed_file_name(storage_key@),
                    size,
                ).insert(crate::hash::legacy_file_name(storage_key@), size)
            } else {
                old(self).blob_map().insert(crate::hash::hashed_file_name(storage_key@), size)
            },
            final(self).mref_map() == old(self).mref_map(),
            final(self).mer_map() == old(self).mer_map(),
            final(self).queue_map() == old(self).queue_map(),
            final(self).pending_map() == old(self).pending_map(),
            final(self).prefs_map() == old(self).prefs_map(),
            final(self).same_config(old(self)),
    {
        let mut keys = match self.media_keys.remove(mxc) {
            Some(keys) => keys,
            None => Vec::new(),
        };
        let ghost keys0 = keys@;
        keys.push(storage_key.to_owned());
        self.media_keys.insert(mxc.to_owned(), keys);
        if let Some(u) = user {
            self.owners.insert(mxc.to_owned(), u.to_owned());
        }
        let hashed = crate::hash::media_file_name(storage_key);
        self.blobs.insert(hashed, size);
        if self.compat_file_link {
            let legacy = crate::hash::media_file_name_legacy(storage_key);
            self.blobs.insert(legacy, size);
        }
        proof {
            assert(final(self).media_key_map()[mxc@].subrange(0, keys0.len() as int) =~= keys0);
        }
    }

    /// The delete subroutine shared by the confirmation protocol and the
    /// reclamation worker: removes every file of the media identifier from
    /// the blob catalogue, both hashed and legacy names, then drops its
    /// queue candidate and reference record; it returns the bytes freed,
    /// with a missing file freeing nothing.  A malformed identifier is
    /// rejected and changes nothing.
    pub fn delete_media(&mut self, mxc: &str) -> (r: Result<u64, RetentionError>)
        requires
            old(self).wf(),
        ensures
            final(self).wf(),
            !crate::mxc::is_valid_mxc(mxc@) ==> r == Err::<u64, RetentionError>(
                RetentionError::BadRequest,
            ) && *final(self) == *old(self),
            crate::mxc::is_valid_mxc(mxc@) ==> ({
                let keys = if old(self).media_key_map().contains_key(mxc@) {
                    old(self).media_key_map()[mxc@]
                } else {
                    Seq::empty()
                };
                let removed = remove_blobs(old(self).blob_map(), blob_names_of(keys));
                &&& r == Ok::<u64, RetentionError>(removed.1)
                &&& final(self).blob_map() == removed.0
                &&& final(self).queue_map() == old(self).queue_map().remove(mxc@)
                &&& final(self).mref_map() == old(self).mref_map().remove(mxc@)
            }),
            final(self).mer_map() == old(self).mer_map(),
            final(self).pending_map() == old(self).pending_map(),
            final(self).prefs_map() == old(self).prefs_map(),
            final(self).owner_map() == old(self).owner_map(),
            final(self).media_key_map() == old(self).media_key_map(),
            final(self).same_config(old(self)),
    {
        if !crate::mxc::mxc_is_valid(mxc) {
            return Err(RetentionError::BadRequest);
        }
        let keys = match self.media_keys.get(mxc) {
            Some(v) => clone_string_vec(v),
            None => Vec::new(),
        };
        let ghost keys_v = keys@;
        let n = keys.len();
        let mut freed: u64 = 0;
        let mut i: usize = 0;
        while i < n
            invariant
                old(self).wf(),
                self.blobs.wf(),
                self.mrefs == old(self).mrefs,
                self.mers == old(self).mers,
                self.queue == old(self).queue,
                self.pending == old(self).pending,
                self.prefs == old(self).prefs,
                self.owners == old(self).owners,
                self.media_keys == old(self).media_keys,
                self.policy == old(self).policy,
                self.grace_period_secs == old(self).grace_period_secs,
                self.server_name == old(self).server_name,
                self.compat_file_link == old(self).compat_file_link,
                n == keys_v.len(),
                keys_v == keys@,
                0 <= i <= n,
                (self.blob_map(), freed) == remove_blobs(
                    old(self).blob_map(),
                    blob_names_of(keys_v.take(i as int)),
                ),
            decreases n - i,
        {
            let ghost s0 = blob_names_of(keys_v.take(i as int));
            let hashed = crate::hash::media_file_name(keys[i].as_str());
            let legacy = crate::hash::media_file_name_legacy(keys[i].as_str());
            proof {
                assert(keys_v.take(i + 1).drop_last() =~= keys_v.take(i as int));
                assert(keys_v.take(i + 1).last() == keys_v[i as int]);
                assert(blob_names_of(keys_v.take(i + 1)) =~= s0.push(hashed@).push(legacy@));
                assert(s0.push(hashed@).push(legacy@).drop_last() =~= s0.push(hashed@));
                assert(s0.push(hashed@).drop_last() =~= s0);
            }
            match self.blobs.remove(hashed.as_str()) {
                Some(sz) => {
                    freed = if freed > u64::MAX - sz {
                        u64::MAX
                    } else {
                        freed + sz
                    };
                },
                None => {},
            }
            proof {
                assert((self.blob_map(), freed) == remove_blobs(
                    old(self).blob_map(),
                    s0.push(hashed@),
                ));
            }
            match self.blobs.remove(legacy.as_str()) {
                Some(sz) => {
                    freed = if freed > u64::MAX - sz {
                        u64::MAX
                    } else {
                        freed + sz
                    };
                },
                None => {},
            }
            proof {
                assert((self.blob_map(), freed) == remove_blobs(
                    old(self).blob_map(),
                    blob_names_of(keys_v.take(i + 1)),
                ));
            }
            i += 1;
        }
        proof {
            assert(keys_v.take(n as int) =~= keys_v);
        }
        let _ = self.queue.remove(mxc);
        let _ = self.mrefs.remove(mxc);
        Ok(freed)
    }

    /// Carries out a deletion the owner confirmed: checks ownership and
    /// that the candidate still awaits confirmation, runs the delete
    /// subroutine, and hands back the freed bytes together with the cancel
    /// reaction to redact.  Requests from anyone but the recorded owner are
    /// rejected and change nothing.
    pub fn confirm_candidate(&mut self, mxc: &str, requester: &str) -> (r: Result<
        (u64, Option<String>),
        RetentionError,
    >)
        requires
            old(self).wf(),
        ensures
            final(self).wf(),
            !old(self).queue_map().contains_key(mxc@) ==> r == Err::<
                (u64, Option<String>),
                RetentionError,
            >(RetentionError::NotFound) && *final(self) == *old(self),
            old(self).queue_map().contains_key(mxc@) && (old(self).queue_map()[mxc@].user_id
                is None || old(self).queue_map()[mxc@].user_id != Some(requester@)) ==> r
                == Err::<(u64, Option<String>), RetentionError>(RetentionError::Forbidden)
                && *final(self) == *old(self),
            old(self).queue_map().contains_key(mxc@) && old(self).queue_map()[mxc@].user_id
                == Some(requester@) && !old(self).queue_map()[mxc@].awaiting_confirmation ==> r
                == Err::<(u64, Option<String>), RetentionError>(
                RetentionError::AlreadyProcessed,
            ) && *final(self) == *old(self),
            old(self).queue_map().contains_key(mxc@) && old(self).queue_map()[mxc@].user_id
                == Some(requester@) && old(self).queue_map()[mxc@].awaiting_confirmation
                && !crate::mxc::is_valid_mxc(mxc@) ==> r == Err::<
                (u64, Option<String>),
                RetentionError,
            >(RetentionError::BadRequest) && *final(self) == *old(self),
            old(self).queue_map().contains_key(mxc@) && old(self).queue_map()[mxc@].user_id
                == Some(requester@) && old(self).queue_map()[mxc@].awaiting_confirmation
                && crate::mxc::is_valid_mxc(mxc@) ==> ({
                let keys = if old(self).media_key_map().contains_key(mxc@) {
                    old(self).media_key_map()[mxc@]
                } else {
                    Seq::empty()
                };
                let removed = remove_blobs(old(self).blob_map(), blob_names_of(keys));
                &&& r matches Ok(out) && out.0 == removed.1 && opt_view(out.1) == old(self).queue_map()[mxc@].cancel_reaction_id
                &&& final(self).blob_map() == removed.0
                &&& final(self).queue_map() == old(self).queue_map().remove(mxc@)
                &&& final(self).mref_map() == old(self).mref_map().remove(mxc@)
                &&& final(self).mer_map() == old(self).mer_map()
                &&& final(self).pending_map() == old(self).pending_map()
                &&& final(self).prefs_map() == old(self).prefs_map()
                &&& final(self).owner_map() == old(self).owner_map()
                &&& final(self).media_key_map() == old(self).media_key_map()
            }),
            final(self).same_config(old(self)),
            confirm_transition(*old(self), *final(self), mxc@, requester@, r),
    {
        let cancel_id: Option<String> = match self.queue.get(mxc) {
            None => {
                return Err(RetentionError::NotFound);
            },
            Some(cand) => {
                match &cand.user_id {
                    None => {
                        return Err(RetentionError::Forbidden);
                    },
                    Some(owner) => {
                        if !str_eq(owner.as_str(), requester) {
                            return Err(RetentionError::Forbidden);
                        }
                    },
                }
                if !cand.awaiting_confirmation {
                    return Err(RetentionError::AlreadyProcessed);
                }
                match &cand.cancel_reaction_id {
                    Some(s) => Some(s.clone()),
                    None => None,
                }
            },
        };
        match self.delete_media(mxc) {
            Ok(freed) => Ok((freed, cancel_id)),
            Err(e) => Err(e),
        }
    }

    /// Cancels a deletion the owner declined: drops the candidate row alone
    /// and hands back the confirm reaction to redact.  Requests from anyone
    /// but the recorded owner are rejected and change nothing.
    pub fn cancel_candidate(&mut self, mxc: &str, requester: &str) -> (r: Result<
        Option<String>,
        RetentionError,
    >)
        requires
            old(self).wf(),
        ensures
            final(self).wf(),
            !old(self).queue_map().contains_key(mxc@) ==> r == Err::<
                Option<String>,
                RetentionError,
            >(RetentionError::NotFound) && *final(self) == *old(self),
            old(self).queue_map().contains_key(mxc@) && (old(self).queue_map()[mxc@].user_id
                is None || old(self).queue_map()[mxc@].user_id != Some(requester@)) ==> r
                == Err::<Option<String>, RetentionError>(RetentionError::Forbidden) && *final(self) == *old(self),
            old(self).queue_map().contains_key(mxc@) && old(self).queue_map()[mxc@].user_id
                == Some(requester@) ==> ({
                &&& r matches Ok(out) && opt_view(out) == old(self).queue_map()[mxc@].confirm_reaction_id
                &&& final(self).queue_map() == old(self).queue_map().remove(mxc@)
                &&& final(self).mref_map() == old(self).mref_map()
                &&& final(self).mer_map() == old(self).mer_map()
                &&& final(self).pending_map() == old(self).pending_map()
                &&& final(self).prefs_map() == old(self).prefs_map()
                &&& final(self).owner_map() == old(self).owner_map()
                &&& final(self).media_key_map() == old(self).media_key_map()
                &&& final(self).blob_map() == old(self).blob_map()
            }),
            final(self).same_config(old(self)),
            cancel_transition(*old(self), *final(self), mxc@, requester@, r),
    {
        let confirm_id: Option<String> = match self.queue.get(mxc) {
            None => {
                return Err(RetentionError::NotFound);
            },
            Some(cand) => {
                match &cand.user_id {
                    None => {
                        return Err(RetentionError::Forbidden);
                    },
                    Some(owner) => {
                        if !str_eq(owner.as_str(), requester) {
                            return Err(RetentionError::Forbidden);
                        }
                    },
                }
                match &cand.confirm_reaction_id {
                    Some(s) => Some(s.clone()),
                    None => None,
                }
            },
        };
        let _ = self.queue.remove(mxc);
        Ok(confirm_id)
    }

    /// Enables auto-delete for the candidate's room class and carries the
    /// deletion out: stores the flag, runs the delete subroutine, and hands
    /// back the freed bytes, the two reactions to redact, and whether the
    /// candidate came from an encrypted room.  Requests from anyone but the
    /// recorded owner are rejected and change nothing; on a malformed
    /// identifier the flag is stored but nothing is deleted.
    pub fn auto_delete_candidate(&mut self, mxc: &str, requester: &str) -> (r: Result<
        (u64, Option<String>, Option<String>, bool),
        RetentionError,
    >)
        requires
            old(self).wf(),
        ensures
            final(self).wf(),
            !old(self).queue_map().contains_key(mxc@) ==> r == Err::<
                (u64, Option<String>, Option<String>, bool),
                RetentionError,
            >(RetentionError::NotFound) && *final(self) == *old(self),
            old(self).queue_map().contains_key(mxc@) && (old(self).queue_map()[mxc@].user_id
                is None || old(self).queue_map()[mxc@].user_id != Some(requester@)) ==> r
                == Err::<(u64, Option<String>, Option<String>, bool), RetentionError>(
                RetentionError::Forbidden,
            ) && *final(self) == *old(self),
            old(self).queue_map().contains_key(mxc@) && old(self).queue_map()[mxc@].user_id
                == Some(requester@) ==> ({
                let cand = old(self).queue_map()[mxc@];
                let prefs0 = if old(self).prefs_map().contains_key(requester@) {
                    old(self).prefs_map()[requester@]
                } else {
                    UserRetentionPrefs { auto_delete_unencrypted: false, auto_delete_encrypted: false }
                };
                let prefs1 = if cand.from_encrypted_room {
                    UserRetentionPrefs {
                        auto_delete_unencrypted: prefs0.auto_delete_unencrypted,
                        auto_delete_encrypted: true,
                    }
                } else {
                    UserRetentionPrefs {
                        auto_delete_unencrypted: true,
                        auto_delete_encrypted: prefs0.auto_delete_encrypted,
                    }
                };
                &&& final(self).prefs_map() == old(self).prefs_map().insert(requester@, prefs1)
                &&& !crate::mxc::is_valid_mxc(mxc@) ==> r == Err::<
                    (u64, Option<String>, Option<String>, bool),
                    RetentionError,
                >(RetentionError::BadRequest) && final(self).queue_map() == old(self).queue_map() && final(self).mref_map() == old(self).mref_map() && final(self).blob_map() == old(self).blob_map()
                &&& crate::mxc::is_valid_mxc(mxc@) ==> ({
                    let keys = if old(self).media_key_map().contains_key(mxc@) {
                        old(self).media_key_map()[mxc@]
                    } else {
                        Seq::empty()
                    };
                    let removed = remove_blobs(old(self).blob_map(), blob_names_of(keys));
                    &&& r matches Ok(out) && out.0 == removed.1 && opt_view(out.1)
                        == cand.confirm_reaction_id && opt_view(out.2)
                        == cand.cancel_reaction_id && out.3 == cand.from_encrypted_room
                    &&& final(self).blob_map() == removed.0
                    &&& final(self).queue_map() == old(self).queue_map().remove(mxc@)
                    &&& final(self).mref_map() == old(self).mref_map().remove(mxc@)
                })
                &&& final(self).mer_map() == old(self).mer_map()
                &&& final(self).pending_map() == old(self).pending_map()
                &&& final(self).owner_map() == old(self).owner_map()
                &&& final(self).media_key_map() == old(self).media_key_map()
            }),
            final(self).same_config(old(self)),
            auto_transition(*old(self), *final(self), mxc@, requester@, r),
    {
        let (confirm_id, cancel_id, from_encrypted_room): (
            Option<String>,
            Option<String>,
            bool,
        ) = match self.queue.get(mxc) {
            None => {
                return Err(RetentionError::NotFound);
            },
            Some(cand) => {
                match &cand.user_id {
                    None => {
                        return Err(RetentionError::Forbidden);
                    },
                    Some(owner) => {
                        if !str_eq(owner.as_str(), requester) {
                            return Err(RetentionError::Forbidden);
                        }
                    },
                }
                (
                    match &cand.confirm_reaction_id {
                        Some(s) => Some(s.clone()),
                        None => None,
                    },
                    match &cand.cancel_reaction_id {
                        Some(s) => Some(s.clone()),
                        None => None,
                    },
                    cand.from_encrypted_room,
                )
            },
        };
        let mut prefs = self.get_user_prefs(requester);
        if from_encrypted_room {
            prefs.auto_delete_encrypted = true;
        } else {
            prefs.auto_delete_unencrypted = true;
        }
        self.set_user_prefs(requester, &prefs);
        match self.delete_media(mxc) {
            Ok(freed) => Ok((freed, confirm_id, cancel_id, from_encrypted_room)),
            Err(e) => Err(e),
        }
    }

    /// Finds the queued media identifier whose notification message is the
    /// given event; `None` when no candidate points at it.
    pub fn find_mxc_by_notification_event(&self, notification_event_id: &str) -> (r: Option<
        String,
    >)
        requires
            self.wf(),
        ensures
            match r {
                Some(mxc) => self.queue_map().contains_key(mxc@)
                    && self.queue_map()[mxc@].notification_event_id == Some(
                    notification_event_id@,
                ),
                None => forall|k: Seq<char>| #[trigger]
                    self.queue_map().contains_key(k)
                        ==> self.queue_map()[k].notification_event_id != Some(
                        notification_event_id@,
                    ),
            },
    {
        let n = self.queue.len();
        let mut i: usize = 0;
        while i < n
            invariant
                self.wf(),
                n == self.queue.num_entries(),
                0 <= i <= n,
                forall|j: int|
                    0 <= j < i ==> (#[trigger] self.queue.val_at_spec(j)).notification_event_id
                        != Some(notification_event_id@),
            decreases n - i,
        {
            let cand = self.queue.val_at(i);
            let hit = match &cand.notification_event_id {
                Some(nid) => str_eq(nid.as_str(), notification_event_id),
                None => false,
            };
            if hit {
                proof {
                    self.queue.lemma_entry_in_view(i as int);
                }
                return Some(cand.mxc.clone());
            }
            i += 1;
        }
        proof {
            assert forall|k: Seq<char>| #[trigger]
                self.queue_map().contains_key(k) implies self.queue_map()[
                k
            ].notification_event_id != Some(notification_event_id@) by {
                self.queue.lemma_view_covered(k);
                let j = choose|j: int|
                    0 <= j < self.queue.num_entries() && self.queue.key_at_spec(j) == k;
                self.queue.lemma_entry_in_view(j);
            }
        }
        None
    }

    /// Whether a queued candidate is ripe for reclamation at the given
    /// time: it awaits no confirmation, its grace period has passed, and
    /// its identifier is well formed.
    pub open spec fn sweep_due(c: CandView, grace: u64, now: u64) -> bool {
        &&& !c.awaiting_confirmation
        &&& c.enqueued_ts + grace <= now
        &&& crate::mxc::is_valid_mxc(c.mxc)
    }

    /// One reclamation pass over the deletion queue: every candidate whose
    /// grace period has passed and which awaits no confirmation is deleted
    /// through the delete subroutine; candidates inside their grace period
    /// or awaiting confirmation stay untouched, so reclamation never
    /// deletes a candidate whose `enqueued_ts + grace_period` lies in the
    /// future.  Returns the deleted identifiers and the total bytes freed.
    pub fn process_deletion_queue(&mut self, now_secs: u64) -> (r: (Vec<String>, u64))
        requires
            old(self).wf(),
        ensures
            final(self).wf(),
            forall|j: int, l: int| 0 <= j < l < r.0@.len() ==> r.0@[j]@ != r.0@[l]@,
            forall|j: int| #![trigger r.0@[j]]
                0 <= j < r.0@.len() ==> old(self).queue_map().contains_key(r.0@[j]@)
                    && Self::sweep_due(
                    old(self).queue_map()[r.0@[j]@],
                    old(self).grace_spec(),
                    now_secs,
                ),
            forall|k: Seq<char>| #[trigger]
                old(self).queue_map().contains_key(k) && Self::sweep_due(
                    old(self).queue_map()[k],
                    old(self).grace_spec(),
                    now_secs,
                ) ==> string_views(r.0@).contains(k),
            final(self).queue_map() == old(self).queue_map().remove_keys(
                key_view_set(r.0@),
            ),
            final(self).mref_map() == old(self).mref_map().remove_keys(key_view_set(r.0@)),
            (final(self).blob_map(), r.1) == sweep_fold(
                old(self).blob_map(),
                old(self).media_key_map(),
                string_views(r.0@),
            ),
            final(self).mer_map() == old(self).mer_map(),
            final(self).pending_map() == old(self).pending_map(),
            final(self).prefs_map() == old(self).prefs_map(),
            final(self).owner_map() == old(self).owner_map(),
            final(self).media_key_map() == old(self).media_key_map(),
            final(self).same_config(old(self)),
    {
        let grace = self.grace_period_secs;
        let qn = self.queue.len();
        let mut due: Vec<String> = Vec::new();
        let mut i: usize = 0;
        while i < qn
            invariant
                self.wf(),
                *self == *old(self),
                grace == self.grace_period_secs,
                qn == self.queue.num_entries(),
                0 <= i <= qn,
                forall|j: int, l: int| 0 <= j < l < due@.len() ==> due@[j]@ != due@[l]@,
                forall|j: int| #![trigger due@[j]]
                    0 <= j < due@.len() ==> self.queue_map().contains_key(due@[j]@)
                        && Self::sweep_due(self.queue_map()[due@[j]@], grace, now_secs),
                forall|j: int| #![trigger self.queue.val_at_spec(j)]
                    0 <= j < i && Self::sweep_due(self.queue.val_at_spec(j), grace, now_secs)
                        ==> exists|l: int|
                        0 <= l < due@.len() && (#[trigger] due@[l])@ == self.queue.key_at_spec(
                            j,
                        ),
                forall|j: int| #![trigger due@[j]]
                    0 <= j < due@.len() ==> exists|l: int|
                        0 <= l < i && self.queue.key_at_spec(l) == due@[j]@,
            decreases qn - i,
        {
            proof {
                self.queue.lemma_entry_in_view(i as int);
            }
            let cand = self.queue.val_at(i);
            let ripe = !cand.awaiting_confirmation && cand.enqueued_ts <= now_secs && now_secs
                - cand.enqueued_ts >= grace;
            if ripe && crate::mxc::mxc_is_valid(cand.mxc.as_str()) {
                let ghost due_before = due@;
                due.push(cand.mxc.clone());
                proof {
                    assert(due@.last()@ == self.queue.key_at_spec(i as int));
                    assert(forall|j: int| 0 <= j < due@.len() - 1 ==> due@[j] == due_before[j]);
                    assert forall|j: int, l: int|
                        0 <= j < l < due@.len() implies due@[j]@ != due@[l]@ by {
                        if l == due@.len() - 1 {
                            let m = choose|m: int|
                                0 <= m < i && self.queue.key_at_spec(m) == due@[j]@;
                            self.queue.lemma_keys_distinct(m, i as int);
                        }
                    }
                }
            }
            i += 1;
        }
        let ghost due_v = due@;
        proof {
            assert forall|k: Seq<char>| #[trigger]
                old(self).queue_map().contains_key(k) && Self::sweep_due(
                    old(self).queue_map()[k],
                    old(self).grace_spec(),
                    now_secs,
                ) implies exists|j: int| 0 <= j < due_v.len() && (#[trigger] due_v[j])@ == k by {
                self.queue.lemma_view_covered(k);
                let j = choose|j: int|
                    0 <= j < self.queue.num_entries() && self.queue.key_at_spec(j) == k;
                self.queue.lemma_entry_in_view(j);
            }
        }
        let dn = due.len();
        let mut freed: u64 = 0;
        let mut d: usize = 0;
        while d < dn
            invariant
                old(self).wf(),
                self.wf(),
                dn == due@.len(),
                due@ == due_v,
                0 <= d <= dn,
                forall|j: int| #![trigger due@[j]]
                    0 <= j < due@.len() ==> old(self).queue_map().contains_key(due@[j]@)
                        && Self::sweep_due(
                        old(self).queue_map()[due@[j]@],
                        old(self).grace_spec(),
                        now_secs,
                    ),
                forall|k: Seq<char>| #[trigger]
                    old(self).queue_map().contains_key(k) && Self::sweep_due(
                        old(self).queue_map()[k],
                        old(self).grace_spec(),
                        now_secs,
                    ) ==> exists|j: int| 0 <= j < due_v.len() && (#[trigger] due_v[j])@ == k,
                self.queue_map() == old(self).queue_map().remove_keys(
                    key_view_set(due@.take(d as int)),
                ),
                self.mref_map() == old(self).mref_map().remove_keys(
                    key_view_set(due@.take(d as int)),
                ),
                (self.blob_map(), freed) == sweep_fold(
                    old(self).blob_map(),
                    old(self).media_key_map(),
                    string_views(due@.take(d as int)),
                ),
                self.mer_map() == old(self).mer_map(),
                self.pending_map() == old(self).pending_map(),
                self.prefs_map() == old(self).prefs_map(),
                self.owner_map() == old(self).owner_map(),
                self.media_key_map() == old(self).media_key_map(),
                self.same_config(old(self)),
            decreases dn - d,
        {
            proof {
                assert(string_views(due@.take(d + 1)).drop_last() =~= string_views(
                    due@.take(d as int),
                ));
                assert(string_views(due@.take(d + 1)).last() == due@[d as int]@);
            }
            proof {
                assert(old(self).queue_map()[due@[d as int]@].mxc == due@[d as int]@);
                assert(crate::mxc::is_valid_mxc(due@[d as int]@));
            }
            match self.delete_media(due[d].as_str()) {
                Ok(sz) => {
                    freed = if freed > u64::MAX - sz {
                        u64::MAX
                    } else {
                        freed + sz
                    };
                },
                Err(_) => {
                    proof {
                        assert(old(self).queue_map()[due@[d as int]@].mxc == due@[d as int]@);
                        assert(false);
                    }
                },
            }
            proof {
                assert(key_view_set(due@.take(d + 1)) =~= key_view_set(due@.take(d as int)).insert(
                    due@[d as int]@,
                )) by {
                    let a = string_views(due@.take(d as int));
                    let x = due@[d as int]@;
                    let b = string_views(due@.take(d + 1));
                    assert(b =~= a.push(x));
                    assert forall|e: Seq<char>| #[trigger] b.contains(e) implies a.contains(e)
                        || e == x by {
                        let m = choose|m: int| 0 <= m < b.len() && b[m] == e;
                        if m < a.len() {
                            assert(a[m] == e);
                        }
                    }
                    assert forall|e: Seq<char>| #[trigger] a.contains(e) implies b.contains(
                        e,
                    ) by {
                        let m = choose|m: int| 0 <= m < a.len() && a[m] == e;
                        assert(b[m] == e);
                    }
                    assert(b.contains(x)) by {
                        assert(b[b.len() - 1] == x);
                    }
                }
                assert(self.queue_map() =~= old(self).queue_map().remove_keys(
                    key_view_set(due@.take(d + 1)),
                ));
                assert(self.mref_map() =~= old(self).mref_map().remove_keys(
                    key_view_set(due@.take(d + 1)),
                ));
            }
            d += 1;
        }
        proof {
            assert(due@.take(dn as int) =~= due@);
            assert forall|k: Seq<char>| #[trigger]
                old(self).queue_map().contains_key(k) && Self::sweep_due(
                    old(self).queue_map()[k],
                    old(self).grace_spec(),
                    now_secs,
                ) implies string_views(due@).contains(k) by {
                let j = choose|j: int| 0 <= j < due_v.len() && (#[trigger] due_v[j])@ == k;
                assert(string_views(due@)[j] == k);
            }
        }
        (due, freed)
    }

    /// Hands out every queued candidate in its stored byte form, for the
    /// durable layer to write; reading the records back restores the queue.
    pub fn export_queue(&self) -> (r: Vec<Vec<u8>>)
        requires
            self.wf(),
        ensures
            r@.len() == self.queue_len_spec(),
            forall|i: int|
                0 <= i < r@.len() ==> (#[trigger] r@[i])@ == crate::codec::enc_candidate(
                    self.queue_at_spec(i),
                ) && self.queue_map().contains_key(self.queue_at_spec(i).mxc)
                    && self.queue_map()[self.queue_at_spec(i).mxc] == self.queue_at_spec(i),
    {
        let n = self.queue.len();
        let mut r: Vec<Vec<u8>> = Vec::new();
        let mut i: usize = 0;
        while i < n
            invariant
                self.wf(),
                n == self.queue.num_entries(),
                0 <= i <= n,
                r@.len() == i,
                forall|j: int|
                    0 <= j < i ==> (#[trigger] r@[j])@ == crate::codec::enc_candidate(
                        self.queue_at_spec(j),
                    ) && self.queue_map().contains_key(self.queue_at_spec(j).mxc)
                        && self.queue_map()[self.queue_at_spec(j).mxc]
                        == self.queue_at_spec(j),
            decreases n - i,
        {
            proof {
                self.queue.lemma_entry_in_view(i as int);
            }
            let cand = self.queue.val_at(i);
            r.push(crate::codec::encode_candidate(cand));
            i += 1;
        }
        r
    }

    /// Restores one stored candidate into the queue; the encoding of any
    /// candidate is accepted and lands under its own media identifier, so
    /// an exported queue read back after a restart is the queue that was
    /// written.
    pub fn import_candidate(&mut self, bytes: &[u8]) -> (r: bool)
        requires
            old(self).wf(),
        ensures
            final(self).wf(),
            forall|v: CandView|
                bytes@ == crate::codec::enc_candidate(v) ==> r && final(self).queue_map()
                    == old(self).queue_map().insert(v.mxc, v),
            !r ==> *final(self) == *old(self),
            final(self).mref_map() == old(self).mref_map(),
            final(self).mer_map() == old(self).mer_map(),
            final(self).pending_map() == old(self).pending_map(),
            final(self).prefs_map() == old(self).prefs_map(),
            final(self).owner_map() == old(self).owner_map(),
            final(self).media_key_map() == old(self).media_key_map(),
            final(self).blob_map() == old(self).blob_map(),
            final(self).same_config(old(self)),
    {
        match crate::codec::decode_candidate(bytes) {
            Some(cand) => {
                let key = cand.mxc.clone();
                self.queue.insert(key, cand);
                true
            },
            None => false,
        }
    }

    /// Removes the references an event contributed, lowering the reference
    /// count of each mentioned media identifier and returning, in row order,
    /// the `(mxc, room_id, sender)` of every reference the configured policy
    /// releases for deletion.  An event without recorded references changes
    /// nothing and returns the empty list.
    pub fn decrement_refcount_on_redaction(
        &mut self,
        event_id: &str,
        now_secs: u64,
    ) -> (out: Vec<(String, String, Option<String>)>)
        requires
            old(self).wf(),
        ensures
            final(self).wf(),
            final(self).mer_map() == old(self).mer_map().remove(event_id@),
            old(self).mer_map().contains_key(event_id@) ==> {
                let applied = apply_dec_rows(
                    old(self).mref_map(),
                    old(self).mer_map()[event_id@],
                    now_secs,
                    old(self).policy_spec(),
                );
                &&& final(self).mref_map() == applied.0
                &&& triple_views(out@) == applied.1.map_values(
                    |r: MerView| (r.mxc, r.room_id, r.sender),
                )
            },
            !old(self).mer_map().contains_key(event_id@) ==> {
                &&& final(self).mref_map() == old(self).mref_map()
                &&& out@.len() == 0
            },
            final(self).queue_map() == old(self).queue_map(),
            final(self).pending_map() == old(self).pending_map(),
            final(self).prefs_map() == old(self).prefs_map(),
            final(self).owner_map() == old(self).owner_map(),
            final(self).media_key_map() == old(self).media_key_map(),
            final(self).blob_map() == old(self).blob_map(),
            final(self).policy_spec() == old(self).policy_spec(),
            final(self).grace_spec() == old(self).grace_spec(),
            final(self).server_name_spec() == old(self).server_name_spec(),
            final(self).compat_link_spec() == old(self).compat_link_spec(),
    {
        let rows = match self.mers.remove(event_id) {
            Some(rows) => rows,
            None => {
                proof {
                    assert(self.mer_map() =~= old(self).mer_map().remove(event_id@));
                }
                return Vec::new();
            },
        };
        proof {
            assert(self.mer_map() =~= old(self).mer_map().remove(event_id@));
            assert(mer_views(rows@) == old(self).mer_map()[event_id@]);
        }
        let ghost mers_now = self.mers;
        let ghost rows_v = mer_views(rows@);
        let ghost policy = self.policy;
        let n = rows.len();
        let mut out: Vec<(String, String, Option<String>)> = Vec::new();
        let mut i: usize = 0;
        while i < n
            invariant
                old(self).wf(),
                self.mrefs.wf(),
                self.mers == mers_now,
                self.mers.wf(),
                self.mer_map() == old(self).mer_map().remove(event_id@),
                self.queue == old(self).queue,
                self.pending == old(self).pending,
                self.prefs == old(self).prefs,
                self.owners == old(self).owners,
                self.media_keys == old(self).media_keys,
                self.blobs == old(self).blobs,
                self.policy == old(self).policy,
                self.grace_period_secs == old(self).grace_period_secs,
                self.server_name == old(self).server_name,
                self.compat_file_link == old(self).compat_file_link,
                policy == old(self).policy_spec(),
                n == rows@.len(),
                rows_v == mer_views(rows@),
                0 <= i <= n,
                self.mref_map() == apply_dec_rows(
                    old(self).mref_map(),
                    rows_v.take(i as int),
                    now_secs,
                    policy,
                ).0,
                triple_views(out@) == apply_dec_rows(
                    old(self).mref_map(),
                    rows_v.take(i as int),
                    now_secs,
                    policy,
                ).1.map_values(|r: MerView| (r.mxc, r.room_id, r.sender)),
            decreases n - i,
        {
            proof {
                assert(rows_v.take(i + 1).drop_last() =~= rows_v.take(i as int));
                assert(rows_v.take(i + 1).last() == rows_v[i as int]);
            }
            let ghost prev = apply_dec_rows(old(self).mref_map(), rows_v.take(i as int), now_secs, policy);
            let ghost step = apply_dec_row(prev.0, rows_v[i as int], now_secs, policy);
            let ghost out_before = out@;
            let row = &rows[i];
            let cur = match self.mrefs.get(row.mxc.as_str()) {
                Some(mr) => Some(*mr),
                None => None,
            };
            match cur {
                Some(mr) => {
                    let rc: i64 = if mr.refcount <= 0 {
                        0
                    } else {
                        mr.refcount - 1
                    };
                    let mr2 = MediaRef {
                        refcount: rc,
                        local: mr.local,
                        first_seen_ts: mr.first_seen_ts,
                        last_seen_ts: now_secs,
                    };
                    let q = match self.policy {
                        RetentionPolicy::Keep => false,
                        RetentionPolicy::AskSender => rc == 0,
                        RetentionPolicy::DeleteAlways => mr2.local,
                    };
                    self.mrefs.insert(row.mxc.clone(), mr2);
                    proof {
                        assert(step.1 == if should_queue(policy, mr2@) {
                            Some(rows_v[i as int])
                        } else {
                            None::<MerView>
                        });
                    }
                    if q {
                        let sender = match &row.sender {
                            Some(s) => Some(s.clone()),
                            None => None,
                        };
                        out.push((row.mxc.clone(), row.room_id.clone(), sender));
                        proof {
                            assert(out@.drop_last() =~= out_before);
                            assert(triple_views(out@) =~= triple_views(out_before).push(
                                (row@.mxc, row@.room_id, row@.sender),
                            ));
                            assert(apply_dec_rows(
                                old(self).mref_map(),
                                rows_v.take(i + 1),
                                now_secs,
                                policy,
                            ).1 == prev.1.push(rows_v[i as int]));
                            assert(prev.1.push(rows_v[i as int]).map_values(
                                |r: MerView| (r.mxc, r.room_id, r.sender),
                            ) =~= prev.1.map_values(|r: MerView| (r.mxc, r.room_id, r.sender)).push(
                                (rows_v[i as int].mxc, rows_v[i as int].room_id, rows_v[
                                    i as int
                                ].sender),
                            ));
                        }
                    }
                },
                None => {},
            }
            proof {
                assert(triple_views(out@) =~= apply_dec_rows(
                    old(self).mref_map(),
                    rows_v.take(i + 1),
                    now_secs,
                    policy,
                ).1.map_values(|r: MerView| (r.mxc, r.room_id, r.sender)));
            }
            i += 1;
        }
        proof {
            assert(rows_v.take(n as int) =~= rows_v);
        }
        out
    }

    /// Records the media references a newly created or edited event
    /// contributes: one stored row per distinct reference kind (a later
    /// duplicate kind replaces the earlier row), and one reference-count
    /// bump per list entry, so a duplicate identifier counts twice.  A call
    /// with no references changes nothing.
    pub fn record_event_refs(
        &mut self,
        event_id: &str,
        room_id: &str,
        sender: &str,
        refs: &Vec<(String, bool, String)>,
        now_secs: u64,
    )
        requires
            old(self).wf(),
        ensures
            final(self).wf(),
            refs@.len() == 0 ==> *final(self) == *old(self),
            refs@.len() > 0 ==> final(self).mer_map() == old(self).mer_map().insert(
                event_id@,
                rows_of_refs(refs@, room_id@, sender@),
            ),
            refs@.len() > 0 ==> final(self).mref_map() == apply_insert_refs(
                old(self).mref_map(),
                refs@,
                now_secs,
            ),
            final(self).queue_map() == old(self).queue_map(),
            final(self).pending_map() == old(self).pending_map(),
            final(self).prefs_map() == old(self).prefs_map(),
            final(self).owner_map() == old(self).owner_map(),
            final(self).media_key_map() == old(self).media_key_map(),
            final(self).blob_map() == old(self).blob_map(),
            final(self).policy_spec() == old(self).policy_spec(),
            final(self).grace_spec() == old(self).grace_spec(),
            final(self).server_name_spec() == old(self).server_name_spec(),
            final(self).compat_link_spec() == old(self).compat_link_spec(),
    {
        if refs.len() == 0 {
            return;
        }
        let n = refs.len();
        let mut rows: Vec<MediaEventRef> = Vec::new();
        let mut i: usize = 0;
        while i < n
            invariant
                old(self).wf(),
                self.mrefs.wf(),
                self.mers == old(self).mers,
                self.queue == old(self).queue,
                self.pending == old(self).pending,
                self.prefs == old(self).prefs,
                self.owners == old(self).owners,
                self.media_keys == old(self).media_keys,
                self.blobs == old(self).blobs,
                self.policy == old(self).policy,
                self.grace_period_secs == old(self).grace_period_secs,
                self.server_name == old(self).server_name,
                self.compat_file_link == old(self).compat_file_link,
                n == refs@.len(),
                0 <= i <= n,
                self.mref_map() == apply_insert_refs(
                    old(self).mref_map(),
                    refs@.take(i as int),
                    now_secs,
                ),
                mer_views(rows@) == rows_of_refs(refs@.take(i as int), room_id@, sender@),
                Self::rows_wf(rows@),
            decreases n - i,
        {
            let r = &refs[i];
            let row = MediaEventRef {
                mxc: r.0.clone(),
                room_id: room_id.to_owned(),
                kind: r.2.clone(),
                sender: Some(sender.to_owned()),
            };
            assert(row@ == mer_row_of(refs@[i as int].0@, refs@[i as int].2@, room_id@, sender@));
            upsert_mer(&mut rows, row);
            let newmr = match self.mrefs.get(r.0.as_str()) {
                Some(mr) => MediaRef {
                    refcount: if mr.refcount == i64::MAX {
                        i64::MAX
                    } else {
                        mr.refcount + 1
                    },
                    local: mr.local,
                    first_seen_ts: mr.first_seen_ts,
                    last_seen_ts: now_secs,
                },
                None => MediaRef {
                    refcount: 1,
                    local: r.1,
                    first_seen_ts: now_secs,
                    last_seen_ts: now_secs,
                },
            };
            self.mrefs.insert(r.0.clone(), newmr);
            proof {
                assert(refs@.take(i + 1).drop_last() =~= refs@.take(i as int));
                assert(refs@.take(i + 1).last() == refs@[i as int]);
            }
            i += 1;
        }
        proof {
            assert(refs@.take(n as int) =~= refs@);
        }
        self.mers.insert(event_id.to_owned(), rows);
        proof {
            assert(final(self).mer_map() =~= old(self).mer_map().insert(
                event_id@,
                rows_of_refs(refs@, room_id@, sender@),
            ));
        }
    }
}

} // verus!
