//! The entry points the event pipeline, the reaction handler and the user
//! commands call: candidate evaluation, the redaction flow, and the three
//! reaction paths.  Clock reads and event sends happen outside; each entry
//! point takes the time and any fetched documents as plain values.

use vstd::prelude::*;
use crate::engine::{
    Retention, apply_dec_rows, auto_transition, cancel_transition, confirm_transition,
    prefs_or_default,
};
use crate::json::{JsonValue, field_of, is_encrypted_event, mxcs_of, pref_of_doc, str_set};
use crate::mxc::user_on_server;
use crate::records::{
    CandidateAction, CandidateDecision, MerView, RetentionCandidate, RetentionCandidateView,
    RetentionError, RetentionPolicy, UserRetentionPreference, opt_view,
};

verus! {

/// The sender named by an event document, when it is a string.
pub open spec fn event_sender(event: Option<JsonValue>) -> Option<Seq<char>> {
    match event {
        Some(v) => match field_of(v, "sender"@) {
            Some(JsonValue::Text(t)) => Some(t@),
            _ => None,
        },
        None => None,
    }
}

/// The room named by an event document, when it is a string.
pub open spec fn event_room(event: Option<JsonValue>) -> Option<Seq<char>> {
    match event {
        Some(v) => match field_of(v, "room_id"@) {
            Some(JsonValue::Text(t)) => Some(t@),
            _ => None,
        },
        None => None,
    }
}

/// The timestamp an event document carries, when readable.
pub open spec fn event_ts(event: Option<JsonValue>) -> Option<u64> {
    match event {
        Some(v) => match field_of(v, "origin_server_ts"@) {
            Some(f) => crate::json::json_u64(f),
            None => None,
        },
        None => None,
    }
}

/// Reads the timestamp out of an event document.
pub fn event_timestamp(event_json: Option<&JsonValue>) -> (r: Option<u64>)
    ensures
        r == event_ts(
            match event_json {
                Some(v) => Some(*v),
                None => None,
            },
        ),
{
    match event_json {
        Some(v) => match crate::json::get_field(v, "origin_server_ts") {
            Some(f) => crate::json::canonical_json_to_u64(f),
            None => None,
        },
        None => None,
    }
}

/// What one redaction candidate came to: an immediate deletion by the
/// owner's standing auto-delete flag, a silent queue entry under the grace
/// timer, a notice the caller must deliver to the owner before recording
/// the candidate, or nothing.
#[derive(Debug)]
pub enum DispatchOutcome {
    /// The owner's flag was set: the delete subroutine ran at once and
    /// freed this many bytes.
    Deleted(u64),
    /// Queued without confirmation; the grace timer decides.
    QueuedSilently,
    /// The owner and the notice text to send; once the message and its
    /// reactions exist, the caller records the candidate with their event
    /// identifiers.
    NotifyOwner(String, String),
    /// The candidate is kept.
    Skipped,
}

/// The three reactions of the confirmation protocol.
#[derive(Clone, Copy, Debug, PartialEq, Eq, Structural)]
pub enum ReactionKind {
    /// The check mark: confirm the deletion.
    Confirm,
    /// The cross mark: keep the media.
    Cancel,
    /// The gear: always auto-delete for this room class.
    Auto,
}

/// The protocol meaning of a reaction emoji; anything else is ignored.
pub open spec fn reaction_kind_of(emoji: Seq<char>) -> Option<ReactionKind> {
    if emoji == "\u{2705}"@ {
        Some(ReactionKind::Confirm)
    } else if emoji == "\u{274c}"@ {
        Some(ReactionKind::Cancel)
    } else if emoji == "\u{2699}\u{fe0f}"@ {
        Some(ReactionKind::Auto)
    } else {
        None
    }
}

/// Classifies a reaction emoji.
pub fn reaction_kind(emoji: &str) -> (r: Option<ReactionKind>)
    ensures
        r == reaction_kind_of(emoji@),
{
    if crate::strutil::str_eq(emoji, "\u{2705}") {
        Some(ReactionKind::Confirm)
    } else if crate::strutil::str_eq(emoji, "\u{274c}") {
        Some(ReactionKind::Cancel)
    } else if crate::strutil::str_eq(emoji, "\u{2699}\u{fe0f}") {
        Some(ReactionKind::Auto)
    } else {
        None
    }
}

impl Retention {
    /// The owner a candidate resolves to: its recorded sender first, then
    /// the upload catalogue, then the event document's sender.
    pub open spec fn resolved_owner_spec(
        &self,
        c: RetentionCandidateView,
        event: Option<JsonValue>,
    ) -> Option<Seq<char>> {
        match c.sender {
            Some(s) => Some(s),
            None => if self.owner_map().contains_key(c.mxc) {
                Some(self.owner_map()[c.mxc])
            } else {
                event_sender(event)
            },
        }
    }

    /// Resolves the owner of a candidate.
    pub fn resolve_owner(
        &self,
        c: &RetentionCandidate,
        event_json: Option<&JsonValue>,
    ) -> (r: Option<String>)
        requires
            self.wf(),
        ensures
            opt_view(r) == self.resolved_owner_spec(
                c@,
                match event_json {
                    Some(v) => Some(*v),
                    None => None,
                },
            ),
    {
        match &c.sender {
            Some(s) => Some(s.clone()),
            None => match self.get_media_owner(c.mxc.as_str()) {
                Some(u) => Some(u),
                None => match event_json {
                    Some(v) => crate::json::get_text_field(v, "sender"),
                    None => None,
                },
            },
        }
    }

    /// The effective retention preference of a user: a remote user's media
    /// is deletable, a local user's document decides, and without a
    /// readable document the server asks.
    pub open spec fn effective_pref_spec(
        &self,
        user: Seq<char>,
        doc: Option<JsonValue>,
    ) -> UserRetentionPreference {
        if !user_on_server(user, self.server_name_spec()) {
            UserRetentionPreference::Delete
        } else {
            match doc {
                Some(d) => match pref_of_doc(d) {
                    Some(p) => p,
                    None => UserRetentionPreference::Ask,
                },
                None => UserRetentionPreference::Ask,
            }
        }
    }

    /// Reads a user's effective retention preference from their
    /// account-data document.
    pub fn user_retention_preference(
        &self,
        user: &str,
        account_doc: Option<&JsonValue>,
    ) -> (r: UserRetentionPreference)
        ensures
            r == self.effective_pref_spec(
                user@,
                match account_doc {
                    Some(v) => Some(*v),
                    None => None,
                },
            ),
    {
        let server = self.server_name().clone();
        if !crate::mxc::user_is_on_server(user, server.as_str()) {
            return UserRetentionPreference::Delete;
        }
        match account_doc {
            Some(d) => match crate::json::parse_user_retention_preference(d) {
                Some(p) => p,
                None => UserRetentionPreference::Ask,
            },
            None => UserRetentionPreference::Ask,
        }
    }

    /// What the evaluator decides for a candidate, with the resolved
    /// owner: under a keeping policy everything is skipped; an unresolved
    /// or remote owner's media is deleted outright; a local owner's
    /// preference decides among delete, keep and ask.
    pub open spec fn decision_spec(
        &self,
        c: RetentionCandidateView,
        event: Option<JsonValue>,
        doc: Option<JsonValue>,
    ) -> (CandidateAction, Option<Seq<char>>) {
        if self.policy_spec() == RetentionPolicy::Keep {
            (CandidateAction::Skip, None)
        } else {
            let owner = self.resolved_owner_spec(c, event);
            match owner {
                None => (CandidateAction::DeleteImmediately, None),
                Some(o) => if !user_on_server(o, self.server_name_spec()) {
                    (CandidateAction::DeleteImmediately, owner)
                } else {
                    match self.effective_pref_spec(o, doc) {
                        UserRetentionPreference::Delete => (
                            CandidateAction::DeleteImmediately,
                            owner,
                        ),
                        UserRetentionPreference::Keep => (CandidateAction::Skip, owner),
                        UserRetentionPreference::Ask => (
                            CandidateAction::AwaitConfirmation,
                            owner,
                        ),
                    }
                },
            }
        }
    }

    /// Evaluates a candidate against the policy, the owner's locality and
    /// the owner's preference document.
    pub fn evaluate_retention_candidate(
        &self,
        c: &RetentionCandidate,
        event_json: Option<&JsonValue>,
        owner_pref_doc: Option<&JsonValue>,
    ) -> (r: CandidateDecision)
        requires
            self.wf(),
        ensures
            ({
                let d = self.decision_spec(
                    c@,
                    match event_json {
                        Some(v) => Some(*v),
                        None => None,
                    },
                    match owner_pref_doc {
                        Some(v) => Some(*v),
                        None => None,
                    },
                );
                r.action == d.0 && opt_view(r.owner) == d.1
            }),
    {
        if matches!(self.policy(), RetentionPolicy::Keep) {
            return CandidateDecision { action: CandidateAction::Skip, owner: None };
        }
        let owner = self.resolve_owner(c, event_json);
        match owner {
            None => CandidateDecision { action: CandidateAction::DeleteImmediately, owner: None },
            Some(o) => {
                let server = self.server_name().clone();
                if !crate::mxc::user_is_on_server(o.as_str(), server.as_str()) {
                    return CandidateDecision {
                        action: CandidateAction::DeleteImmediately,
                        owner: Some(o),
                    };
                }
                let pref = self.user_retention_preference(o.as_str(), owner_pref_doc);
                match pref {
                    UserRetentionPreference::Delete => CandidateDecision {
                        action: CandidateAction::DeleteImmediately,
                        owner: Some(o),
                    },
                    UserRetentionPreference::Keep => CandidateDecision {
                        action: CandidateAction::Skip,
                        owner: Some(o),
                    },
                    UserRetentionPreference::Ask => CandidateDecision {
                        action: CandidateAction::AwaitConfirmation,
                        owner: Some(o),
                    },
                }
            },
        }
    }

    /// Whether a candidate's recorded sender asked for media of this room
    /// class to be deleted without confirmation.
    pub open spec fn auto_delete_spec(&self, c: RetentionCandidateView) -> bool {
        match c.sender {
            Some(s) => {
                let p = prefs_or_default(self.prefs_map(), s);
                if c.from_encrypted_room {
                    p.auto_delete_encrypted
                } else {
                    p.auto_delete_unencrypted
                }
            },
            None => false,
        }
    }

    /// Decides whether a candidate is auto-deleted by its sender's flags,
    /// before any evaluation.
    pub fn should_auto_delete(&self, c: &RetentionCandidate) -> (r: bool)
        requires
            self.wf(),
        ensures
            r == self.auto_delete_spec(c@),
    {
        match &c.sender {
            Some(s) => {
                let p = self.get_user_prefs(s.as_str());
                if c.from_encrypted_room {
                    p.auto_delete_encrypted
                } else {
                    p.auto_delete_unencrypted
                }
            },
            None => false,
        }
    }

    /// Collects the candidates a redaction releases: the references the
    /// event contributed, or, when it contributed none, every media
    /// identifier mentioned in the event document, each flagged with the
    /// document's encryption heuristic.
    pub fn on_redaction_candidates(
        &mut self,
        event_id: &str,
        event_json: Option<&JsonValue>,
        now_secs: u64,
    ) -> (out: Vec<RetentionCandidate>)
        requires
            old(self).wf(),
        ensures
            final(self).wf(),
            final(self).mer_map() == old(self).mer_map().remove(event_id@),
            old(self).mer_map().contains_key(event_id@) ==> final(self).mref_map()
                == apply_dec_rows(
                old(self).mref_map(),
                old(self).mer_map()[event_id@],
                now_secs,
                old(self).policy_spec(),
            ).0,
            !old(self).mer_map().contains_key(event_id@) ==> final(self).mref_map() == old(self).mref_map(),
            final(self).queue_map() == old(self).queue_map(),
            final(self).pending_map() == old(self).pending_map(),
            final(self).prefs_map() == old(self).prefs_map(),
            final(self).owner_map() == old(self).owner_map(),
            final(self).media_key_map() == old(self).media_key_map(),
            final(self).blob_map() == old(self).blob_map(),
            final(self).same_config(old(self)),
            ({
                let enc = match event_json {
                    Some(v) => is_encrypted_event(*v),
                    None => false,
                };
                let released = if old(self).mer_map().contains_key(event_id@) {
                    apply_dec_rows(
                        old(self).mref_map(),
                        old(self).mer_map()[event_id@],
                        now_secs,
                        old(self).policy_spec(),
                    ).1
                } else {
                    Seq::<MerView>::empty()
                };
                if released.len() > 0 {
                    out@.len() == released.len() && forall|i: int|
                        0 <= i < released.len() ==> (#[trigger] out@[i])@
                            == (RetentionCandidateView {
                            mxc: released[i].mxc,
                            room_id: Some(released[i].room_id),
                            sender: released[i].sender,
                            from_encrypted_room: enc,
                        })
                } else {
                    match event_json {
                        Some(v) => {
                            &&& forall|j: int, l: int|
                                0 <= j < l < out@.len() ==> (#[trigger] out@[j])@.mxc
                                    != (#[trigger] out@[l])@.mxc
                            &&& out@.map_values(|c: RetentionCandidate| c.mxc).map_values(
                                |x: String| x@,
                            ).to_set() == mxcs_of(*v)
                            &&& forall|j: int|
                                0 <= j < out@.len() ==> (#[trigger] out@[j])@.room_id
                                    == event_room(Some(*v)) && out@[j]@.sender is None
                                    && out@[j]@.from_encrypted_room == enc
                        },
                        None => out@.len() == 0,
                    }
                }
            }),
    {
        let enc = match event_json {
            Some(v) => crate::json::event_is_encrypted(v),
            None => false,
        };
        let triples = self.decrement_refcount_on_redaction(event_id, now_secs);
        let ghost released = if old(self).mer_map().contains_key(event_id@) {
            apply_dec_rows(
                old(self).mref_map(),
                old(self).mer_map()[event_id@],
                now_secs,
                old(self).policy_spec(),
            ).1
        } else {
            Seq::<MerView>::empty()
        };
        proof {
            if old(self).mer_map().contains_key(event_id@) {
                assert(crate::engine::triple_views(triples@) == released.map_values(
                    |r: MerView| (r.mxc, r.room_id, r.sender),
                ));
            }
            assert(triples@.len() == released.len());
            assert forall|j: int|
                0 <= j < triples@.len() implies (#[trigger] triples@[j]).0@ == released[j].mxc
                && triples@[j].1@ == released[j].room_id && opt_view(triples@[j].2)
                == released[j].sender by {
                assert(crate::engine::triple_views(triples@)[j] == (
                    triples@[j].0@,
                    triples@[j].1@,
                    opt_view(triples@[j].2),
                ));
                assert(released.map_values(|r: MerView| (r.mxc, r.room_id, r.sender))[j] == (
                    released[j].mxc,
                    released[j].room_id,
                    released[j].sender,
                ));
            }
        }
        let mut out: Vec<RetentionCandidate> = Vec::new();
        if triples.len() > 0 {
            let n = triples.len();
            let mut i: usize = 0;
            while i < n
                invariant
                    n == triples@.len(),
                    0 <= i <= n,
                    out@.len() == i,
                    forall|j: int|
                        0 <= j < i ==> (#[trigger] out@[j])@ == (RetentionCandidateView {
                            mxc: triples@[j].0@,
                            room_id: Some(triples@[j].1@),
                            sender: opt_view(triples@[j].2),
                            from_encrypted_room: enc,
                        }),
                decreases n - i,
            {
                let t = &triples[i];
                let sender = match &t.2 {
                    Some(s) => Some(s.clone()),
                    None => None,
                };
                out.push(
                    RetentionCandidate {
                        mxc: t.0.clone(),
                        room_id: Some(t.1.clone()),
                        sender,
                        from_encrypted_room: enc,
                    },
                );
                i += 1;
            }
            proof {
                assert forall|i2: int|
                    0 <= i2 < released.len() implies (#[trigger] out@[i2])@
                    == (RetentionCandidateView {
                    mxc: released[i2].mxc,
                    room_id: Some(released[i2].room_id),
                    sender: released[i2].sender,
                    from_encrypted_room: enc,
                }) by {
                    assert(out@[i2]@ == (RetentionCandidateView {
                        mxc: triples@[i2].0@,
                        room_id: Some(triples@[i2].1@),
                        sender: opt_view(triples@[i2].2),
                        from_encrypted_room: enc,
                    }));
                }
            }
            return out;
        }
        if let Some(v) = event_json {
            let mut found: Vec<String> = Vec::new();
            crate::json::collect_mxcs(v, &mut found);
            let room = crate::json::get_text_field(v, "room_id");
            let n = found.len();
            let mut i: usize = 0;
            while i < n
                invariant
                    n == found@.len(),
                    0 <= i <= n,
                    out@.len() == i,
                    forall|j: int, l: int|
                        0 <= j < l < found@.len() ==> found@[j]@ != found@[l]@,
                    forall|j: int| 0 <= j < i ==> (#[trigger] out@[j]).mxc@ == found@[j]@,
                    forall|j: int|
                        0 <= j < i ==> (#[trigger] out@[j])@.room_id == (match room {
                            Some(ref rm) => Some(rm@),
                            None => None::<Seq<char>>,
                        }) && out@[j]@.sender is None && out@[j]@.from_encrypted_room == enc,
                decreases n - i,
            {
                let room_c = match &room {
                    Some(rm) => Some(rm.clone()),
                    None => None,
                };
                out.push(
                    RetentionCandidate {
                        mxc: found[i].clone(),
                        room_id: room_c,
                        sender: None,
                        from_encrypted_room: enc,
                    },
                );
                i += 1;
            }
            proof {
                assert(out@.map_values(|c: RetentionCandidate| c.mxc).map_values(|x: String| x@)
                    =~= found@.map_values(|x: String| x@));
                assert(str_set(found@) == mxcs_of(*v)) by {
                    assert(str_set(Seq::<String>::empty()) =~= Set::<Seq<char>>::empty());
                    assert(str_set(found@) =~= Set::<Seq<char>>::empty().union(mxcs_of(*v)));
                }
                assert(out@.map_values(|c: RetentionCandidate| c.mxc).map_values(
                    |x: String| x@,
                ).to_set() == mxcs_of(*v));
                assert(event_room(Some(*v)) == (match room {
                    Some(ref rm) => Some(rm@),
                    None => None::<Seq<char>>,
                }));
                assert(forall|j: int|
                    0 <= j < out@.len() ==> (#[trigger] out@[j])@.mxc == found@[j]@);
                assert(forall|j: int, l: int|
                    0 <= j < l < out@.len() ==> (#[trigger] out@[j])@.mxc
                        != (#[trigger] out@[l])@.mxc);
            }
        }
        out
    }

    /// Confirms a deletion through the check-mark reaction on the
    /// notification message: a reaction at an event no candidate points at
    /// is ignored and frees nothing.
    pub fn confirm_by_reaction(
        &mut self,
        requester: &str,
        notification_event_id: &str,
    ) -> (r: Result<(u64, Option<String>), RetentionError>)
        requires
            old(self).wf(),
        ensures
            final(self).wf(),
            (forall|k: Seq<char>| #[trigger]
                old(self).queue_map().contains_key(k) ==> old(self).queue_map()[k].notification_event_id != Some(notification_event_id@)) ==> r
                == Ok::<(u64, Option<String>), RetentionError>((0, None)) && *final(self)
                == *old(self),
            (exists|k: Seq<char>| #[trigger]
                old(self).queue_map().contains_key(k) && old(self).queue_map()[k].notification_event_id == Some(notification_event_id@)) ==>exists|
                k: Seq<char>,
            |
                #![trigger old(self).queue_map()[k]]
                old(self).queue_map().contains_key(k) && old(self).queue_map()[k].notification_event_id == Some(notification_event_id@)
                    && confirm_transition(*old(self), *final(self), k, requester@, r),
    {
        match self.find_mxc_by_notification_event(notification_event_id) {
            Some(mxc) => {
                let ghost k = mxc@;
                let r = self.confirm_candidate(mxc.as_str(), requester);
                proof {
                    assert(old(self).queue_map().contains_key(k) && old(self).queue_map()[k].notification_event_id == Some(notification_event_id@)
                        && confirm_transition(*old(self), *final(self), k, requester@, r));
                }
                r
            },
            None => Ok((0, None)),
        }
    }

    /// Cancels a deletion through the cross-mark reaction on the
    /// notification message: a reaction at an event no candidate points at
    /// is ignored.
    pub fn cancel_by_reaction(
        &mut self,
        requester: &str,
        notification_event_id: &str,
    ) -> (r: Result<Option<String>, RetentionError>)
        requires
            old(self).wf(),
        ensures
            final(self).wf(),
            (forall|k: Seq<char>| #[trigger]
                old(self).queue_map().contains_key(k) ==> old(self).queue_map()[k].notification_event_id != Some(notification_event_id@)) ==> r
                == Ok::<Option<String>, RetentionError>(None) && *final(self) == *old(self),
            (exists|k: Seq<char>| #[trigger]
                old(self).queue_map().contains_key(k) && old(self).queue_map()[k].notification_event_id == Some(notification_event_id@)) ==> exists|
                k: Seq<char>,
            |
                #![trigger old(self).queue_map()[k]]
                old(self).queue_map().contains_key(k) && old(self).queue_map()[k].notification_event_id == Some(notification_event_id@)
                    && cancel_transition(*old(self), *final(self), k, requester@, r),
    {
        match self.find_mxc_by_notification_event(notification_event_id) {
            Some(mxc) => {
                let ghost k = mxc@;
                let r = self.cancel_candidate(mxc.as_str(), requester);
                proof {
                    assert(old(self).queue_map().contains_key(k) && old(self).queue_map()[k].notification_event_id == Some(notification_event_id@)
                        && cancel_transition(*old(self), *final(self), k, requester@, r));
                }
                r
            },
            None => Ok(None),
        }
    }

    /// Enables auto-delete through the gear reaction on the notification
    /// message: a reaction at an event no candidate points at is ignored
    /// and frees nothing.
    pub fn auto_by_reaction(
        &mut self,
        requester: &str,
        notification_event_id: &str,
    ) -> (r: Result<(u64, Option<String>, Option<String>, bool), RetentionError>)
        requires
            old(self).wf(),
        ensures
            final(self).wf(),
            (forall|k: Seq<char>| #[trigger]
                old(self).queue_map().contains_key(k) ==> old(self).queue_map()[k].notification_event_id != Some(notification_event_id@)) ==> r
                == Ok::<(u64, Option<String>, Option<String>, bool), RetentionError>(
                (0, None, None, false),
            ) && *final(self) == *old(self),
            (exists|k: Seq<char>| #[trigger]
                old(self).queue_map().contains_key(k) && old(self).queue_map()[k].notification_event_id == Some(notification_event_id@)) ==> exists|
                k: Seq<char>,
            |
                #![trigger old(self).queue_map()[k]]
                old(self).queue_map().contains_key(k) && old(self).queue_map()[k].notification_event_id == Some(notification_event_id@)
                    && auto_transition(*old(self), *final(self), k, requester@, r),
    {
        match self.find_mxc_by_notification_event(notification_event_id) {
            Some(mxc) => {
                let ghost k = mxc@;
                let r = self.auto_delete_candidate(mxc.as_str(), requester);
                proof {
                    assert(old(self).queue_map().contains_key(k) && old(self).queue_map()[k].notification_event_id == Some(notification_event_id@)
                        && auto_transition(*old(self), *final(self), k, requester@, r));
                }
                r
            },
            None => Ok((0, None, None, false)),
        }
    }

    /// Dispatches one redaction-released candidate: the sender's standing
    /// auto-delete flag is consulted first, and when it is set the delete
    /// subroutine runs at once, before any evaluation; otherwise the
    /// evaluator decides among a silent queue entry, a notice to the owner,
    /// and keeping the media.  A set flag on a malformed identifier is
    /// rejected and changes nothing.
    pub fn dispatch_redaction_candidate(
        &mut self,
        c: &RetentionCandidate,
        event_json: Option<&JsonValue>,
        owner_pref_doc: Option<&JsonValue>,
        now_secs: u64,
    ) -> (r: Result<DispatchOutcome, RetentionError>)
        requires
            old(self).wf(),
        ensures
            final(self).wf(),
            final(self).mer_map() == old(self).mer_map(),
            final(self).pending_map() == old(self).pending_map(),
            final(self).owner_map() == old(self).owner_map(),
            final(self).media_key_map() == old(self).media_key_map(),
            final(self).same_config(old(self)),
            old(self).auto_delete_spec(c@) && crate::mxc::is_valid_mxc(c@.mxc) ==> ({
                let keys = if old(self).media_key_map().contains_key(c@.mxc) {
                    old(self).media_key_map()[c@.mxc]
                } else {
                    Seq::empty()
                };
                let removed = crate::engine::remove_blobs(
                    old(self).blob_map(),
                    crate::engine::blob_names_of(keys),
                );
                &&& r == Ok::<DispatchOutcome, RetentionError>(
                    DispatchOutcome::Deleted(removed.1),
                )
                &&& final(self).blob_map() == removed.0
                &&& final(self).queue_map() == old(self).queue_map().remove(c@.mxc)
                &&& final(self).mref_map() == old(self).mref_map().remove(c@.mxc)
                &&& final(self).prefs_map() == old(self).prefs_map()
            }),
            old(self).auto_delete_spec(c@) && !crate::mxc::is_valid_mxc(c@.mxc) ==> r
                == Err::<DispatchOutcome, RetentionError>(RetentionError::BadRequest) && *final(self) == *old(self),
            !old(self).auto_delete_spec(c@) ==> ({
                let d = old(self).decision_spec(
                    c@,
                    match event_json {
                        Some(v) => Some(*v),
                        None => None,
                    },
                    match owner_pref_doc {
                        Some(v) => Some(*v),
                        None => None,
                    },
                );
                &&& final(self).prefs_map() == old(self).prefs_map()
                &&& final(self).blob_map() == old(self).blob_map()
                &&& final(self).mref_map() == old(self).mref_map()
                &&& d.0 == CandidateAction::DeleteImmediately ==> r == Ok::<
                    DispatchOutcome,
                    RetentionError,
                >(DispatchOutcome::QueuedSilently) && final(self).queue_map() == old(self).queue_map().insert(
                    c@.mxc,
                    crate::records::CandView {
                        mxc: c@.mxc,
                        enqueued_ts: now_secs,
                        user_id: d.1,
                        awaiting_confirmation: false,
                        notification_event_id: None,
                        confirm_reaction_id: None,
                        cancel_reaction_id: None,
                        auto_reaction_id: None,
                        from_encrypted_room: c@.from_encrypted_room,
                    },
                )
                &&& d.0 == CandidateAction::AwaitConfirmation ==> (r matches Ok(out) && out
                    matches DispatchOutcome::NotifyOwner(owner, text) && Some(owner@) == d.1
                    && text@ == crate::notice::notice_of(
                    RetentionCandidateView {
                        mxc: c@.mxc,
                        room_id: c@.room_id,
                        sender: None,
                        from_encrypted_room: c@.from_encrypted_room,
                    },
                    event_ts(
                        match event_json {
                            Some(v) => Some(*v),
                            None => None,
                        },
                    ),
                ) && final(self).queue_map() == old(self).queue_map())
                &&& d.0 == CandidateAction::Skip ==> r == Ok::<
                    DispatchOutcome,
                    RetentionError,
                >(DispatchOutcome::Skipped) && final(self).queue_map() == old(self).queue_map()
            }),
    {
        if self.should_auto_delete(c) {
            return match self.delete_media(c.mxc.as_str()) {
                Ok(freed) => Ok(DispatchOutcome::Deleted(freed)),
                Err(e) => Err(e),
            };
        }
        let decision = self.evaluate_retention_candidate(c, event_json, owner_pref_doc);
        match decision.action {
            CandidateAction::DeleteImmediately => {
                let owner = match &decision.owner {
                    Some(o) => Some(o.as_str()),
                    None => None,
                };
                self.queue_media_for_deletion(
                    c.mxc.as_str(),
                    owner,
                    false,
                    None,
                    None,
                    None,
                    None,
                    c.from_encrypted_room,
                    now_secs,
                );
                Ok(DispatchOutcome::QueuedSilently)
            },
            CandidateAction::AwaitConfirmation => {
                let owner = match decision.owner {
                    Some(o) => o,
                    None => {
                        proof {
                            assert(false);
                        }
                        return Ok(DispatchOutcome::Skipped);
                    },
                };
                let ts = event_timestamp(event_json);
                let body = crate::notice::build_retention_notice(
                    c.mxc.as_str(),
                    c.room_id.as_ref(),
                    c.from_encrypted_room,
                    ts,
                );
                Ok(DispatchOutcome::NotifyOwner(owner, body))
            },
            CandidateAction::Skip => Ok(DispatchOutcome::Skipped),
        }
    }

    /// The `confirm` user command: confirms the deletion as the sender and
    /// words the outcome; the cancel reaction to redact rides along.
    pub fn cmd_confirm(&mut self, sender: &str, mxc: &str) -> (r: Result<
        (String, Option<String>),
        RetentionError,
    >)
        requires
            old(self).wf(),
        ensures
            final(self).wf(),
            match r {
                Ok(out) => exists|freed: u64|
                    #![trigger crate::notice::confirm_summary_of(mxc@, freed)]
                    confirm_transition(
                        *old(self),
                        *final(self),
                        mxc@,
                        sender@,
                        Ok((freed, out.1)),
                    ) && out.0@ == crate::notice::confirm_summary_of(mxc@, freed),
                Err(e) => confirm_transition(
                    *old(self),
                    *final(self),
                    mxc@,
                    sender@,
                    Err(e),
                ),
            },
    {
        match self.confirm_candidate(mxc, sender) {
            Ok((freed, cancel_id)) => {
                let text = crate::notice::build_confirm_summary(mxc, freed);
                Ok((text, cancel_id))
            },
            Err(e) => Err(e),
        }
    }

    /// The `prefs-show` user command: words the sender's current flags.
    pub fn cmd_prefs_show(&self, sender: &str) -> (r: String)
        requires
            self.wf(),
        ensures
            r@ == crate::notice::prefs_summary_of(prefs_or_default(self.prefs_map(), sender@)),
    {
        let prefs = self.get_user_prefs(sender);
        crate::notice::build_prefs_summary(&prefs)
    }

    /// One `prefs-…-on`/`-off` user command: stores the chosen flag and
    /// words the change.
    pub fn cmd_prefs_set(&mut self, sender: &str, encrypted: bool, value: bool) -> (r: String)
        requires
            old(self).wf(),
        ensures
            final(self).wf(),
            ({
                let prefs0 = prefs_or_default(old(self).prefs_map(), sender@);
                let prefs1 = if encrypted {
                    crate::records::UserRetentionPrefs {
                        auto_delete_unencrypted: prefs0.auto_delete_unencrypted,
                        auto_delete_encrypted: value,
                    }
                } else {
                    crate::records::UserRetentionPrefs {
                        auto_delete_unencrypted: value,
                        auto_delete_encrypted: prefs0.auto_delete_encrypted,
                    }
                };
                final(self).prefs_map() == old(self).prefs_map().insert(sender@, prefs1)
            }),
            final(self).mref_map() == old(self).mref_map(),
            final(self).mer_map() == old(self).mer_map(),
            final(self).queue_map() == old(self).queue_map(),
            final(self).pending_map() == old(self).pending_map(),
            final(self).owner_map() == old(self).owner_map(),
            final(self).media_key_map() == old(self).media_key_map(),
            final(self).blob_map() == old(self).blob_map(),
            final(self).same_config(old(self)),
            r@ == (if value {
                "Enabled auto-delete for "@
            } else {
                "Disabled auto-delete for "@
            }) + (if encrypted {
                "encrypted"@
            } else {
                "unencrypted"@
            }) + " rooms."@,
    {
        let mut prefs = self.get_user_prefs(sender);
        if encrypted {
            prefs.auto_delete_encrypted = value;
        } else {
            prefs.auto_delete_unencrypted = value;
        }
        self.set_user_prefs(sender, &prefs);
        let mut r = if value {
            <String as vstd::string::StringExecFns>::from_str("Enabled auto-delete for ")
        } else {
            <String as vstd::string::StringExecFns>::from_str("Disabled auto-delete for ")
        };
        if encrypted {
            <String as vstd::string::StringExecFns>::append(&mut r, "encrypted");
        } else {
            <String as vstd::string::StringExecFns>::append(&mut r, "unencrypted");
        }
        <String as vstd::string::StringExecFns>::append(&mut r, " rooms.");
        proof {
            assert(r@ =~= (if value {
                "Enabled auto-delete for "@
            } else {
                "Disabled auto-delete for "@
            }) + (if encrypted {
                "encrypted"@
            } else {
                "unencrypted"@
            }) + " rooms."@);
        }
        r
    }

    /// The `prefs-reset` user command: switches both flags off and words
    /// the change.
    pub fn cmd_prefs_reset(&mut self, sender: &str) -> (r: String)
        requires
            old(self).wf(),
        ensures
            final(self).wf(),
            final(self).prefs_map() == old(self).prefs_map().insert(
                sender@,
                crate::records::UserRetentionPrefs {
                    auto_delete_unencrypted: false,
                    auto_delete_encrypted: false,
                },
            ),
            final(self).mref_map() == old(self).mref_map(),
            final(self).mer_map() == old(self).mer_map(),
            final(self).queue_map() == old(self).queue_map(),
            final(self).pending_map() == old(self).pending_map(),
            final(self).owner_map() == old(self).owner_map(),
            final(self).media_key_map() == old(self).media_key_map(),
            final(self).blob_map() == old(self).blob_map(),
            final(self).same_config(old(self)),
            r@ == "Reset all auto-delete preferences. All auto-delete settings disabled."@,
    {
        let prefs = crate::records::UserRetentionPrefs {
            auto_delete_unencrypted: false,
            auto_delete_encrypted: false,
        };
        self.set_user_prefs(sender, &prefs);
        <String as vstd::string::StringExecFns>::from_str(
            "Reset all auto-delete preferences. All auto-delete settings disabled.",
        )
    }
}

} // verus!
