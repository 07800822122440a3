//! The record families of the retention index, the retention policy, and the
//! error kinds surfaced by user-facing operations.

use vstd::prelude::*;
use vstd::string::StringExecFns;
use crate::strutil::str_eq;

verus! {

/// Per-user auto-delete flags.  An absent record means both are off.
#[derive(Clone, Copy, Debug, PartialEq, Eq, Structural)]
pub struct UserRetentionPrefs {
    /// Auto-delete media in unencrypted rooms without asking.
    pub auto_delete_unencrypted: bool,
    /// Auto-delete media in encrypted rooms without asking.  Detection of
    /// encrypted rooms is heuristic and may have false positives.
    pub auto_delete_encrypted: bool,
}

impl Default for UserRetentionPrefs {
    /// Both flags off.
    fn default() -> (r: Self)
        ensures
            !r.auto_delete_unencrypted,
            !r.auto_delete_encrypted,
    {
        UserRetentionPrefs { auto_delete_unencrypted: false, auto_delete_encrypted: false }
    }
}

/// An upload awaiting association with an encrypted event.
#[derive(Debug)]
pub struct PendingUpload {
    pub mxc: String,
    pub user_id: String,
    /// Milliseconds since the epoch.
    pub upload_ts: u64,
}

/// The reference count and provenance of one media identifier.
#[derive(Clone, Copy, Debug)]
pub struct MediaRef {
    pub refcount: i64,
    /// The media is hosted on this server.
    pub local: bool,
    /// Seconds since the epoch.
    pub first_seen_ts: u64,
    pub last_seen_ts: u64,
}

/// One media reference contributed by one event, keyed by the reference
/// kind: the JSON position where the identifier was found.
#[derive(Debug)]
pub struct MediaEventRef {
    pub mxc: String,
    pub room_id: String,
    pub kind: String,
    /// User who produced the event; absent on legacy records.
    pub sender: Option<String>,
}

/// A media identifier scheduled for possible deletion.
#[derive(Debug)]
pub struct DeletionCandidate {
    pub mxc: String,
    /// Seconds since the epoch.
    pub enqueued_ts: u64,
    /// The owner, when known.
    pub user_id: Option<String>,
    pub awaiting_confirmation: bool,
    /// Event id of the notification message sent to the owner's user room.
    pub notification_event_id: Option<String>,
    /// Event id of the confirm reaction.
    pub confirm_reaction_id: Option<String>,
    /// Event id of the cancel reaction.
    pub cancel_reaction_id: Option<String>,
    /// Event id of the always-auto reaction.
    pub auto_reaction_id: Option<String>,
    /// Whether the media was attributed to an encrypted room.
    pub from_encrypted_room: bool,
}

/// The characters of an optional string.
pub open spec fn opt_view(o: Option<String>) -> Option<Seq<char>> {
    match o {
        Some(s) => Some(s@),
        None => None,
    }
}

/// A pending upload, abstracted to its characters and timestamp.
pub struct PendingView {
    pub mxc: Seq<char>,
    pub user_id: Seq<char>,
    pub upload_ts: u64,
}

impl View for PendingUpload {
    type V = PendingView;

    open spec fn view(&self) -> PendingView {
        PendingView { mxc: self.mxc@, user_id: self.user_id@, upload_ts: self.upload_ts }
    }
}

impl Clone for PendingUpload {
    fn clone(&self) -> (r: Self)
        ensures
            r == *self,
    {
        PendingUpload {
            mxc: self.mxc.clone(),
            user_id: self.user_id.clone(),
            upload_ts: self.upload_ts,
        }
    }
}

impl View for MediaRef {
    type V = MediaRef;

    open spec fn view(&self) -> MediaRef {
        *self
    }
}

impl View for UserRetentionPrefs {
    type V = UserRetentionPrefs;

    open spec fn view(&self) -> UserRetentionPrefs {
        *self
    }
}

/// An event-contributed media reference, abstracted to its characters.
pub struct MerView {
    pub mxc: Seq<char>,
    pub room_id: Seq<char>,
    pub kind: Seq<char>,
    pub sender: Option<Seq<char>>,
}

impl View for MediaEventRef {
    type V = MerView;

    open spec fn view(&self) -> MerView {
        MerView {
            mxc: self.mxc@,
            room_id: self.room_id@,
            kind: self.kind@,
            sender: opt_view(self.sender),
        }
    }
}

/// A deletion candidate, abstracted to its characters, flags and timestamp.
pub struct CandView {
    pub mxc: Seq<char>,
    pub enqueued_ts: u64,
    pub user_id: Option<Seq<char>>,
    pub awaiting_confirmation: bool,
    pub notification_event_id: Option<Seq<char>>,
    pub confirm_reaction_id: Option<Seq<char>>,
    pub cancel_reaction_id: Option<Seq<char>>,
    pub auto_reaction_id: Option<Seq<char>>,
    pub from_encrypted_room: bool,
}

impl View for DeletionCandidate {
    type V = CandView;

    open spec fn view(&self) -> CandView {
        CandView {
            mxc: self.mxc@,
            enqueued_ts: self.enqueued_ts,
            user_id: opt_view(self.user_id),
            awaiting_confirmation: self.awaiting_confirmation,
            notification_event_id: opt_view(self.notification_event_id),
            confirm_reaction_id: opt_view(self.confirm_reaction_id),
            cancel_reaction_id: opt_view(self.cancel_reaction_id),
            auto_reaction_id: opt_view(self.auto_reaction_id),
            from_encrypted_room: self.from_encrypted_room,
        }
    }
}

/// A redaction-released reference, abstracted to its characters.
pub struct RetentionCandidateView {
    pub mxc: Seq<char>,
    pub room_id: Option<Seq<char>>,
    pub sender: Option<Seq<char>>,
    pub from_encrypted_room: bool,
}

impl View for RetentionCandidate {
    type V = RetentionCandidateView;

    open spec fn view(&self) -> RetentionCandidateView {
        RetentionCandidateView {
            mxc: self.mxc@,
            room_id: opt_view(self.room_id),
            sender: opt_view(self.sender),
            from_encrypted_room: self.from_encrypted_room,
        }
    }
}

/// The configured reaction to a redaction.
#[derive(Clone, Copy, Debug, PartialEq, Eq, Structural)]
pub enum RetentionPolicy {
    /// Never delete.
    Keep,
    /// Queue when the reference count reaches zero; also written
    /// `delete_if_unreferenced`.
    AskSender,
    /// Queue every local media reference; also written
    /// `force_delete_local`.
    DeleteAlways,
}

/// The policy named by a configuration string; anything unrecognised keeps.
pub open spec fn policy_of_str(s: Seq<char>) -> RetentionPolicy {
    if s == "ask_sender"@ || s == "delete_if_unreferenced"@ {
        RetentionPolicy::AskSender
    } else if s == "delete_always"@ || s == "force_delete_local"@ {
        RetentionPolicy::DeleteAlways
    } else {
        RetentionPolicy::Keep
    }
}

impl RetentionPolicy {
    /// Parses the configuration value, accepting both policy vocabularies.
    pub fn from_str(s: &str) -> (r: Self)
        ensures
            r == policy_of_str(s@),
    {
        if str_eq(s, "ask_sender") || str_eq(s, "delete_if_unreferenced") {
            RetentionPolicy::AskSender
        } else if str_eq(s, "delete_always") || str_eq(s, "force_delete_local") {
            RetentionPolicy::DeleteAlways
        } else {
            RetentionPolicy::Keep
        }
    }
}

/// The effective retention preference of a user, read from their
/// account-data document.
#[derive(Clone, Copy, Debug, PartialEq, Eq, Structural)]
pub enum UserRetentionPreference {
    Ask,
    Delete,
    Keep,
}

/// What the evaluator decides for one candidate.
#[derive(Clone, Copy, Debug, PartialEq, Eq, Structural)]
pub enum CandidateAction {
    DeleteImmediately,
    AwaitConfirmation,
    Skip,
}

/// A media reference that a redaction released.
#[derive(Debug)]
pub struct RetentionCandidate {
    pub mxc: String,
    pub room_id: Option<String>,
    /// User who uploaded the media, when known.
    pub sender: Option<String>,
    pub from_encrypted_room: bool,
}

/// The evaluator's decision together with the resolved owner.
#[derive(Debug)]
pub struct CandidateDecision {
    pub action: CandidateAction,
    pub owner: Option<String>,
}

/// Behavioural error categories of the user-facing operations.
#[derive(Clone, Copy, Debug, PartialEq, Eq, Structural)]
pub enum RetentionError {
    /// No candidate or record for the given media.
    NotFound,
    /// The requester is not the recorded owner, or the owner is unknown.
    Forbidden,
    /// The candidate is no longer awaiting confirmation.
    AlreadyProcessed,
    /// Malformed media identifier.
    BadRequest,
}

impl RetentionError {
    /// A user-readable description.
    pub fn message(&self) -> (r: String)
        ensures
            *self == RetentionError::NotFound ==> r@ == "no pending deletion for this media"@,
            *self == RetentionError::Forbidden ==> r@ == "media candidate owned by another user"@,
            *self == RetentionError::AlreadyProcessed ==> r@
                == "media deletion already processed"@,
            *self == RetentionError::BadRequest ==> r@ == "invalid mxc"@,
    {
        match self {
            RetentionError::NotFound => String::from_str("no pending deletion for this media"),
            RetentionError::Forbidden => String::from_str("media candidate owned by another user"),
            RetentionError::AlreadyProcessed => String::from_str(
                "media deletion already processed",
            ),
            RetentionError::BadRequest => String::from_str("invalid mxc"),
        }
    }
}

} // verus!
