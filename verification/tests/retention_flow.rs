use media_retention::engine::Retention;
use media_retention::facade::DispatchOutcome;
use media_retention::json::JsonValue;
use media_retention::notice::build_retention_notice;
use media_retention::records::{
    RetentionCandidate, RetentionError, RetentionPolicy, UserRetentionPrefs,
};

fn engine(policy: &str, grace: u64) -> Retention {
    Retention::new(RetentionPolicy::from_str(policy), grace, "srv".to_string(), true)
}

fn event_json(event_type: &str, room: &str, sender: &str, url: &str) -> JsonValue {
    JsonValue::Obj(vec![
        ("type".to_string(), JsonValue::Text(event_type.to_string())),
        ("room_id".to_string(), JsonValue::Text(room.to_string())),
        ("sender".to_string(), JsonValue::Text(sender.to_string())),
        (
            "content".to_string(),
            JsonValue::Obj(vec![("url".to_string(), JsonValue::Text(url.to_string()))]),
        ),
    ])
}

/// Runs the redaction path the way the event pipeline would: the engine
/// collects and dispatches every candidate; this harness only plays the
/// user room, handing fixed event identifiers to the recording step.
fn redact_interactively(
    eng: &mut Retention,
    event_id: &str,
    json: Option<&JsonValue>,
    now: u64,
    notification_event_id: &str,
) -> Vec<RetentionCandidate> {
    let candidates = eng.on_redaction_candidates(event_id, json, now);
    for cand in candidates.iter() {
        match eng
            .dispatch_redaction_candidate(cand, json, None, now)
            .expect("well-formed identifiers in these scenarios")
        {
            DispatchOutcome::NotifyOwner(owner, _body) => {
                eng.queue_media_for_deletion(
                    cand.mxc.as_str(),
                    Some(owner.as_str()),
                    true,
                    Some(notification_event_id.to_string()),
                    Some("$confirm".to_string()),
                    Some("$cancel".to_string()),
                    Some("$auto".to_string()),
                    cand.from_encrypted_room,
                    now,
                );
            }
            DispatchOutcome::Deleted(_)
            | DispatchOutcome::QueuedSilently
            | DispatchOutcome::Skipped => {}
        }
    }
    candidates
}

#[test]
fn basic_delete_if_unreferenced() {
    // S1: insert one reference, redact, expect a candidate awaiting
    // confirmation with the blob untouched.
    let mut eng = engine("delete_if_unreferenced", 0);
    eng.create("mxc://srv/A", Some("@alice:srv"), "mxc://srv/A", 100);
    let json = event_json("m.room.message", "!room:srv", "@alice:srv", "mxc://srv/A");
    let refs = vec![("mxc://srv/A".to_string(), true, "content.url".to_string())];
    eng.record_event_refs("E1", "!room:srv", "@alice:srv", &refs, 10);
    let mr = eng.get_media_ref("mxc://srv/A").expect("reference recorded");
    assert_eq!(mr.refcount, 1);
    assert!(mr.local);

    let candidates = redact_interactively(&mut eng, "E1", Some(&json), 20, "$notice1");
    assert_eq!(candidates.len(), 1);
    assert_eq!(candidates[0].mxc, "mxc://srv/A");

    let found = eng.find_mxc_by_notification_event("$notice1");
    assert_eq!(found.as_deref(), Some("mxc://srv/A"));

    // The blob is still present: deleting now would free its bytes.
    let (deleted, freed) = eng.process_deletion_queue(100);
    assert!(deleted.is_empty());
    assert_eq!(freed, 0);
}

#[test]
fn confirm_via_reaction() {
    // S2 after S1: the check-mark reaction deletes the blob and both rows
    // and reports the cancel reaction for cleanup.
    let mut eng = engine("delete_if_unreferenced", 0);
    eng.create("mxc://srv/A", Some("@alice:srv"), "mxc://srv/A", 100);
    let json = event_json("m.room.message", "!room:srv", "@alice:srv", "mxc://srv/A");
    let refs = vec![("mxc://srv/A".to_string(), true, "content.url".to_string())];
    eng.record_event_refs("E1", "!room:srv", "@alice:srv", &refs, 10);
    redact_interactively(&mut eng, "E1", Some(&json), 20, "$notice1");

    let (freed, cancel_id) = eng
        .confirm_by_reaction("@alice:srv", "$notice1")
        .expect("confirmation succeeds");
    assert_eq!(freed, 200, "hashed file and legacy link both freed");
    assert_eq!(cancel_id.as_deref(), Some("$cancel"));
    assert!(eng.get_media_ref("mxc://srv/A").is_none());
    assert!(eng.find_mxc_by_notification_event("$notice1").is_none());

    // P6: a second deletion of the same media frees nothing and is no
    // error.
    let freed_again = eng.delete_media("mxc://srv/A").expect("idempotent");
    assert_eq!(freed_again, 0);
}

#[test]
fn grace_expiry_on_remote() {
    // S3: a remote owner's candidate is queued silently and reclaimed only
    // after the grace period.
    let mut eng = engine("delete_if_unreferenced", 5);
    eng.create("mxc://srv/B", Some("@bob:other-srv"), "mxc://srv/B", 70);
    let refs = vec![("mxc://srv/B".to_string(), true, "content.url".to_string())];
    eng.record_event_refs("E2", "!room:srv", "@bob:other-srv", &refs, 0);
    let candidates = redact_interactively(&mut eng, "E2", None, 0, "$unused");
    assert_eq!(candidates.len(), 1);

    let (deleted, freed) = eng.process_deletion_queue(4);
    assert!(deleted.is_empty(), "candidate inside grace period is kept");
    assert_eq!(freed, 0);

    let (deleted, freed) = eng.process_deletion_queue(6);
    assert_eq!(deleted, vec!["mxc://srv/B".to_string()]);
    assert_eq!(freed, 140, "hashed file and legacy link both freed");
    assert!(eng.get_media_ref("mxc://srv/B").is_none());
}

#[test]
fn auto_delete_via_reaction() {
    // S4: the gear reaction stores the flag for unencrypted rooms, deletes
    // the blob, and reports both reactions for cleanup.
    let mut eng = engine("delete_if_unreferenced", 0);
    eng.create("mxc://srv/A", Some("@alice:srv"), "mxc://srv/A", 50);
    let json = event_json("m.room.message", "!room:srv", "@alice:srv", "mxc://srv/A");
    let refs = vec![("mxc://srv/A".to_string(), true, "content.url".to_string())];
    eng.record_event_refs("E1", "!room:srv", "@alice:srv", &refs, 10);
    redact_interactively(&mut eng, "E1", Some(&json), 20, "$notice1");

    let (freed, confirm_id, cancel_id, from_encrypted) = eng
        .auto_by_reaction("@alice:srv", "$notice1")
        .expect("auto-delete succeeds");
    assert_eq!(freed, 100);
    assert_eq!(confirm_id.as_deref(), Some("$confirm"));
    assert_eq!(cancel_id.as_deref(), Some("$cancel"));
    assert!(!from_encrypted);

    let prefs = eng.get_user_prefs("@alice:srv");
    assert!(prefs.auto_delete_unencrypted);
    assert!(!prefs.auto_delete_encrypted);
}

#[test]
fn encrypted_event_association() {
    // S5: a tracked upload is consumed by an encrypted event within the
    // window, recorded as a reference, and redaction flags the candidate
    // as encrypted; the notice carries the warning.
    let mut eng = engine("ask_sender", 0);
    eng.create("mxc://srv/B", Some("@alice:srv"), "mxc://srv/B", 10);
    eng.track_pending_upload("@alice:srv", "mxc://srv/B", 1000);
    let refs = eng.consume_pending_uploads("@alice:srv", 5000);
    assert_eq!(
        refs,
        vec![("mxc://srv/B".to_string(), true, "encrypted.media".to_string())]
    );
    eng.record_event_refs("E3", "!room:srv", "@alice:srv", &refs, 5);
    let mr = eng.get_media_ref("mxc://srv/B").expect("reference recorded");
    assert_eq!(mr.refcount, 1);

    let json = JsonValue::Obj(vec![
        ("type".to_string(), JsonValue::Text("m.room.encrypted".to_string())),
        ("room_id".to_string(), JsonValue::Text("!room:srv".to_string())),
        ("sender".to_string(), JsonValue::Text("@alice:srv".to_string())),
    ]);
    let candidates = redact_interactively(&mut eng, "E3", Some(&json), 20, "$notice3");
    assert_eq!(candidates.len(), 1);
    assert!(candidates[0].from_encrypted_room);

    let room = "!room:srv".to_string();
    let notice = build_retention_notice("mxc://srv/B", Some(&room), true, None);
    assert!(notice.contains("WARNING: This media was detected from an encrypted room"));
    let plain = build_retention_notice("mxc://srv/B", Some(&room), false, None);
    assert!(!plain.contains("WARNING"));
}

#[test]
fn keep_policy_is_noop() {
    // S6: under the keeping policy a redaction queues nothing.
    let mut eng = engine("keep", 0);
    eng.create("mxc://srv/A", Some("@alice:srv"), "mxc://srv/A", 100);
    let json = event_json("m.room.message", "!room:srv", "@alice:srv", "mxc://srv/A");
    let refs = vec![("mxc://srv/A".to_string(), true, "content.url".to_string())];
    eng.record_event_refs("E1", "!room:srv", "@alice:srv", &refs, 10);
    redact_interactively(&mut eng, "E1", Some(&json), 20, "$notice1");
    assert!(eng.find_mxc_by_notification_event("$notice1").is_none());
    let (deleted, freed) = eng.process_deletion_queue(1000);
    assert!(deleted.is_empty());
    assert_eq!(freed, 0);
}

#[test]
fn refcount_arithmetic() {
    // P2 on concrete values: duplicates count twice on insertion, and the
    // count clamps at zero on repeated decrements.
    let mut eng = engine("keep", 0);
    let refs = vec![
        ("mxc://srv/A".to_string(), true, "content.url".to_string()),
        ("mxc://srv/A".to_string(), true, "thumbnail_url".to_string()),
    ];
    eng.record_event_refs("E1", "!room:srv", "@alice:srv", &refs, 10);
    assert_eq!(eng.get_media_ref("mxc://srv/A").unwrap().refcount, 2);
    eng.record_event_refs("E2", "!room:srv", "@alice:srv", &refs, 11);
    assert_eq!(eng.get_media_ref("mxc://srv/A").unwrap().refcount, 4);

    eng.on_redaction_candidates("E1", None, 20);
    assert_eq!(eng.get_media_ref("mxc://srv/A").unwrap().refcount, 2);
    eng.on_redaction_candidates("E2", None, 21);
    assert_eq!(eng.get_media_ref("mxc://srv/A").unwrap().refcount, 0);
    // A redaction that finds no rows changes nothing and clamps nothing.
    eng.on_redaction_candidates("E1", None, 22);
    assert_eq!(eng.get_media_ref("mxc://srv/A").unwrap().refcount, 0);
}

#[test]
fn single_candidate_refreshes() {
    // P3 on concrete values: requeueing the same media overwrites the one
    // candidate and refreshes its timestamp.
    let mut eng = engine("delete_always", 10);
    eng.queue_media_for_deletion(
        "mxc://srv/A",
        Some("@alice:srv"),
        false,
        None,
        None,
        None,
        None,
        false,
        0,
    );
    eng.queue_media_for_deletion(
        "mxc://srv/A",
        Some("@alice:srv"),
        false,
        None,
        None,
        None,
        None,
        false,
        8,
    );
    // With the timer reset at 8 and a grace of 10, the sweep at 12 keeps
    // the candidate; at 18 it reclaims it.
    let (deleted, _) = eng.process_deletion_queue(12);
    assert!(deleted.is_empty());
    let (deleted, _) = eng.process_deletion_queue(18);
    assert_eq!(deleted, vec!["mxc://srv/A".to_string()]);
}

#[test]
fn owner_safety() {
    // P5: confirm, cancel and auto-enable all reject a requester other
    // than the recorded owner.
    let mut eng = engine("ask_sender", 0);
    eng.queue_media_for_deletion(
        "mxc://srv/A",
        Some("@alice:srv"),
        true,
        Some("$notice".to_string()),
        None,
        None,
        None,
        false,
        0,
    );
    assert_eq!(
        eng.confirm_candidate("mxc://srv/A", "@mallory:srv"),
        Err(RetentionError::Forbidden)
    );
    assert_eq!(
        eng.cancel_candidate("mxc://srv/A", "@mallory:srv"),
        Err(RetentionError::Forbidden)
    );
    assert_eq!(
        eng.auto_delete_candidate("mxc://srv/A", "@mallory:srv"),
        Err(RetentionError::Forbidden)
    );
    // The candidate survives the rejected requests.
    assert_eq!(
        eng.find_mxc_by_notification_event("$notice").as_deref(),
        Some("mxc://srv/A")
    );
}

#[test]
fn error_kinds() {
    let mut eng = engine("ask_sender", 0);
    assert_eq!(
        eng.confirm_candidate("mxc://srv/A", "@alice:srv"),
        Err(RetentionError::NotFound)
    );
    assert_eq!(
        eng.cancel_candidate("mxc://srv/A", "@alice:srv"),
        Err(RetentionError::NotFound)
    );

    // A candidate with an unknown owner is protected.
    eng.queue_media_for_deletion(
        "mxc://srv/O", None, true, None, None, None, None, false, 0,
    );
    assert_eq!(
        eng.confirm_candidate("mxc://srv/O", "@alice:srv"),
        Err(RetentionError::Forbidden)
    );

    // A candidate no longer awaiting confirmation is already processed.
    eng.queue_media_for_deletion(
        "mxc://srv/P",
        Some("@alice:srv"),
        false,
        None,
        None,
        None,
        None,
        false,
        0,
    );
    assert_eq!(
        eng.confirm_candidate("mxc://srv/P", "@alice:srv"),
        Err(RetentionError::AlreadyProcessed)
    );

    // A malformed identifier is rejected by the delete subroutine.
    assert_eq!(eng.delete_media("not-an-mxc"), Err(RetentionError::BadRequest));
    let msg = RetentionError::BadRequest.message();
    assert_eq!(msg, "invalid mxc");
}

#[test]
fn cancel_keeps_blob() {
    let mut eng = engine("ask_sender", 0);
    eng.create("mxc://srv/A", Some("@alice:srv"), "mxc://srv/A", 100);
    eng.queue_media_for_deletion(
        "mxc://srv/A",
        Some("@alice:srv"),
        true,
        Some("$notice".to_string()),
        Some("$confirm".to_string()),
        None,
        None,
        false,
        0,
    );
    let confirm_id = eng
        .cancel_candidate("mxc://srv/A", "@alice:srv")
        .expect("cancel succeeds");
    assert_eq!(confirm_id.as_deref(), Some("$confirm"));
    // The candidate row is gone, the blob is kept: a later delete still
    // frees its bytes.
    assert_eq!(
        eng.cancel_candidate("mxc://srv/A", "@alice:srv"),
        Err(RetentionError::NotFound)
    );
    assert_eq!(eng.delete_media("mxc://srv/A"), Ok(200));
}

#[test]
fn pending_window_edges() {
    // P7: an upload is matched exactly when
    // `event_ts - 60000 <= upload_ts <= event_ts`.
    let mut eng = engine("keep", 0);
    eng.track_pending_upload("@alice:srv", "mxc://srv/old", 39_999);
    eng.track_pending_upload("@alice:srv", "mxc://srv/edge", 40_000);
    eng.track_pending_upload("@alice:srv", "mxc://srv/now", 100_000);
    eng.track_pending_upload("@alice:srv", "mxc://srv/future", 100_001);
    let refs = eng.consume_pending_uploads("@alice:srv", 100_000);
    let mxcs: Vec<&str> = refs.iter().map(|r| r.0.as_str()).collect();
    assert_eq!(mxcs, ["mxc://srv/edge", "mxc://srv/now"]);
    for r in refs.iter() {
        assert!(r.1);
        assert_eq!(r.2, "encrypted.media");
    }
    // Too-old rows were dropped, the future row is still pending.
    let later = eng.consume_pending_uploads("@alice:srv", 100_001);
    let mxcs: Vec<&str> = later.iter().map(|r| r.0.as_str()).collect();
    assert_eq!(mxcs, ["mxc://srv/future"]);
}

#[test]
fn pending_cleanup_drops_old_rows() {
    let mut eng = engine("keep", 0);
    eng.track_pending_upload("@alice:srv", "mxc://srv/old", 1_000);
    eng.track_pending_upload("@alice:srv", "mxc://srv/new", 70_000);
    eng.cleanup_old_pending_uploads("@alice:srv", 70_000);
    let refs = eng.consume_pending_uploads("@alice:srv", 70_000);
    let mxcs: Vec<&str> = refs.iter().map(|r| r.0.as_str()).collect();
    assert_eq!(mxcs, ["mxc://srv/new"]);
}

#[test]
fn user_commands() {
    let mut eng = engine("ask_sender", 0);
    let shown = eng.cmd_prefs_show("@alice:srv");
    assert_eq!(
        shown,
        "Current auto-delete preferences:\n- Encrypted rooms: disabled \u{274c}\n- Unencrypted rooms: disabled \u{274c}"
    );
    let msg = eng.cmd_prefs_set("@alice:srv", true, true);
    assert_eq!(msg, "Enabled auto-delete for encrypted rooms.");
    let msg = eng.cmd_prefs_set("@alice:srv", false, true);
    assert_eq!(msg, "Enabled auto-delete for unencrypted rooms.");
    let shown = eng.cmd_prefs_show("@alice:srv");
    assert_eq!(
        shown,
        "Current auto-delete preferences:\n- Encrypted rooms: enabled \u{2705}\n- Unencrypted rooms: enabled \u{2705}"
    );
    let msg = eng.cmd_prefs_reset("@alice:srv");
    assert_eq!(
        msg,
        "Reset all auto-delete preferences. All auto-delete settings disabled."
    );
    let prefs = eng.get_user_prefs("@alice:srv");
    assert_eq!(
        prefs,
        UserRetentionPrefs { auto_delete_unencrypted: false, auto_delete_encrypted: false }
    );

    eng.create("mxc://srv/A", Some("@alice:srv"), "mxc://srv/A", 100);
    eng.queue_media_for_deletion(
        "mxc://srv/A",
        Some("@alice:srv"),
        true,
        None,
        None,
        None,
        None,
        false,
        0,
    );
    let (summary, _) = eng.cmd_confirm("@alice:srv", "mxc://srv/A").expect("confirm");
    assert_eq!(
        summary,
        "Confirmed deletion for mxc://srv/A. Removed 200 bytes of local media."
    );
}

#[test]
fn auto_delete_preference_skips_evaluation() {
    // A sender with the matching flag set goes straight to the delete
    // subroutine, even under a long grace period; the flag for the other
    // room class does not apply.
    let mut eng = engine("ask_sender", 3600);
    eng.create("mxc://srv/A", Some("@alice:srv"), "mxc://srv/A", 80);
    eng.set_user_prefs(
        "@alice:srv",
        &UserRetentionPrefs { auto_delete_unencrypted: true, auto_delete_encrypted: false },
    );
    let refs = vec![("mxc://srv/A".to_string(), true, "content.url".to_string())];
    eng.record_event_refs("E1", "!room:srv", "@alice:srv", &refs, 10);
    let candidates = eng.on_redaction_candidates("E1", None, 20);
    assert_eq!(candidates.len(), 1);
    assert!(eng.should_auto_delete(&candidates[0]));
    match eng
        .dispatch_redaction_candidate(&candidates[0], None, None, 20)
        .expect("valid identifier")
    {
        DispatchOutcome::Deleted(freed) => {
            assert_eq!(freed, 160, "hashed file and legacy link freed at once");
        }
        other => panic!("the set flag must delete immediately, not {other:?}"),
    }
    assert!(eng.get_media_ref("mxc://srv/A").is_none());
    assert_eq!(eng.delete_media("mxc://srv/A"), Ok(0));

    let encrypted = RetentionCandidate {
        mxc: "mxc://srv/B".to_string(),
        room_id: None,
        sender: Some("@alice:srv".to_string()),
        from_encrypted_room: true,
    };
    assert!(!eng.should_auto_delete(&encrypted));
}
