use media_retention::codec::{
    decode_candidate, decode_media_ref, decode_mer, decode_pending, decode_prefs,
    encode_candidate, encode_media_ref, encode_mer, encode_pending, encode_prefs,
};
use media_retention::engine::Retention;
use media_retention::records::{
    DeletionCandidate, MediaEventRef, MediaRef, PendingUpload, RetentionPolicy,
    UserRetentionPrefs,
};

#[test]
fn media_ref_round_trip() {
    let v = MediaRef { refcount: 3, local: true, first_seen_ts: 100, last_seen_ts: 2_000_000_000 };
    let bytes = encode_media_ref(&v);
    let back = decode_media_ref(&bytes).expect("round trip");
    assert_eq!(back.refcount, 3);
    assert!(back.local);
    assert_eq!(back.first_seen_ts, 100);
    assert_eq!(back.last_seen_ts, 2_000_000_000);

    let negative = MediaRef { refcount: -7, local: false, first_seen_ts: 0, last_seen_ts: 0 };
    let back = decode_media_ref(&encode_media_ref(&negative)).expect("round trip");
    assert_eq!(back.refcount, -7);
    assert!(!back.local);
}

#[test]
fn prefs_round_trip() {
    for (u, e) in [(false, false), (true, false), (false, true), (true, true)] {
        let v = UserRetentionPrefs { auto_delete_unencrypted: u, auto_delete_encrypted: e };
        let back = decode_prefs(&encode_prefs(&v)).expect("round trip");
        assert_eq!(back, v);
    }
}

#[test]
fn pending_round_trip() {
    let v = PendingUpload {
        mxc: "mxc://srv/B".to_string(),
        user_id: "@alice:srv".to_string(),
        upload_ts: 1_700_000_000_123,
    };
    let bytes = encode_pending(&v);
    let back = decode_pending(&bytes).expect("round trip");
    assert_eq!(back.mxc, "mxc://srv/B");
    assert_eq!(back.user_id, "@alice:srv");
    assert_eq!(back.upload_ts, 1_700_000_000_123);
}

#[test]
fn mer_round_trip() {
    let v = MediaEventRef {
        mxc: "mxc://srv/A".to_string(),
        room_id: "!room:srv".to_string(),
        kind: "content.url".to_string(),
        sender: Some("@alice:srv".to_string()),
    };
    let back = decode_mer(&encode_mer(&v)).expect("round trip");
    assert_eq!(back.mxc, v.mxc);
    assert_eq!(back.room_id, v.room_id);
    assert_eq!(back.kind, v.kind);
    assert_eq!(back.sender, v.sender);

    let legacy = MediaEventRef {
        mxc: "mxc://srv/\u{00e9}\u{4e16}".to_string(),
        room_id: String::new(),
        kind: "thumbnail_url".to_string(),
        sender: None,
    };
    let back = decode_mer(&encode_mer(&legacy)).expect("round trip");
    assert_eq!(back.mxc, legacy.mxc);
    assert_eq!(back.room_id, "");
    assert_eq!(back.sender, None);
}

#[test]
fn candidate_round_trip() {
    let v = DeletionCandidate {
        mxc: "mxc://srv/A".to_string(),
        enqueued_ts: 1_700_000_000,
        user_id: Some("@alice:srv".to_string()),
        awaiting_confirmation: true,
        notification_event_id: Some("$notice".to_string()),
        confirm_reaction_id: Some("$confirm".to_string()),
        cancel_reaction_id: None,
        auto_reaction_id: Some("$auto".to_string()),
        from_encrypted_room: true,
    };
    let bytes = encode_candidate(&v);
    let back = decode_candidate(&bytes).expect("round trip");
    assert_eq!(back.mxc, v.mxc);
    assert_eq!(back.enqueued_ts, v.enqueued_ts);
    assert_eq!(back.user_id, v.user_id);
    assert_eq!(back.awaiting_confirmation, v.awaiting_confirmation);
    assert_eq!(back.notification_event_id, v.notification_event_id);
    assert_eq!(back.confirm_reaction_id, v.confirm_reaction_id);
    assert_eq!(back.cancel_reaction_id, v.cancel_reaction_id);
    assert_eq!(back.auto_reaction_id, v.auto_reaction_id);
    assert_eq!(back.from_encrypted_room, v.from_encrypted_room);
}

#[test]
fn malformed_records_rejected() {
    assert!(decode_media_ref(&[]).is_none());
    assert!(decode_prefs(&[5, 0]).is_none(), "truncated record");
    assert!(decode_prefs(&[9, 0, 0]).is_none(), "unknown tag");
    assert!(decode_pending(&[3, 0, 0, 0, 0, 0, 0, 0, 9]).is_none(), "length overruns");
    let mut bytes = encode_media_ref(&MediaRef {
        refcount: 1,
        local: false,
        first_seen_ts: 0,
        last_seen_ts: 0,
    });
    bytes.push(0);
    assert!(decode_media_ref(&bytes).is_none(), "trailing bytes");
}

#[test]
fn queue_survives_restart() {
    let mut eng = Retention::new(RetentionPolicy::AskSender, 5, "srv".to_string(), false);
    eng.queue_media_for_deletion(
        "mxc://srv/A",
        Some("@alice:srv"),
        true,
        Some("$notice".to_string()),
        Some("$confirm".to_string()),
        Some("$cancel".to_string()),
        Some("$auto".to_string()),
        true,
        42,
    );
    eng.queue_media_for_deletion(
        "mxc://srv/B", None, false, None, None, None, None, false, 43,
    );
    let stored = eng.export_queue();
    assert_eq!(stored.len(), 2);

    let mut fresh = Retention::new(RetentionPolicy::AskSender, 5, "srv".to_string(), false);
    for record in &stored {
        assert!(fresh.import_candidate(record));
    }
    assert_eq!(
        fresh.find_mxc_by_notification_event("$notice").as_deref(),
        Some("mxc://srv/A")
    );
    // The restored candidate still enforces ownership.
    assert!(fresh.confirm_candidate("mxc://srv/A", "@mallory:srv").is_err());
}
