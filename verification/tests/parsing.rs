use base64::Engine as _;
use media_retention::hash::{encode_key, media_file_name, media_file_name_legacy};
use media_retention::json::{
    canonical_json_to_u64, collect_mxcs, parse_u64, parse_user_retention_preference, JsonValue,
};
use media_retention::mxc::{mxc_is_valid, parse_mxc, user_is_on_server};
use media_retention::notice::u64_to_dec_string;
use media_retention::records::{RetentionPolicy, UserRetentionPreference};
use sha2::Digest;

#[test]
fn policy_vocabularies() {
    assert_eq!(RetentionPolicy::from_str("keep"), RetentionPolicy::Keep);
    assert_eq!(RetentionPolicy::from_str("ask_sender"), RetentionPolicy::AskSender);
    assert_eq!(
        RetentionPolicy::from_str("delete_if_unreferenced"),
        RetentionPolicy::AskSender
    );
    assert_eq!(RetentionPolicy::from_str("delete_always"), RetentionPolicy::DeleteAlways);
    assert_eq!(
        RetentionPolicy::from_str("force_delete_local"),
        RetentionPolicy::DeleteAlways
    );
    assert_eq!(RetentionPolicy::from_str("anything else"), RetentionPolicy::Keep);
}

#[test]
fn mxc_grammar() {
    let (server, id) = parse_mxc("mxc://srv/A").expect("valid");
    assert_eq!(server, "srv");
    assert_eq!(id, "A");
    let (server, id) = parse_mxc("mxc://example.org/abc/def").expect("valid");
    assert_eq!(server, "example.org");
    assert_eq!(id, "abc/def");
    assert!(!mxc_is_valid(""));
    assert!(!mxc_is_valid("mxc://"));
    assert!(!mxc_is_valid("mxc:///id"));
    assert!(!mxc_is_valid("mxc://srv/"));
    assert!(!mxc_is_valid("mxc://srv"));
    assert!(!mxc_is_valid("http://srv/A"));
}

#[test]
fn user_locality() {
    assert!(user_is_on_server("@alice:srv", "srv"));
    assert!(!user_is_on_server("@bob:other-srv", "srv"));
    assert!(!user_is_on_server("alice", "srv"));
    assert!(user_is_on_server("@a:b:srv", "b:srv"));
}

#[test]
fn decimal_parse() {
    assert_eq!(parse_u64("0"), Some(0));
    assert_eq!(parse_u64("1234"), Some(1234));
    assert_eq!(parse_u64("+7"), Some(7));
    assert_eq!(parse_u64("007"), Some(7));
    assert_eq!(parse_u64(""), None);
    assert_eq!(parse_u64("+"), None);
    assert_eq!(parse_u64("12a"), None);
    assert_eq!(parse_u64("-3"), None);
    assert_eq!(parse_u64("18446744073709551615"), Some(u64::MAX));
    assert_eq!(parse_u64("18446744073709551616"), None);
    // The standard library agrees on these shapes.
    for s in ["0", "1234", "+7", "007", "", "+", "12a", "-3", "18446744073709551616"] {
        assert_eq!(parse_u64(s), s.parse::<u64>().ok(), "on {s:?}");
    }
}

#[test]
fn decimal_format() {
    assert_eq!(u64_to_dec_string(0), "0");
    assert_eq!(u64_to_dec_string(7), "7");
    assert_eq!(u64_to_dec_string(1234567890), "1234567890");
    assert_eq!(u64_to_dec_string(u64::MAX), "18446744073709551615");
}

#[test]
fn canonical_u64() {
    assert_eq!(canonical_json_to_u64(&JsonValue::UInt(42)), Some(42));
    assert_eq!(
        canonical_json_to_u64(&JsonValue::Text("1700000000000".to_string())),
        Some(1_700_000_000_000)
    );
    assert_eq!(canonical_json_to_u64(&JsonValue::Text("x".to_string())), None);
    assert_eq!(canonical_json_to_u64(&JsonValue::Null), None);
    assert_eq!(canonical_json_to_u64(&JsonValue::OtherNum), None);
}

#[test]
fn mxc_collection() {
    let doc = JsonValue::Obj(vec![
        ("url".to_string(), JsonValue::Text("mxc://srv/A".to_string())),
        (
            "nested".to_string(),
            JsonValue::Arr(vec![
                JsonValue::Text("mxc://srv/B".to_string()),
                JsonValue::Text("mxc://srv/A".to_string()),
                JsonValue::Text("not media".to_string()),
                JsonValue::UInt(3),
            ]),
        ),
        ("body".to_string(), JsonValue::Text("hello".to_string())),
    ]);
    let mut out = Vec::new();
    collect_mxcs(&doc, &mut out);
    assert_eq!(out, vec!["mxc://srv/A".to_string(), "mxc://srv/B".to_string()]);
}

#[test]
fn preference_documents() {
    let doc = JsonValue::Obj(vec![(
        "mode".to_string(),
        JsonValue::Text("delete".to_string()),
    )]);
    assert_eq!(
        parse_user_retention_preference(&doc),
        Some(UserRetentionPreference::Delete)
    );
    let doc = JsonValue::Obj(vec![("mode".to_string(), JsonValue::Text("auto".to_string()))]);
    assert_eq!(
        parse_user_retention_preference(&doc),
        Some(UserRetentionPreference::Delete)
    );
    let doc = JsonValue::Obj(vec![("mode".to_string(), JsonValue::Text("keep".to_string()))]);
    assert_eq!(
        parse_user_retention_preference(&doc),
        Some(UserRetentionPreference::Keep)
    );
    let doc = JsonValue::Obj(vec![("mode".to_string(), JsonValue::Text("ask".to_string()))]);
    assert_eq!(parse_user_retention_preference(&doc), Some(UserRetentionPreference::Ask));
    let doc = JsonValue::Obj(vec![(
        "mode".to_string(),
        JsonValue::Text("whatever".to_string()),
    )]);
    assert_eq!(parse_user_retention_preference(&doc), None);
    let doc = JsonValue::Obj(vec![("confirm_before_delete".to_string(), JsonValue::Bool(true))]);
    assert_eq!(parse_user_retention_preference(&doc), Some(UserRetentionPreference::Ask));
    let doc = JsonValue::Obj(vec![(
        "confirm_before_delete".to_string(),
        JsonValue::Bool(false),
    )]);
    assert_eq!(
        parse_user_retention_preference(&doc),
        Some(UserRetentionPreference::Delete)
    );
    let doc = JsonValue::Obj(vec![("retain".to_string(), JsonValue::Bool(true))]);
    assert_eq!(
        parse_user_retention_preference(&doc),
        Some(UserRetentionPreference::Keep)
    );
    let doc = JsonValue::Obj(vec![("retain".to_string(), JsonValue::Bool(false))]);
    assert_eq!(
        parse_user_retention_preference(&doc),
        Some(UserRetentionPreference::Delete)
    );
    assert_eq!(parse_user_retention_preference(&JsonValue::Null), None);
}

#[test]
fn blob_file_names() {
    // The hashed and legacy names agree with the hash and encoding the
    // store relies on; a wrapper handing its input back would fail here.
    let key = "mxc://srv/A";
    let digest = sha2::Sha256::digest(key.as_bytes());
    let expected_hashed =
        base64::engine::general_purpose::URL_SAFE_NO_PAD.encode(digest);
    let expected_legacy =
        base64::engine::general_purpose::URL_SAFE_NO_PAD.encode(key.as_bytes());
    assert_eq!(media_file_name(key), expected_hashed);
    assert_eq!(media_file_name_legacy(key), expected_legacy);
    assert_ne!(media_file_name(key), key);
    assert_eq!(encode_key(b"abc"), "YWJj");
    assert_eq!(encode_key(&[0xfb, 0xff]), "-_8");
}

#[test]
fn notice_text_exact() {
    let room = "!room:srv".to_string();
    let notice = media_retention::notice::build_retention_notice(
        "mxc://srv/A",
        Some(&room),
        false,
        Some(1_700_000_000_000),
    );
    assert_eq!(
        notice,
        "A piece of media (mxc://srv/A) you uploaded in room !room:srv at 1700000000000 is \
         pending deletion.\n\nReact with:\n\u{2705} to confirm deletion\n\u{274c} to keep \
         it\n\u{2699}\u{fe0f} to always auto-delete media in unencrypted rooms\n\n(You can also \
         run `!user retention confirm mxc://srv/A` to delete it manually.)"
    );
}
