//! The texts the engine sends to users: the deletion notice with its three
//! reaction options, the auto-delete confirmations, and the command
//! summaries.  Each is specified as the exact character sequence it
//! denotes.

use vstd::prelude::*;
use vstd::string::StringExecFns;
use vstd::string::StrSliceExecFns;
use crate::records::{RetentionCandidateView, UserRetentionPrefs};

verus! {

/// The decimal digits of a number, most significant first.
pub open spec fn dec_str(x: u64) -> Seq<char>
    decreases x,
{
    let digit = "0123456789"@[x as int % 10];
    if x < 10 {
        seq![digit]
    } else {
        dec_str(x / 10).push(digit)
    }
}

/// Writes a number in decimal.
pub fn u64_to_dec_string(x: u64) -> (r: String)
    ensures
        r@ == dec_str(x),
    decreases x,
{
    proof {
        reveal_strlit("0123456789");
    }
    let digits = "0123456789";
    let d = (x % 10) as usize;
    let ds = digits.substring_ascii(d, d + 1);
    if x < 10 {
        let r = ds.to_owned();
        proof {
            assert(r@ =~= dec_str(x));
        }
        r
    } else {
        let mut r = u64_to_dec_string(x / 10);
        r.append(ds);
        proof {
            assert(r@ =~= dec_str(x));
        }
        r
    }
}

/// The notice sent to an owner when one of their uploads is pending
/// deletion: it names the media, the room and timestamp when known, warns
/// about the encryption heuristic when it applied, and offers the three
/// reactions.
pub open spec fn notice_of(c: RetentionCandidateView, ts: Option<u64>) -> Seq<char> {
    "A piece of media ("@ + c.mxc + ") you uploaded"@ + (match c.room_id {
        Some(room) => " in room "@ + room,
        None => Seq::<char>::empty(),
    }) + (match ts {
        Some(t) => " at "@ + dec_str(t),
        None => Seq::<char>::empty(),
    }) + " is pending deletion."@ + (if c.from_encrypted_room {
        "\n\n\u{26a0}\u{fe0f} WARNING: This media was detected from an encrypted room based on upload timing. Detection may have false positives since the server cannot read encrypted messages. Use auto-delete at your own risk."@
    } else {
        Seq::<char>::empty()
    }) + "\n\nReact with:\n\u{2705} to confirm deletion\n\u{274c} to keep it\n\u{2699}\u{fe0f} to always auto-delete media in "@
        + (if c.from_encrypted_room {
        "encrypted rooms"@
    } else {
        "unencrypted rooms"@
    }) + "\n\n(You can also run `!user retention confirm "@ + c.mxc
        + "` to delete it manually.)"@
}

/// Composes the deletion notice.
pub fn build_retention_notice(
    mxc: &str,
    room_id: Option<&String>,
    from_encrypted_room: bool,
    ts: Option<u64>,
) -> (r: String)
    ensures
        r@ == notice_of(
            RetentionCandidateView {
                mxc: mxc@,
                room_id: match room_id {
                    Some(room) => Some(room@),
                    None => None,
                },
                sender: None,
                from_encrypted_room: from_encrypted_room,
            },
            ts,
        ),
{
    let mut r = String::from_str("A piece of media (");
    r.append(mxc);
    r.append(") you uploaded");
    match room_id {
        Some(room) => {
            r.append(" in room ");
            r.append(room.as_str());
        },
        None => {},
    }
    match ts {
        Some(t) => {
            r.append(" at ");
            let ds = u64_to_dec_string(t);
            r.append(ds.as_str());
        },
        None => {},
    }
    r.append(" is pending deletion.");
    if from_encrypted_room {
        r.append(
            "\n\n\u{26a0}\u{fe0f} WARNING: This media was detected from an encrypted room based on upload timing. Detection may have false positives since the server cannot read encrypted messages. Use auto-delete at your own risk.",
        );
    }
    r.append(
        "\n\nReact with:\n\u{2705} to confirm deletion\n\u{274c} to keep it\n\u{2699}\u{fe0f} to always auto-delete media in ",
    );
    if from_encrypted_room {
        r.append("encrypted rooms");
    } else {
        r.append("unencrypted rooms");
    }
    r.append("\n\n(You can also run `!user retention confirm ");
    r.append(mxc);
    r.append("` to delete it manually.)");
    proof {
        assert(r@ =~= notice_of(
            RetentionCandidateView {
                mxc: mxc@,
                room_id: match room_id {
                    Some(room) => Some(room@),
                    None => None,
                },
                sender: None,
                from_encrypted_room: from_encrypted_room,
            },
            ts,
        ));
    }
    r
}

/// The confirmation sent after auto-delete was enabled through the
/// reaction, naming the command that disables it again.
pub open spec fn auto_enabled_notice_of(from_encrypted_room: bool) -> Seq<char> {
    "\u{2705} Auto-delete enabled for "@ + (if from_encrypted_room {
        "encrypted"@
    } else {
        "unencrypted"@
    }) + " rooms.\n\nTo disable: `!user retention "@ + (if from_encrypted_room {
        "prefs-encrypted-off"@
    } else {
        "prefs-unencrypted-off"@
    }) + "`"@
}

/// Composes the auto-delete confirmation.
pub fn build_auto_enabled_notice(from_encrypted_room: bool) -> (r: String)
    ensures
        r@ == auto_enabled_notice_of(from_encrypted_room),
{
    let mut r = String::from_str("\u{2705} Auto-delete enabled for ");
    if from_encrypted_room {
        r.append("encrypted");
    } else {
        r.append("unencrypted");
    }
    r.append(" rooms.\n\nTo disable: `!user retention ");
    if from_encrypted_room {
        r.append("prefs-encrypted-off");
    } else {
        r.append("prefs-unencrypted-off");
    }
    r.append("`");
    proof {
        assert(r@ =~= auto_enabled_notice_of(from_encrypted_room));
    }
    r
}

/// The summary of a confirmed deletion.
pub open spec fn confirm_summary_of(mxc: Seq<char>, bytes: u64) -> Seq<char> {
    "Confirmed deletion for "@ + mxc + ". "@ + (if bytes > 0 {
        "Removed "@ + dec_str(bytes) + " bytes of local media."@
    } else {
        "No local media files were found to delete."@
    })
}

/// Composes the summary of a confirmed deletion.
pub fn build_confirm_summary(mxc: &str, bytes: u64) -> (r: String)
    ensures
        r@ == confirm_summary_of(mxc@, bytes),
{
    let mut r = String::from_str("Confirmed deletion for ");
    r.append(mxc);
    r.append(". ");
    if bytes > 0 {
        r.append("Removed ");
        let ds = u64_to_dec_string(bytes);
        r.append(ds.as_str());
        r.append(" bytes of local media.");
    } else {
        r.append("No local media files were found to delete.");
    }
    proof {
        assert(r@ =~= confirm_summary_of(mxc@, bytes));
    }
    r
}

/// The summary of the current auto-delete flags.
pub open spec fn prefs_summary_of(prefs: UserRetentionPrefs) -> Seq<char> {
    "Current auto-delete preferences:\n- Encrypted rooms: "@ + (if prefs.auto_delete_encrypted {
        "enabled \u{2705}"@
    } else {
        "disabled \u{274c}"@
    }) + "\n- Unencrypted rooms: "@ + (if prefs.auto_delete_unencrypted {
        "enabled \u{2705}"@
    } else {
        "disabled \u{274c}"@
    })
}

/// Composes the summary of the current auto-delete flags.
pub fn build_prefs_summary(prefs: &UserRetentionPrefs) -> (r: String)
    ensures
        r@ == prefs_summary_of(*prefs),
{
    let mut r = String::from_str("Current auto-delete preferences:\n- Encrypted rooms: ");
    if prefs.auto_delete_encrypted {
        r.append("enabled \u{2705}");
    } else {
        r.append("disabled \u{274c}");
    }
    r.append("\n- Unencrypted rooms: ");
    if prefs.auto_delete_unencrypted {
        r.append("enabled \u{2705}");
    } else {
        r.append("disabled \u{274c}");
    }
    proof {
        assert(r@ =~= prefs_summary_of(*prefs));
    }
    r
}

} // verus!
