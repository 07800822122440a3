//! The durable encoding of the index records: length-prefixed,
//! self-describing byte strings that round-trip, so a stored record read
//! back after a restart is the record that was written.
//!
//! Each record family carries a leading tag byte; numbers are eight bytes
//! big-endian; strings are a length followed by their UTF-8 bytes; options
//! are a presence byte.

use vstd::prelude::*;
use vstd::slice::slice_subrange;
use vstd::utf8::{decode_utf8, encode_utf8, valid_utf8};
use crate::records::{
    CandView, DeletionCandidate, MediaEventRef, MediaRef, MerView, PendingUpload, PendingView,
    UserRetentionPrefs, opt_view,
};
use crate::util::be_value;

verus! {

broadcast use vstd::utf8::encode_utf8_valid_utf8, vstd::utf8::encode_utf8_decode_utf8;

/// The eight big-endian bytes of a number.
#[verifier::opaque]
pub open spec fn enc_u64(x: u64) -> Seq<u8> {
    let r0 = x % 0x100000000000000;
    let r1 = r0 % 0x1000000000000;
    let r2 = r1 % 0x10000000000;
    let r3 = r2 % 0x100000000;
    let r4 = r3 % 0x1000000;
    let r5 = r4 % 0x10000;
    seq![
        (x / 0x100000000000000) as u8,
        (r0 / 0x1000000000000) as u8,
        (r1 / 0x10000000000) as u8,
        (r2 / 0x100000000) as u8,
        (r3 / 0x1000000) as u8,
        (r4 / 0x10000) as u8,
        (r5 / 0x100) as u8,
        (r5 % 0x100) as u8,
    ]
}

/// Reading the eight bytes back gives the number.
pub broadcast proof fn lemma_enc_u64(x: u64)
    ensures
        (#[trigger] enc_u64(x)).len() == 8,
        be_value(enc_u64(x)) == x,
{
    reveal(enc_u64);
}

/// A flag byte.
pub open spec fn enc_bool(b: bool) -> Seq<u8> {
    if b {
        seq![1u8]
    } else {
        seq![0u8]
    }
}

/// A length, then the UTF-8 bytes.
pub open spec fn enc_str(w: Seq<char>) -> Seq<u8> {
    enc_u64(encode_utf8(w).len() as u64) + encode_utf8(w)
}

/// A presence byte, then the string when present.
pub open spec fn enc_opt_str(w: Option<Seq<char>>) -> Seq<u8> {
    match w {
        None => seq![0u8],
        Some(s) => seq![1u8] + enc_str(s),
    }
}

/// Appends the eight big-endian bytes of a number.
fn put_u64(out: &mut Vec<u8>, x: u64)
    ensures
        final(out)@ == old(out)@ + enc_u64(x),
{
    let b0: u8 = (x / 0x100000000000000) as u8;
    let r0: u64 = x % 0x100000000000000;
    let b1: u8 = (r0 / 0x1000000000000) as u8;
    let r1: u64 = r0 % 0x1000000000000;
    let b2: u8 = (r1 / 0x10000000000) as u8;
    let r2: u64 = r1 % 0x10000000000;
    let b3: u8 = (r2 / 0x100000000) as u8;
    let r3: u64 = r2 % 0x100000000;
    let b4: u8 = (r3 / 0x1000000) as u8;
    let r4: u64 = r3 % 0x1000000;
    let b5: u8 = (r4 / 0x10000) as u8;
    let r5: u64 = r4 % 0x10000;
    let b6: u8 = (r5 / 0x100) as u8;
    let b7: u8 = (r5 % 0x100) as u8;
    out.push(b0);
    out.push(b1);
    out.push(b2);
    out.push(b3);
    out.push(b4);
    out.push(b5);
    out.push(b6);
    out.push(b7);
    proof {
        reveal(enc_u64);
        assert(out@ =~= old(out)@ + enc_u64(x));
    }
}

/// Appends a flag byte.
fn put_bool(out: &mut Vec<u8>, b: bool)
    ensures
        final(out)@ == old(out)@ + enc_bool(b),
{
    out.push(if b {
        1
    } else {
        0
    });
    proof {
        assert(out@ =~= old(out)@ + enc_bool(b));
    }
}

/// Appends a length-prefixed string.
fn put_str(out: &mut Vec<u8>, s: &str)
    ensures
        final(out)@ == old(out)@ + enc_str(s@),
{
    let bytes = s.as_bytes();
    put_u64(out, bytes.len() as u64);
    let ghost mid = out@;
    let n = bytes.len();
    let mut i: usize = 0;
    while i < n
        invariant
            n == bytes@.len(),
            0 <= i <= n,
            out@ == mid + bytes@.take(i as int),
        decreases n - i,
    {
        out.push(bytes[i]);
        proof {
            assert(out@ =~= mid + bytes@.take(i + 1));
        }
        i += 1;
    }
    proof {
        lemma_enc_u64(bytes@.len() as u64);
        assert(bytes@.take(n as int) =~= bytes@);
        assert(out@ =~= old(out)@ + enc_str(s@));
    }
}

/// Appends a presence byte and, when present, the string.
fn put_opt_str(out: &mut Vec<u8>, o: &Option<String>)
    ensures
        final(out)@ == old(out)@ + enc_opt_str(opt_view(*o)),
{
    match o {
        None => {
            out.push(0);
            proof {
                assert(out@ =~= old(out)@ + enc_opt_str(None));
            }
        },
        Some(s) => {
            out.push(1);
            let ghost mid = out@;
            put_str(out, s.as_str());
            proof {
                assert(out@ =~= old(out)@ + enc_opt_str(Some(s@)));
            }
        },
    }
}

/// Relies on `String::from_utf8`: valid UTF-8 bytes give the string of
/// those bytes, and anything else is rejected.
#[verifier::external_body]
fn string_from_utf8(v: Vec<u8>) -> (r: Option<String>)
    ensures
        match r {
            Some(s) => valid_utf8(v@) && encode_utf8(s@) == v@,
            None => !valid_utf8(v@),
        },
{
    String::from_utf8(v).ok()
}

/// Reads eight big-endian bytes at the offset.
fn get_u64(bytes: &[u8], off: usize) -> (r: Option<(u64, usize)>)
    ensures
        off + 8 <= bytes@.len() ==> (r matches Some(p) && p.0 == be_value(
            bytes@.subrange(off as int, off + 8),
        ) && p.1 == off + 8),
        off + 8 > bytes@.len() ==> r is None,
{
    if off >= bytes.len() || bytes.len() - off < 8 {
        return None;
    }
    let part = slice_subrange(bytes, off, off + 8);
    let x = crate::util::u64_from_be(part);
    Some((x, off + 8))
}

/// Reads a flag byte at the offset.
fn get_bool(bytes: &[u8], off: usize) -> (r: Option<(bool, usize)>)
    ensures
        off < bytes@.len() && (bytes@[off as int] == 0 || bytes@[off as int] == 1) ==> (r
            matches Some(p) && p.0 == (bytes@[off as int] == 1) && p.1 == off + 1),
        off >= bytes@.len() || (bytes@[off as int] != 0 && bytes@[off as int] != 1) ==> r
            is None,
{
    if off >= bytes.len() {
        return None;
    }
    let b = *vstd::slice::slice_index_get(bytes, off);
    if b == 0 {
        Some((false, off + 1))
    } else if b == 1 {
        Some((true, off + 1))
    } else {
        None
    }
}

/// Reads a length-prefixed string at the offset.
fn get_str(bytes: &[u8], off: usize) -> (r: Option<(String, usize)>)
    ensures
        match r {
            Some(p) => {
                &&& off + 8 <= bytes@.len()
                &&& p.1 == off + 8 + be_value(bytes@.subrange(off as int, off + 8))
                &&& p.1 <= bytes@.len()
                &&& valid_utf8(bytes@.subrange(off + 8, p.1 as int))
                &&& p.0@ == decode_utf8(bytes@.subrange(off + 8, p.1 as int))
            },
            None => true,
        },
        forall|w: Seq<char>, rest: Seq<u8>|
            off <= bytes@.len() && bytes@.skip(off as int) == enc_str(w) + rest && encode_utf8(
                w,
            ).len() <= u64::MAX ==> (r matches Some(p) && p.0@ == w && p.1 == off + 8
                + encode_utf8(w).len()),
{
    let ghost whole = bytes@;
    assert forall|w: Seq<char>, rest: Seq<u8>|
        off <= whole.len() && whole.skip(off as int) == enc_str(w) + rest && encode_utf8(w).len()
            <= u64::MAX implies whole.subrange(off as int, off + 8) == enc_u64(
        encode_utf8(w).len() as u64,
    ) && off + 8 + encode_utf8(w).len() <= whole.len() && whole.subrange(
        off + 8,
        off + 8 + encode_utf8(w).len(),
    ) == encode_utf8(w) by {
        let lw = encode_utf8(w).len() as int;
        lemma_enc_u64(encode_utf8(w).len() as u64);
        assert(whole.skip(off as int).len() == whole.len() - off);
        assert(whole.len() - off == 8 + lw + rest.len());
        assert forall|i: int| 0 <= i < whole.len() - off implies #[trigger] whole.skip(
            off as int,
        )[i] == whole[off + i] by {
        }
        assert(whole.subrange(off as int, off + 8) =~= enc_u64(encode_utf8(w).len() as u64))
            by {
            assert forall|i: int|
                0 <= i < 8 implies #[trigger] whole.subrange(off as int, off + 8)[i] == enc_u64(
                encode_utf8(w).len() as u64,
            )[i] by {
                assert(whole.subrange(off as int, off + 8)[i] == whole[off + i]);
                assert(whole.skip(off as int)[i] == whole[off + i]);
                assert((enc_str(w) + rest)[i] == enc_str(w)[i]);
                assert(enc_str(w)[i] == enc_u64(encode_utf8(w).len() as u64)[i]);
            }
        }
        assert(whole.subrange(off + 8, off + 8 + lw) =~= encode_utf8(w)) by {
            assert forall|i: int|
                0 <= i < lw implies #[trigger] whole.subrange(off + 8, off + 8 + lw)[i]
                == encode_utf8(w)[i] by {
                assert(whole.subrange(off + 8, off + 8 + lw)[i] == whole[off + 8 + i]);
                assert(whole.skip(off as int)[8 + i] == whole[off + 8 + i]);
                assert((enc_str(w) + rest)[8 + i] == enc_str(w)[8 + i]);
                assert(enc_str(w)[8 + i] == encode_utf8(w)[i]);
            }
        }
    }
    let (len, after_len) = match get_u64(bytes, off) {
        Some(p) => p,
        None => {
            return None;
        },
    };
    proof {
        assert forall|w: Seq<char>, rest: Seq<u8>|
            off <= whole.len() && whole.skip(off as int) == enc_str(w) + rest && encode_utf8(
                w,
            ).len() <= u64::MAX implies len == encode_utf8(w).len() by {
            lemma_enc_u64(encode_utf8(w).len() as u64);
        }
    }
    if len > bytes.len() as u64 || bytes.len() - (len as usize) < off + 8 {
        proof {
            assert forall|w: Seq<char>, rest: Seq<u8>|
                !(off <= whole.len() && whole.skip(off as int) == enc_str(w) + rest
                    && encode_utf8(w).len() <= u64::MAX) by {
                if off <= whole.len() && whole.skip(off as int) == enc_str(w) + rest
                    && encode_utf8(w).len() <= u64::MAX {
                    assert(off + 8 + encode_utf8(w).len() <= whole.len());
                }
            }
        }
        return None;
    }
    let len_usize: usize = len as usize;
    let end = off + 8 + len_usize;
    let body = slice_subrange(bytes, off + 8, end);
    let body_vec = vstd::slice::slice_to_vec(body);
    match string_from_utf8(body_vec) {
        Some(s) => {
            proof {
                assert forall|w: Seq<char>, rest: Seq<u8>|
                    off <= whole.len() && whole.skip(off as int) == enc_str(w) + rest
                        && encode_utf8(w).len() <= u64::MAX implies s@ == w by {
                    assert(encode_utf8(s@) == encode_utf8(w));
                    assert(decode_utf8(encode_utf8(s@)) == s@);
                    assert(decode_utf8(encode_utf8(w)) == w);
                }
                assert(s@ == decode_utf8(whole.subrange(off + 8, end as int))) by {
                    vstd::utf8::decode_utf8_encode_utf8(whole.subrange(off + 8, end as int));
                }
            }
            Some((s, end))
        },
        None => {
            proof {
                assert forall|w: Seq<char>, rest: Seq<u8>|
                    !(off <= whole.len() && whole.skip(off as int) == enc_str(w) + rest
                        && encode_utf8(w).len() <= u64::MAX) by {
                    if off <= whole.len() && whole.skip(off as int) == enc_str(w) + rest
                        && encode_utf8(w).len() <= u64::MAX {
                        assert(valid_utf8(encode_utf8(w)));
                    }
                }
            }
            None
        },
    }
}

/// Reads a presence-prefixed string at the offset.
fn get_opt_str(bytes: &[u8], off: usize) -> (r: Option<(Option<String>, usize)>)
    ensures
        forall|w: Option<Seq<char>>, rest: Seq<u8>|
            off <= bytes@.len() && bytes@.skip(off as int) == enc_opt_str(w) + rest && (match w {
                Some(s) => encode_utf8(s).len() <= u64::MAX,
                None => true,
            }) ==> (r matches Some(p) && opt_view(p.0) == w && p.1 == off + enc_opt_str(
                w,
            ).len()),
{
    let ghost whole = bytes@;
    if off >= bytes.len() {
        proof {
            assert forall|w: Option<Seq<char>>, rest: Seq<u8>|
                !(off <= whole.len() && whole.skip(off as int) == enc_opt_str(w) + rest) by {
                if off <= whole.len() && whole.skip(off as int) == enc_opt_str(w) + rest {
                    assert(whole.skip(off as int).len() >= 1);
                }
            }
        }
        return None;
    }
    let tag = *vstd::slice::slice_index_get(bytes, off);
    if tag == 0 {
        proof {
            assert forall|w: Option<Seq<char>>, rest: Seq<u8>|
                off <= whole.len() && whole.skip(off as int) == enc_opt_str(w)
                    + rest implies w is None by {
                if w is Some {
                    assert(whole.skip(off as int)[0] == 1);
                    assert(whole[off as int] == 1);
                }
            }
        }
        Some((None, off + 1))
    } else if tag == 1 {
        proof {
            assert forall|w: Option<Seq<char>>, rest: Seq<u8>|
                off <= whole.len() && whole.skip(off as int) == enc_opt_str(w)
                    + rest implies w is Some && whole.skip(off + 1) == enc_str(w->0) + rest
                && enc_opt_str(w).len() == 1 + enc_str(w->0).len() && enc_str(w->0).len() == 8
                + encode_utf8(w->0).len() by {
                lemma_enc_u64(encode_utf8(w->0).len() as u64);
                if w is None {
                    assert(whole.skip(off as int)[0] == whole[off as int]);
                    assert((enc_opt_str(w) + rest)[0] == 0);
                } else {
                    assert(whole.skip(off + 1) =~= enc_str(w->0) + rest) by {
                        assert(whole.skip(off as int).len() == whole.len() - off);
                        assert(whole.skip(off + 1).len() == whole.len() - off - 1);
                        assert(enc_opt_str(w).len() == 1 + enc_str(w->0).len());
                        assert(whole.skip(off + 1).len() == enc_str(w->0).len() + rest.len());
                        assert forall|i: int|
                            0 <= i < whole.skip(off + 1).len() implies #[trigger] whole.skip(
                            off + 1,
                        )[i] == (enc_str(w->0) + rest)[i] by {
                            assert(whole.skip(off + 1)[i] == whole[off + 1 + i]);
                            assert(whole.skip(off as int)[1 + i] == whole[off + 1 + i]);
                            assert((enc_opt_str(w) + rest)[1 + i] == (seq![1u8] + enc_str(
                                w->0,
                            ) + rest)[1 + i]);
                        }
                    }
                }
            }
        }
        let inner = get_str(bytes, off + 1);
        proof {
            assert forall|w: Option<Seq<char>>, rest: Seq<u8>|
                off <= whole.len() && whole.skip(off as int) == enc_opt_str(w) + rest && (
                match w {
                    Some(sv) => encode_utf8(sv).len() <= u64::MAX,
                    None => true,
                }) implies (inner matches Some(p) && p.0@ == w->0 && p.1 == off + 1 + 8
                + encode_utf8(w->0).len()) by {
                assert(off + 1 <= whole.len() && whole.skip(off + 1) == enc_str(w->0) + rest
                    && encode_utf8(w->0).len() <= u64::MAX);
            }
        }
        match inner {
            Some((s, n)) => {
                Some((Some(s), n))
            },
            None => {
                None
            },
        }
    } else {
        proof {
            assert forall|w: Option<Seq<char>>, rest: Seq<u8>|
                !(off <= whole.len() && whole.skip(off as int) == enc_opt_str(w) + rest) by {
                if off <= whole.len() && whole.skip(off as int) == enc_opt_str(w) + rest {
                    assert(whole.skip(off as int)[0] == whole[off as int]);
                    if w is None {
                        assert((enc_opt_str(w) + rest)[0] == 0);
                    } else {
                        assert((enc_opt_str(w) + rest)[0] == 1);
                    }
                }
            }
        }
        None
    }
}

proof fn lemma_skip_concat(whole: Seq<u8>, off: int, a: Seq<u8>, b: Seq<u8>)
    requires
        0 <= off <= whole.len(),
        whole.skip(off) == a + b,
    ensures
        off + a.len() <= whole.len(),
        whole.skip(off + a.len()) == b,
{
    assert(whole.skip(off).len() == whole.len() - off);
    assert(whole.skip(off + a.len()) =~= b) by {
        assert forall|i: int|
            0 <= i < b.len() implies #[trigger] whole.skip(off + a.len())[i] == b[i] by {
            assert(whole.skip(off + a.len())[i] == whole[off + a.len() + i]);
            assert(whole.skip(off)[a.len() + i] == whole[off + a.len() + i]);
            assert((a + b)[a.len() + i] == b[i]);
        }
    }
}

proof fn lemma_u64_at(whole: Seq<u8>, off: int, x: u64, rest: Seq<u8>)
    requires
        0 <= off <= whole.len(),
        whole.skip(off) == enc_u64(x) + rest,
    ensures
        off + 8 <= whole.len(),
        be_value(whole.subrange(off, off + 8)) == x,
        whole.skip(off + 8) == rest,
    decreases 0int,
{
    lemma_enc_u64(x);
    assert(whole.skip(off).len() == whole.len() - off);
    assert(whole.subrange(off, off + 8) =~= enc_u64(x)) by {
        assert forall|i: int|
            0 <= i < 8 implies #[trigger] whole.subrange(off, off + 8)[i] == enc_u64(x)[i] by {
            assert(whole.subrange(off, off + 8)[i] == whole[off + i]);
            assert(whole.skip(off)[i] == whole[off + i]);
            assert((enc_u64(x) + rest)[i] == enc_u64(x)[i]);
        }
    }
    lemma_skip_concat(whole, off, enc_u64(x), rest);
}

proof fn lemma_bool_at(whole: Seq<u8>, off: int, b: bool, rest: Seq<u8>)
    requires
        0 <= off <= whole.len(),
        whole.skip(off) == enc_bool(b) + rest,
    ensures
        off + 1 <= whole.len(),
        whole[off] == (if b {
            1u8
        } else {
            0u8
        }),
        whole.skip(off + 1) == rest,
{
    assert(whole.skip(off).len() == whole.len() - off);
    assert(whole.skip(off)[0] == whole[off]);
    assert((enc_bool(b) + rest)[0] == enc_bool(b)[0]);
    lemma_skip_concat(whole, off, enc_bool(b), rest);
}

proof fn lemma_tag_at(whole: Seq<u8>, tag: u8, rest: Seq<u8>)
    requires
        whole == seq![tag] + rest,
    ensures
        whole.len() >= 1,
        whole[0] == tag,
        whole.skip(1) == rest,
{
    assert(whole[0] == (seq![tag] + rest)[0]);
    assert(whole.skip(0) =~= whole);
    lemma_skip_concat(whole, 0, seq![tag], rest);
}

/// The stored form of a reference record.
pub open spec fn enc_media_ref(v: MediaRef) -> Seq<u8> {
    seq![1u8] + enc_u64(v.refcount as u64) + enc_bool(v.local) + enc_u64(v.first_seen_ts)
        + enc_u64(v.last_seen_ts)
}

/// Writes a reference record.
pub fn encode_media_ref(v: &MediaRef) -> (r: Vec<u8>)
    ensures
        r@ == enc_media_ref(*v),
{
    let mut out: Vec<u8> = Vec::new();
    out.push(1);
    proof {
        assert(out@ =~= seq![1u8]);
    }
    put_u64(&mut out, #[verifier::truncate] (v.refcount as u64));
    put_bool(&mut out, v.local);
    put_u64(&mut out, v.first_seen_ts);
    put_u64(&mut out, v.last_seen_ts);
    proof {
        assert(out@ =~= enc_media_ref(*v));
    }
    out
}

/// Reads a reference record back; the encoding of any record decodes to
/// that record.
pub fn decode_media_ref(bytes: &[u8]) -> (r: Option<MediaRef>)
    ensures
        forall|v: MediaRef|
            bytes@ == enc_media_ref(v) ==> (r matches Some(out) && out == v),
{
    let ghost whole = bytes@;
    let n = bytes.len();
    proof {
        assert forall|v: MediaRef|
            whole == enc_media_ref(v) implies whole.len() == 26 && whole[0] == 1 && be_value(
            whole.subrange(1, 9),
        ) == (v.refcount as u64) && whole[9int] == (if v.local {
            1u8
        } else {
            0u8
        }) && be_value(whole.subrange(10, 18)) == v.first_seen_ts && be_value(
            whole.subrange(18, 26),
        ) == v.last_seen_ts by {
            let r1 = enc_u64(v.refcount as u64) + (enc_bool(v.local) + (enc_u64(
                v.first_seen_ts,
            ) + enc_u64(v.last_seen_ts)));
            assert(whole =~= seq![1u8] + r1);
            lemma_tag_at(whole, 1, r1);
            lemma_u64_at(whole, 1, v.refcount as u64, enc_bool(v.local) + (enc_u64(
                v.first_seen_ts,
            ) + enc_u64(v.last_seen_ts)));
            lemma_bool_at(whole, 9, v.local, enc_u64(v.first_seen_ts) + enc_u64(
                v.last_seen_ts,
            ));
            lemma_u64_at(whole, 10, v.first_seen_ts, enc_u64(v.last_seen_ts));
            lemma_u64_at(whole, 18, v.last_seen_ts, Seq::empty());
            assert(whole =~= seq![1u8] + r1);
            assert(whole.skip(26) =~= Seq::<u8>::empty());
        }
    }
    if n != 26 {
        return None;
    }
    let tag = *vstd::slice::slice_index_get(bytes, 0);
    if tag != 1 {
        return None;
    }
    let (rc_bits, o1) = match get_u64(bytes, 1) {
        Some(p) => p,
        None => {
            return None;
        },
    };
    let (local, o2) = match get_bool(bytes, o1) {
        Some(p) => p,
        None => {
            return None;
        },
    };
    let (first_seen, o3) = match get_u64(bytes, o2) {
        Some(p) => p,
        None => {
            return None;
        },
    };
    let (last_seen, _o4) = match get_u64(bytes, o3) {
        Some(p) => p,
        None => {
            return None;
        },
    };
    let refcount: i64 = #[verifier::truncate] (rc_bits as i64);
    proof {
        assert forall|v: MediaRef|
            whole == enc_media_ref(v) implies refcount == v.refcount by {
            assert(rc_bits == (v.refcount as u64));
            let x = v.refcount;
            assert(((x as u64) as i64) == x) by (bit_vector);
        }
    }
    Some(MediaRef { refcount, local, first_seen_ts: first_seen, last_seen_ts: last_seen })
}

/// The stored form of a user's flags.
pub open spec fn enc_prefs(v: UserRetentionPrefs) -> Seq<u8> {
    seq![5u8] + enc_bool(v.auto_delete_unencrypted) + enc_bool(v.auto_delete_encrypted)
}

/// Writes a user's flags.
pub fn encode_prefs(v: &UserRetentionPrefs) -> (r: Vec<u8>)
    ensures
        r@ == enc_prefs(*v),
{
    let mut out: Vec<u8> = Vec::new();
    out.push(5);
    proof {
        assert(out@ =~= seq![5u8]);
    }
    put_bool(&mut out, v.auto_delete_unencrypted);
    put_bool(&mut out, v.auto_delete_encrypted);
    proof {
        assert(out@ =~= enc_prefs(*v));
    }
    out
}

/// Reads a user's flags back; the encoding of any record decodes to that
/// record.
pub fn decode_prefs(bytes: &[u8]) -> (r: Option<UserRetentionPrefs>)
    ensures
        forall|v: UserRetentionPrefs|
            bytes@ == enc_prefs(v) ==> (r matches Some(out) && out == v),
{
    let ghost whole = bytes@;
    proof {
        assert forall|v: UserRetentionPrefs|
            whole == enc_prefs(v) implies whole.len() == 3 && whole[0] == 5 && whole[1int]
            == (if v.auto_delete_unencrypted {
            1u8
        } else {
            0u8
        }) && whole[2int] == (if v.auto_delete_encrypted {
            1u8
        } else {
            0u8
        }) by {
            let r1 = enc_bool(v.auto_delete_unencrypted) + enc_bool(v.auto_delete_encrypted);
            assert(whole =~= seq![5u8] + r1);
            lemma_tag_at(whole, 5, r1);
            lemma_bool_at(whole, 1, v.auto_delete_unencrypted, enc_bool(
                v.auto_delete_encrypted,
            ));
            lemma_bool_at(whole, 2, v.auto_delete_encrypted, Seq::empty());
            assert(whole =~= seq![5u8] + r1);
        }
    }
    if bytes.len() != 3 {
        return None;
    }
    let tag = *vstd::slice::slice_index_get(bytes, 0);
    if tag != 5 {
        return None;
    }
    let (unencrypted, o1) = match get_bool(bytes, 1) {
        Some(p) => p,
        None => {
            return None;
        },
    };
    let (encrypted, _o2) = match get_bool(bytes, o1) {
        Some(p) => p,
        None => {
            return None;
        },
    };
    Some(
        UserRetentionPrefs {
            auto_delete_unencrypted: unencrypted,
            auto_delete_encrypted: encrypted,
        },
    )
}

/// The stored form of a pending upload.
pub open spec fn enc_pending(v: PendingView) -> Seq<u8> {
    seq![3u8] + enc_str(v.mxc) + enc_str(v.user_id) + enc_u64(v.upload_ts)
}

/// Writes a pending upload.
pub fn encode_pending(v: &PendingUpload) -> (r: Vec<u8>)
    ensures
        r@ == enc_pending(v@),
{
    let mut out: Vec<u8> = Vec::new();
    out.push(3);
    proof {
        assert(out@ =~= seq![3u8]);
    }
    put_str(&mut out, v.mxc.as_str());
    put_str(&mut out, v.user_id.as_str());
    put_u64(&mut out, v.upload_ts);
    proof {
        assert(out@ =~= enc_pending(v@));
    }
    out
}

/// Reads a pending upload back; the encoding of any record decodes to
/// that record.
pub fn decode_pending(bytes: &[u8]) -> (r: Option<PendingUpload>)
    ensures
        forall|v: PendingView|
            bytes@ == enc_pending(v) ==> (r matches Some(out) && out@ == v),
{
    let ghost whole = bytes@;
    let n = bytes.len();
    proof {
        assert forall|v: PendingView|
            whole == enc_pending(v) implies whole.len() >= 1 && whole[0] == 3 && 1
            <= whole.len() && whole.skip(1) == enc_str(v.mxc) + (enc_str(v.user_id) + enc_u64(
            v.upload_ts,
        )) && encode_utf8(v.mxc).len() <= u64::MAX && encode_utf8(v.user_id).len()
            <= u64::MAX by {
            let r1 = enc_str(v.mxc) + (enc_str(v.user_id) + enc_u64(v.upload_ts));
            assert(whole =~= seq![3u8] + r1);
            lemma_tag_at(whole, 3, r1);
            assert(encode_utf8(v.mxc).len() <= whole.len());
            assert(encode_utf8(v.user_id).len() <= whole.len());
            assert(whole.len() <= usize::MAX);
        }
    }
    if n < 1 {
        return None;
    }
    let tag = *vstd::slice::slice_index_get(bytes, 0);
    if tag != 3 {
        return None;
    }
    let (mxc, o1) = match get_str(bytes, 1) {
        Some(p) => p,
        None => {
            proof {
                assert forall|v: PendingView| whole != enc_pending(v) by {
                    if whole == enc_pending(v) {
                    }
                }
            }
            return None;
        },
    };
    proof {
        assert forall|v: PendingView|
            whole == enc_pending(v) implies o1 == 1 + enc_str(v.mxc).len() && o1
            <= whole.len() && whole.skip(o1 as int) == enc_str(v.user_id) + enc_u64(
            v.upload_ts,
        ) by {
            lemma_skip_concat(
                whole,
                1,
                enc_str(v.mxc),
                enc_str(v.user_id) + enc_u64(v.upload_ts),
            );
            lemma_enc_u64(encode_utf8(v.mxc).len() as u64);
        }
    }
    let (user_id, o2) = match get_str(bytes, o1) {
        Some(p) => p,
        None => {
            proof {
                assert forall|v: PendingView| whole != enc_pending(v) by {
                    if whole == enc_pending(v) {
                    }
                }
            }
            return None;
        },
    };
    proof {
        assert forall|v: PendingView|
            whole == enc_pending(v) implies o2 == o1 + enc_str(v.user_id).len() && o2
            <= whole.len() && whole.skip(o2 as int) == enc_u64(v.upload_ts)
            + Seq::<u8>::empty() by {
            lemma_skip_concat(whole, o1 as int, enc_str(v.user_id), enc_u64(v.upload_ts));
            lemma_enc_u64(encode_utf8(v.user_id).len() as u64);
            assert(enc_u64(v.upload_ts) =~= enc_u64(v.upload_ts) + Seq::<u8>::empty());
        }
    }
    let (upload_ts, o3) = match get_u64(bytes, o2) {
        Some(p) => p,
        None => {
            proof {
                assert forall|v: PendingView| whole != enc_pending(v) by {
                    if whole == enc_pending(v) {
                        lemma_u64_at(whole, o2 as int, v.upload_ts, Seq::empty());
                    }
                }
            }
            return None;
        },
    };
    if o3 != n {
        proof {
            assert forall|v: PendingView| whole != enc_pending(v) by {
                if whole == enc_pending(v) {
                    lemma_u64_at(whole, o2 as int, v.upload_ts, Seq::empty());
                    assert(whole.skip(o2 + 8) =~= Seq::<u8>::empty());
                    assert(whole.len() == o2 + 8);
                }
            }
        }
        return None;
    }
    proof {
        assert forall|v: PendingView|
            whole == enc_pending(v) implies mxc@ == v.mxc && user_id@ == v.user_id && upload_ts
            == v.upload_ts by {
            lemma_u64_at(whole, o2 as int, v.upload_ts, Seq::empty());
        }
    }
    Some(PendingUpload { mxc, user_id, upload_ts })
}

/// The stored form of an event's media reference.
pub open spec fn enc_mer(v: MerView) -> Seq<u8> {
    seq![2u8] + enc_str(v.mxc) + enc_str(v.room_id) + enc_str(v.kind) + enc_opt_str(v.sender)
}

/// Writes an event's media reference.
pub fn encode_mer(v: &MediaEventRef) -> (r: Vec<u8>)
    ensures
        r@ == enc_mer(v@),
{
    let mut out: Vec<u8> = Vec::new();
    out.push(2);
    proof {
        assert(out@ =~= seq![2u8]);
    }
    put_str(&mut out, v.mxc.as_str());
    put_str(&mut out, v.room_id.as_str());
    put_str(&mut out, v.kind.as_str());
    put_opt_str(&mut out, &v.sender);
    proof {
        assert(out@ =~= enc_mer(v@));
    }
    out
}

/// Reads an event's media reference back; the encoding of any record
/// decodes to that record.
pub fn decode_mer(bytes: &[u8]) -> (r: Option<MediaEventRef>)
    ensures
        forall|v: MerView| bytes@ == enc_mer(v) ==> (r matches Some(out) && out@ == v),
{
    let ghost whole = bytes@;
    let n = bytes.len();
    proof {
        assert forall|v: MerView|
            whole == enc_mer(v) implies whole.len() >= 1 && whole[0] == 2 && whole.skip(1)
            == enc_str(v.mxc) + (enc_str(v.room_id) + (enc_str(v.kind) + enc_opt_str(
            v.sender,
        ))) && encode_utf8(v.mxc).len() <= u64::MAX && encode_utf8(v.room_id).len()
            <= u64::MAX && encode_utf8(v.kind).len() <= u64::MAX && (match v.sender {
            Some(sv) => encode_utf8(sv).len() <= u64::MAX,
            None => true,
        }) by {
            let r1 = enc_str(v.mxc) + (enc_str(v.room_id) + (enc_str(v.kind) + enc_opt_str(
                v.sender,
            )));
            assert(whole =~= seq![2u8] + r1);
            lemma_tag_at(whole, 2, r1);
            assert(whole.len() <= usize::MAX);
            assert(encode_utf8(v.mxc).len() <= whole.len());
            assert(encode_utf8(v.room_id).len() <= whole.len());
            assert(encode_utf8(v.kind).len() <= whole.len());
            match v.sender {
                Some(sv) => {
                    assert(encode_utf8(sv).len() <= whole.len());
                },
                None => {},
            }
        }
    }
    if n < 1 {
        return None;
    }
    let tag = *vstd::slice::slice_index_get(bytes, 0);
    if tag != 2 {
        return None;
    }
    let (mxc, o1) = match get_str(bytes, 1) {
        Some(p) => p,
        None => {
            proof {
                assert forall|v: MerView| whole != enc_mer(v) by {
                    if whole == enc_mer(v) {
                    }
                }
            }
            return None;
        },
    };
    proof {
        assert forall|v: MerView|
            whole == enc_mer(v) implies o1 == 1 + enc_str(v.mxc).len() && o1 <= whole.len()
            && whole.skip(o1 as int) == enc_str(v.room_id) + (enc_str(v.kind) + enc_opt_str(
            v.sender,
        )) by {
            lemma_skip_concat(
                whole,
                1,
                enc_str(v.mxc),
                enc_str(v.room_id) + (enc_str(v.kind) + enc_opt_str(v.sender)),
            );
            lemma_enc_u64(encode_utf8(v.mxc).len() as u64);
        }
    }
    let (room_id, o2) = match get_str(bytes, o1) {
        Some(p) => p,
        None => {
            proof {
                assert forall|v: MerView| whole != enc_mer(v) by {
                    if whole == enc_mer(v) {
                    }
                }
            }
            return None;
        },
    };
    proof {
        assert forall|v: MerView|
            whole == enc_mer(v) implies o2 == o1 + enc_str(v.room_id).len() && o2
            <= whole.len() && whole.skip(o2 as int) == enc_str(v.kind) + enc_opt_str(
            v.sender,
        ) by {
            lemma_skip_concat(
                whole,
                o1 as int,
                enc_str(v.room_id),
                enc_str(v.kind) + enc_opt_str(v.sender),
            );
            lemma_enc_u64(encode_utf8(v.room_id).len() as u64);
        }
    }
    let (kind, o3) = match get_str(bytes, o2) {
        Some(p) => p,
        None => {
            proof {
                assert forall|v: MerView| whole != enc_mer(v) by {
                    if whole == enc_mer(v) {
                    }
                }
            }
            return None;
        },
    };
    proof {
        assert forall|v: MerView|
            whole == enc_mer(v) implies o3 == o2 + enc_str(v.kind).len() && o3 <= whole.len()
            && whole.skip(o3 as int) == enc_opt_str(v.sender) + Seq::<u8>::empty() by {
            lemma_skip_concat(whole, o2 as int, enc_str(v.kind), enc_opt_str(v.sender));
            lemma_enc_u64(encode_utf8(v.kind).len() as u64);
            assert(enc_opt_str(v.sender) =~= enc_opt_str(v.sender) + Seq::<u8>::empty());
        }
    }
    let (sender, o4) = match get_opt_str(bytes, o3) {
        Some(p) => p,
        None => {
            proof {
                assert forall|v: MerView| whole != enc_mer(v) by {
                    if whole == enc_mer(v) {
                    }
                }
            }
            return None;
        },
    };
    if o4 != n {
        proof {
            assert forall|v: MerView| whole != enc_mer(v) by {
                if whole == enc_mer(v) {
                    lemma_skip_concat(whole, o3 as int, enc_opt_str(v.sender), Seq::empty());
                    assert(whole.skip(o3 + enc_opt_str(v.sender).len() as int)
                        =~= Seq::<u8>::empty());
                    assert(whole.len() == o3 + enc_opt_str(v.sender).len());
                }
            }
        }
        return None;
    }
    Some(MediaEventRef { mxc, room_id, kind, sender })
}

/// The encoded fields of a candidate after the identifier, grouped from
/// the right.
pub open spec fn cand_tail1(v: CandView) -> Seq<u8> {
    enc_u64(v.enqueued_ts) + cand_tail2(v)
}

pub open spec fn cand_tail2(v: CandView) -> Seq<u8> {
    enc_opt_str(v.user_id) + cand_tail3(v)
}

pub open spec fn cand_tail3(v: CandView) -> Seq<u8> {
    enc_bool(v.awaiting_confirmation) + cand_tail4(v)
}

pub open spec fn cand_tail4(v: CandView) -> Seq<u8> {
    enc_opt_str(v.notification_event_id) + cand_tail5(v)
}

pub open spec fn cand_tail5(v: CandView) -> Seq<u8> {
    enc_opt_str(v.confirm_reaction_id) + cand_tail6(v)
}

pub open spec fn cand_tail6(v: CandView) -> Seq<u8> {
    enc_opt_str(v.cancel_reaction_id) + cand_tail7(v)
}

pub open spec fn cand_tail7(v: CandView) -> Seq<u8> {
    enc_opt_str(v.auto_reaction_id) + enc_bool(v.from_encrypted_room)
}

/// The stored form of a deletion candidate.
pub open spec fn enc_candidate(v: CandView) -> Seq<u8> {
    seq![4u8] + (enc_str(v.mxc) + cand_tail1(v))
}

/// Writes a deletion candidate.
#[verifier::rlimit(100)]
#[verifier::spinoff_prover]
pub fn encode_candidate(v: &DeletionCandidate) -> (r: Vec<u8>)
    ensures
        r@ == enc_candidate(v@),
{
    let mut out: Vec<u8> = Vec::new();
    out.push(4);
    proof {
        assert(out@ =~= seq![4u8]);
    }
    put_str(&mut out, v.mxc.as_str());
    put_u64(&mut out, v.enqueued_ts);
    put_opt_str(&mut out, &v.user_id);
    put_bool(&mut out, v.awaiting_confirmation);
    put_opt_str(&mut out, &v.notification_event_id);
    put_opt_str(&mut out, &v.confirm_reaction_id);
    put_opt_str(&mut out, &v.cancel_reaction_id);
    put_opt_str(&mut out, &v.auto_reaction_id);
    put_bool(&mut out, v.from_encrypted_room);
    proof {
        let s0 = seq![4u8];
        let pa = enc_str(v@.mxc);
        let pb = enc_u64(v@.enqueued_ts);
        let pc = enc_opt_str(v@.user_id);
        let pd = enc_bool(v@.awaiting_confirmation);
        let pe = enc_opt_str(v@.notification_event_id);
        let pf = enc_opt_str(v@.confirm_reaction_id);
        let pg = enc_opt_str(v@.cancel_reaction_id);
        let ph = enc_opt_str(v@.auto_reaction_id);
        let pi = enc_bool(v@.from_encrypted_room);
        assert(out@ == s0 + pa + pb + pc + pd + pe + pf + pg + ph + pi);
        assert(s0 + pa + pb + pc + pd + pe + pf + pg + ph + pi =~= s0 + pa + pb + pc + pd + pe
            + pf + pg + (ph + pi));
        assert(s0 + pa + pb + pc + pd + pe + pf + pg + (ph + pi) =~= s0 + pa + pb + pc + pd
            + pe + pf + (pg + (ph + pi)));
        assert(s0 + pa + pb + pc + pd + pe + pf + (pg + (ph + pi)) =~= s0 + pa + pb + pc + pd
            + pe + (pf + (pg + (ph + pi))));
        assert(s0 + pa + pb + pc + pd + pe + (pf + (pg + (ph + pi))) =~= s0 + pa + pb + pc
            + pd + (pe + (pf + (pg + (ph + pi)))));
        assert(s0 + pa + pb + pc + pd + (pe + (pf + (pg + (ph + pi)))) =~= s0 + pa + pb + pc
            + (pd + (pe + (pf + (pg + (ph + pi))))));
        assert(s0 + pa + pb + pc + (pd + (pe + (pf + (pg + (ph + pi))))) =~= s0 + pa + pb + (
        pc + (pd + (pe + (pf + (pg + (ph + pi)))))));
        assert(s0 + pa + pb + (pc + (pd + (pe + (pf + (pg + (ph + pi)))))) =~= s0 + pa + (pb
            + (pc + (pd + (pe + (pf + (pg + (ph + pi))))))));
        assert(s0 + pa + (pb + (pc + (pd + (pe + (pf + (pg + (ph + pi))))))) =~= s0 + (pa + (
        pb + (pc + (pd + (pe + (pf + (pg + (ph + pi)))))))));
        assert(out@ == enc_candidate(v@));
    }
    out
}

/// The bytes at the offset hold the reaction bookkeeping of this
/// candidate, ending the record.
spec fn cand_tail_hyp(whole: Seq<u8>, off: int, v: CandView) -> bool {
    &&& 0 <= off <= whole.len()
    &&& whole.skip(off) == cand_tail4(v)
    &&& (match v.notification_event_id {
        Some(sv) => encode_utf8(sv).len() <= u64::MAX,
        None => true,
    })
    &&& (match v.confirm_reaction_id {
        Some(sv) => encode_utf8(sv).len() <= u64::MAX,
        None => true,
    })
    &&& (match v.cancel_reaction_id {
        Some(sv) => encode_utf8(sv).len() <= u64::MAX,
        None => true,
    })
    &&& (match v.auto_reaction_id {
        Some(sv) => encode_utf8(sv).len() <= u64::MAX,
        None => true,
    })
}

/// Reads the reaction bookkeeping half of a stored candidate: the four
/// event identifiers and the room-class flag, which must end the record.
fn decode_candidate_tail(bytes: &[u8], off: usize) -> (r: Option<
    (Option<String>, Option<String>, Option<String>, Option<String>, bool),
>)
    ensures
        forall|v: CandView|
            #[trigger] cand_tail_hyp(bytes@, off as int, v) ==> (r matches Some(out)
                && opt_view(out.0) == v.notification_event_id && opt_view(out.1)
                == v.confirm_reaction_id && opt_view(out.2) == v.cancel_reaction_id
                && opt_view(out.3) == v.auto_reaction_id && out.4 == v.from_encrypted_room),
{
    let ghost whole = bytes@;
    let n = bytes.len();
    let (notification_event_id, o5) = match get_opt_str(bytes, off) {
        Some(p) => p,
        None => {
            proof {
                assert forall|v: CandView| !#[trigger] cand_tail_hyp(whole, off as int, v) by {
                    if cand_tail_hyp(whole, off as int, v) {
                    }
                }
            }
            return None;
        },
    };
    proof {
        assert forall|v: CandView|
            #[trigger] cand_tail_hyp(whole, off as int, v) implies o5 == off + enc_opt_str(v.notification_event_id).len() && o5
            <= whole.len() && whole.skip(o5 as int) == enc_opt_str(v.confirm_reaction_id)
            + cand_tail6(v) by {
            lemma_skip_concat(
                whole,
                off as int,
                enc_opt_str(v.notification_event_id),
                cand_tail5(v),
            );
        }
    }
    let (confirm_reaction_id, o6) = match get_opt_str(bytes, o5) {
        Some(p) => p,
        None => {
            proof {
                assert forall|v: CandView| !#[trigger] cand_tail_hyp(whole, off as int, v) by {
                    if cand_tail_hyp(whole, off as int, v) {
                    }
                }
            }
            return None;
        },
    };
    proof {
        assert forall|v: CandView|
            #[trigger] cand_tail_hyp(whole, off as int, v) implies o6 == o5 + enc_opt_str(v.confirm_reaction_id).len() && o6
            <= whole.len() && whole.skip(o6 as int) == enc_opt_str(v.cancel_reaction_id)
            + cand_tail7(v) by {
            lemma_skip_concat(
                whole,
                o5 as int,
                enc_opt_str(v.confirm_reaction_id),
                cand_tail6(v),
            );
        }
    }
    let (cancel_reaction_id, o7) = match get_opt_str(bytes, o6) {
        Some(p) => p,
        None => {
            proof {
                assert forall|v: CandView| !#[trigger] cand_tail_hyp(whole, off as int, v) by {
                    if cand_tail_hyp(whole, off as int, v) {
                    }
                }
            }
            return None;
        },
    };
    proof {
        assert forall|v: CandView|
            #[trigger] cand_tail_hyp(whole, off as int, v) implies o7 == o6 + enc_opt_str(v.cancel_reaction_id).len() && o7
            <= whole.len() && whole.skip(o7 as int) == enc_opt_str(v.auto_reaction_id)
            + (enc_bool(v.from_encrypted_room) + Seq::<u8>::empty()) by {
            lemma_skip_concat(
                whole,
                o6 as int,
                enc_opt_str(v.cancel_reaction_id),
                cand_tail7(v),
            );
            assert(cand_tail7(v) =~= enc_opt_str(v.auto_reaction_id) + (enc_bool(
                v.from_encrypted_room,
            ) + Seq::<u8>::empty()));
        }
    }
    let (auto_reaction_id, o8) = match get_opt_str(bytes, o7) {
        Some(p) => p,
        None => {
            proof {
                assert forall|v: CandView| !#[trigger] cand_tail_hyp(whole, off as int, v) by {
                    if cand_tail_hyp(whole, off as int, v) {
                    }
                }
            }
            return None;
        },
    };
    proof {
        assert forall|v: CandView|
            #[trigger] cand_tail_hyp(whole, off as int, v) implies o8 == o7 + enc_opt_str(v.auto_reaction_id).len() && o8
            <= whole.len() && whole.skip(o8 as int) == enc_bool(v.from_encrypted_room)
            + Seq::<u8>::empty() by {
            lemma_skip_concat(
                whole,
                o7 as int,
                enc_opt_str(v.auto_reaction_id),
                enc_bool(v.from_encrypted_room) + Seq::<u8>::empty(),
            );
        }
    }
    let (from_encrypted_room, o9) = match get_bool(bytes, o8) {
        Some(p) => p,
        None => {
            proof {
                assert forall|v: CandView| !#[trigger] cand_tail_hyp(whole, off as int, v) by {
                    if cand_tail_hyp(whole, off as int, v) {
                        lemma_bool_at(whole, o8 as int, v.from_encrypted_room, Seq::empty());
                    }
                }
            }
            return None;
        },
    };
    if o9 != n {
        proof {
            assert forall|v: CandView| !#[trigger] cand_tail_hyp(whole, off as int, v) by {
                if cand_tail_hyp(whole, off as int, v) {
                    lemma_bool_at(whole, o8 as int, v.from_encrypted_room, Seq::empty());
                    assert(whole.skip(o8 + 1) =~= Seq::<u8>::empty());
                    assert(whole.len() == o8 + 1);
                }
            }
        }
        return None;
    }
    proof {
        assert forall|v: CandView|
            #[trigger] cand_tail_hyp(whole, off as int, v) implies from_encrypted_room == v.from_encrypted_room by {
            lemma_bool_at(whole, o8 as int, v.from_encrypted_room, Seq::empty());
        }
    }
    Some(
        (
            notification_event_id,
            confirm_reaction_id,
            cancel_reaction_id,
            auto_reaction_id,
            from_encrypted_room,
        ),
    )
}


#[verifier::rlimit(100)]
proof fn lemma_candidate_layout(whole: Seq<u8>, v: CandView)
    requires
        whole == enc_candidate(v),
        whole.len() <= usize::MAX,
    ensures
        whole.len() >= 1,
        whole[0] == 4,
        whole.skip(1) == enc_str(v.mxc) + cand_tail1(v),
        encode_utf8(v.mxc).len() <= u64::MAX,
        match v.user_id {
            Some(sv) => encode_utf8(sv).len() <= u64::MAX,
            None => true,
        },
        match v.notification_event_id {
            Some(sv) => encode_utf8(sv).len() <= u64::MAX,
            None => true,
        },
        match v.confirm_reaction_id {
            Some(sv) => encode_utf8(sv).len() <= u64::MAX,
            None => true,
        },
        match v.cancel_reaction_id {
            Some(sv) => encode_utf8(sv).len() <= u64::MAX,
            None => true,
        },
        match v.auto_reaction_id {
            Some(sv) => encode_utf8(sv).len() <= u64::MAX,
            None => true,
        },
{
    let r1 = enc_str(v.mxc) + cand_tail1(v);
    assert(whole =~= seq![4u8] + r1);
    lemma_tag_at(whole, 4, r1);
    assert(encode_utf8(v.mxc).len() <= whole.len());
    match v.user_id {
        Some(sv) => {
            assert(encode_utf8(sv).len() <= whole.len());
        },
        None => {},
    }
    match v.notification_event_id {
        Some(sv) => {
            assert(encode_utf8(sv).len() <= whole.len());
        },
        None => {},
    }
    match v.confirm_reaction_id {
        Some(sv) => {
            assert(encode_utf8(sv).len() <= whole.len());
        },
        None => {},
    }
    match v.cancel_reaction_id {
        Some(sv) => {
            assert(encode_utf8(sv).len() <= whole.len());
        },
        None => {},
    }
    match v.auto_reaction_id {
        Some(sv) => {
            assert(encode_utf8(sv).len() <= whole.len());
        },
        None => {},
    }
}

/// Reads the identifying half of a stored candidate: the identifier, its
/// enqueue time, its owner and the confirmation flag, handing back the
/// offset where the reaction bookkeeping starts.
#[verifier::rlimit(60)]
#[verifier::spinoff_prover]
fn decode_candidate_head(bytes: &[u8]) -> (r: Option<
    (String, u64, Option<String>, bool, usize),
>)
    ensures
        forall|v: CandView|
            bytes@ == enc_candidate(v) ==> (r matches Some(h) && h.0@ == v.mxc && h.1
                == v.enqueued_ts && opt_view(h.2) == v.user_id && h.3
                == v.awaiting_confirmation && cand_tail_hyp(bytes@, h.4 as int, v)),
{
    let ghost whole = bytes@;
    let n = bytes.len();
    proof {
        assert forall|v: CandView|
            whole == enc_candidate(v) implies whole.len() >= 1 && whole[0] == 4 && whole.skip(
            1,
        ) == enc_str(v.mxc) + cand_tail1(v) && encode_utf8(v.mxc).len() <= u64::MAX && (
        match v.user_id {
            Some(sv) => encode_utf8(sv).len() <= u64::MAX,
            None => true,
        }) by {
            lemma_candidate_layout(whole, v);
        }
    }
    if n < 1 {
        return None;
    }
    let tag = *vstd::slice::slice_index_get(bytes, 0);
    if tag != 4 {
        return None;
    }
    let (mxc, o1) = match get_str(bytes, 1) {
        Some(p) => p,
        None => {
            proof {
                assert forall|v: CandView| whole != enc_candidate(v) by {
                    if whole == enc_candidate(v) {
                    }
                }
            }
            return None;
        },
    };
    proof {
        assert forall|v: CandView|
            whole == enc_candidate(v) implies o1 == 1 + enc_str(v.mxc).len() && o1
            <= whole.len() && whole.skip(o1 as int) == enc_u64(v.enqueued_ts)
            + cand_tail2(v) by {
            lemma_skip_concat(whole, 1, enc_str(v.mxc), cand_tail1(v));
            lemma_enc_u64(encode_utf8(v.mxc).len() as u64);
        }
    }
    let (enqueued_ts, o2) = match get_u64(bytes, o1) {
        Some(p) => p,
        None => {
            proof {
                assert forall|v: CandView| whole != enc_candidate(v) by {
                    if whole == enc_candidate(v) {
                        lemma_u64_at(whole, o1 as int, v.enqueued_ts, cand_tail2(v));
                    }
                }
            }
            return None;
        },
    };
    proof {
        assert forall|v: CandView|
            whole == enc_candidate(v) implies enqueued_ts == v.enqueued_ts && o2 == o1 + 8
            && o2 <= whole.len() && whole.skip(o2 as int) == enc_opt_str(v.user_id)
            + cand_tail3(v) by {
            lemma_u64_at(whole, o1 as int, v.enqueued_ts, cand_tail2(v));
        }
    }
    let (user_id, o3) = match get_opt_str(bytes, o2) {
        Some(p) => p,
        None => {
            proof {
                assert forall|v: CandView| whole != enc_candidate(v) by {
                    if whole == enc_candidate(v) {
                    }
                }
            }
            return None;
        },
    };
    proof {
        assert forall|v: CandView|
            whole == enc_candidate(v) implies o3 == o2 + enc_opt_str(v.user_id).len() && o3
            <= whole.len() && whole.skip(o3 as int) == enc_bool(v.awaiting_confirmation)
            + cand_tail4(v) by {
            lemma_skip_concat(whole, o2 as int, enc_opt_str(v.user_id), cand_tail3(v));
        }
    }
    let (awaiting_confirmation, o4) = match get_bool(bytes, o3) {
        Some(p) => p,
        None => {
            proof {
                assert forall|v: CandView| whole != enc_candidate(v) by {
                    if whole == enc_candidate(v) {
                        lemma_bool_at(
                            whole,
                            o3 as int,
                            v.awaiting_confirmation,
                            cand_tail4(v),
                        );
                    }
                }
            }
            return None;
        },
    };
    proof {
        assert forall|v: CandView|
            whole == enc_candidate(v) implies awaiting_confirmation == v.awaiting_confirmation
            && cand_tail_hyp(whole, o4 as int, v) by {
            lemma_candidate_layout(whole, v);
            lemma_bool_at(whole, o3 as int, v.awaiting_confirmation, cand_tail4(v));
        }
    }
    Some((mxc, enqueued_ts, user_id, awaiting_confirmation, o4))
}

/// Reads a deletion candidate back; the encoding of any record decodes to
/// that record.
pub fn decode_candidate(bytes: &[u8]) -> (r: Option<DeletionCandidate>)
    ensures
        forall|v: CandView| bytes@ == enc_candidate(v) ==> (r matches Some(out) && out@ == v),
{
    let (mxc, enqueued_ts, user_id, awaiting_confirmation, off) = match decode_candidate_head(
        bytes,
    ) {
        Some(h) => h,
        None => {
            return None;
        },
    };
    let (notification_event_id, confirm_reaction_id, cancel_reaction_id, auto_reaction_id,
        from_encrypted_room) = match decode_candidate_tail(bytes, off) {
        Some(p) => p,
        None => {
            return None;
        },
    };
    Some(
        DeletionCandidate {
            mxc,
            enqueued_ts,
            user_id,
            awaiting_confirmation,
            notification_event_id,
            confirm_reaction_id,
            cancel_reaction_id,
            auto_reaction_id,
            from_encrypted_room,
        },
    )
}

} // verus!
