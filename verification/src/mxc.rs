//! Media identifiers and user identifiers as grammars over characters: an
//! `mxc://<server>/<id>` URI with non-empty parts, and the server part of a
//! user identifier, used to decide locality.

use vstd::prelude::*;
use vstd::string::StrSliceExecFns;
use crate::strutil::{str_eq, str_starts_with};

verus! {

/// Position `p` separates the server part from the opaque part: it holds
/// the first slash after the scheme, with both parts non-empty.
pub open spec fn slash_sep(s: Seq<char>, p: int) -> bool {
    6 < p < s.len() - 1 && s[p] == '/' && (forall|q: int| 6 <= q < p ==> s[q] != '/')
}

/// A well-formed media identifier: the scheme, a non-empty server part
/// without a slash, a slash, and a non-empty opaque part.
pub open spec fn is_valid_mxc(s: Seq<char>) -> bool {
    &&& s.len() > 7
    &&& s.subrange(0, 6) == "mxc://"@
    &&& exists|p: int| #[trigger] slash_sep(s, p)
}

/// Splits a media identifier into its server and opaque parts; `None`
/// exactly on malformed input.
pub fn parse_mxc(s: &str) -> (r: Option<(String, String)>)
    ensures
        r is Some <==> is_valid_mxc(s@),
        match r {
            Some(parts) => exists|p: int|
                #[trigger] slash_sep(s@, p) && parts.0@ == s@.subrange(6, p) && parts.1@
                    == s@.subrange(p + 1, s@.len() as int),
            None => true,
        },
{
    proof {
        reveal_strlit("mxc://");
    }
    if !str_starts_with(s, "mxc://") {
        assert(!is_valid_mxc(s@));
        return None;
    }
    let n = s.unicode_len();
    let mut i: usize = 6;
    while i < n
        invariant
            6 <= i <= n,
            n == s@.len(),
            n >= 6,
            s@.subrange(0, 6) == "mxc://"@,
            forall|q: int| 6 <= q < i ==> s@[q] != '/',
        decreases n - i,
    {
        proof {
            reveal_strlit("mxc://");
        }
        if s.get_char(i) == '/' {
            if i == 6 || i + 1 >= n {
                assert(!is_valid_mxc(s@)) by {
                    if is_valid_mxc(s@) {
                        let p = choose|p: int| slash_sep(s@, p);
                        assert(p != i);
                        if p < i {
                            assert(s@[p] != '/');
                        } else {
                            assert(s@[i as int] != '/');
                        }
                    }
                }
                return None;
            }
            let server = s.substring_char(6, i).to_owned();
            let id = s.substring_char(i + 1, n).to_owned();
            assert(slash_sep(s@, i as int));
            assert(s@.len() > 7);
            assert("mxc://"@.len() == 6);
            assert(s@.subrange(0, 6) =~= "mxc://"@);
            assert(exists|p: int| #[trigger] slash_sep(s@, p));
            assert(is_valid_mxc(s@));
            return Some((server, id));
        }
        i += 1;
    }
    assert(!is_valid_mxc(s@)) by {
        if is_valid_mxc(s@) {
            let p = choose|p: int| slash_sep(s@, p);
            assert(s@[p] != '/');
        }
    }
    None
}

/// Whether a media identifier is well formed.
pub fn mxc_is_valid(s: &str) -> (r: bool)
    ensures
        r == is_valid_mxc(s@),
{
    match parse_mxc(s) {
        Some(_) => true,
        None => false,
    }
}

/// Whether a user identifier names an account on the given server: the
/// characters after its first colon are exactly the server name.
pub open spec fn user_on_server(u: Seq<char>, srv: Seq<char>) -> bool {
    exists|p: int|
        0 <= p < u.len() && u[p] == ':' && (forall|q: int| 0 <= q < p ==> u[q] != ':')
            && u.subrange(p + 1, u.len() as int) == srv
}

/// Decides whether a user identifier belongs to the given server.
pub fn user_is_on_server(user: &str, server_name: &str) -> (r: bool)
    ensures
        r == user_on_server(user@, server_name@),
{
    let n = user.unicode_len();
    let mut i: usize = 0;
    while i < n
        invariant
            0 <= i <= n,
            n == user@.len(),
            forall|q: int| 0 <= q < i ==> user@[q] != ':',
        decreases n - i,
    {
        if user.get_char(i) == ':' {
            let rest = user.substring_char(i + 1, n);
            let r = str_eq(rest, server_name);
            proof {
                if r {
                    assert(user_on_server(user@, server_name@)) by {
                        assert(0 <= i < user@.len() && user@[i as int] == ':');
                    }
                } else {
                    assert(!user_on_server(user@, server_name@)) by {
                        if user_on_server(user@, server_name@) {
                            let p = choose|p: int|
                                0 <= p < user@.len() && user@[p] == ':' && (forall|q: int|
                                    0 <= q < p ==> user@[q] != ':') && user@.subrange(
                                    p + 1,
                                    user@.len() as int,
                                ) == server_name@;
                            assert(p == i);
                        }
                    }
                }
            }
            return r;
        }
        i += 1;
    }
    assert(!user_on_server(user@, server_name@)) by {
        if user_on_server(user@, server_name@) {
            let p = choose|p: int|
                0 <= p < user@.len() && user@[p] == ':' && (forall|q: int|
                    0 <= q < p ==> user@[q] != ':') && user@.subrange(p + 1, user@.len() as int)
                    == server_name@;
            assert(user@[p] != ':');
        }
    }
    false
}

} // verus!
