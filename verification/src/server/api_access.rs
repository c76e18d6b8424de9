//! Who may call the management API: a request that carries the API token,
//! any request when no web user is configured, or one whose cookie names a
//! live login session.

use super::web::{api_token_ok, check_api_token, cookie_session, query_token, session_token, valid_session, Sessions};
use crate::text::{is_space, lemma_first_index, split, starts_with, trim, trim_end, trim_start};
use vstd::prelude::*;

verus! {

broadcast use vstd::string::group_string_axioms;

/// An optional text as characters.
pub open spec fn opt_text(o: Option<&str>) -> Option<Seq<char>> {
    match o {
        Some(t) => Some(t@),
        None => None,
    }
}

/// Whether a request may use the API: it carries the API token, or no web
/// user is configured, or its cookie names a live login session.
pub open spec fn authorized(
    sessions: Seq<(String, u64)>,
    api_token: Seq<char>,
    web_user: Seq<char>,
    auth: Option<Seq<char>>,
    query: Option<Seq<char>>,
    cookie: Seq<char>,
    now: u64,
) -> bool {
    ||| (api_token.len() > 0 && api_token_ok(auth, query, api_token))
    ||| web_user.len() == 0
    ||| match cookie_session(split(cookie, ';')) {
        Some(t) => valid_session(sessions, t, now),
        None => false,
    }
}

/// Whether a request with these headers may use the API at `now`; the
/// others are answered 401.
pub fn request_authorized(
    sessions: &Sessions,
    api_token: &str,
    web_user: &str,
    auth: Option<&str>,
    query: Option<&str>,
    cookie: &str,
    now: u64,
) -> (b: bool)
    ensures
        b == authorized(sessions.entries@, api_token@, web_user@, opt_text(auth), opt_text(query), cookie@, now),
{
    if !api_token.is_empty() && check_api_token(auth, query, api_token) {
        return true;
    }
    if web_user.is_empty() {
        return true;
    }
    match session_token(cookie) {
        Some(t) => sessions.is_valid(t.as_str(), now),
        None => false,
    }
}

/// `s` is one piece when it holds no `c`.
proof fn lemma_split_whole(s: Seq<char>, c: char)
    requires
        !s.contains(c),
    ensures
        split(s, c) == seq![s],
{
    assert forall|j: int| 0 <= j < s.len() implies #[trigger] s[j] != c by {
        if s[j] == c {
            assert(s.contains(c));
        }
    }
    lemma_first_index(s, c, s.len() as int);
}

/// Each documented way of presenting credentials opens the API: the API
/// token as `Authorization: Bearer <token>`, the API token as the query
/// `token=<token>` (a token without `&`), and the cookie `session=<t>` of a
/// live login session (a token without `;` that does not end in white
/// space).
pub proof fn lemma_presented_credentials_authorize(
    sessions: Seq<(String, u64)>,
    api_token: Seq<char>,
    web_user: Seq<char>,
    t: Seq<char>,
    now: u64,
)
    ensures
        api_token.len() > 0 ==> authorized(sessions, api_token, web_user, Some("Bearer "@ + api_token), None, ""@, now),
        api_token.len() > 0 && !api_token.contains('&') ==> authorized(
            sessions,
            api_token,
            web_user,
            None,
            Some("token="@ + api_token),
            ""@,
            now,
        ),
        valid_session(sessions, t, now) && !t.contains(';') && (t.len() == 0 || !is_space(t.last()))
            ==> authorized(sessions, api_token, web_user, None, None, "session="@ + t, now),
{
    reveal_strlit("Bearer ");
    reveal_strlit("token=");
    reveal_strlit("session=");
    let b = "Bearer "@ + api_token;
    assert(b.take(7) =~= "Bearer "@);
    assert(b.skip(7) =~= api_token);
    assert(starts_with(b, "Bearer "@));
    if api_token.len() > 0 && !api_token.contains('&') {
        let q = "token="@ + api_token;
        if q.contains('&') {
            let j = choose|j: int| 0 <= j < q.len() && q[j] == '&';
            if j >= 6 {
                assert(api_token[j - 6] == '&');
                assert(api_token.contains('&'));
            }
        }
        lemma_split_whole(q, '&');
        assert(q.take(6) =~= "token="@);
        assert(q.skip(6) =~= api_token);
        assert(query_token(seq![q]) == Some(api_token));
    }
    if valid_session(sessions, t, now) && !t.contains(';') && (t.len() == 0 || !is_space(t.last())) {
        let c = "session="@ + t;
        if c.contains(';') {
            let j = choose|j: int| 0 <= j < c.len() && c[j] == ';';
            if j >= 8 {
                assert(t[j - 8] == ';');
                assert(t.contains(';'));
            }
        }
        lemma_split_whole(c, ';');
        assert(!is_space(c[0]));
        assert(trim_start(c) == c);
        assert(!is_space(c.last()));
        assert(trim_end(c) == c);
        assert(trim(c) == c);
        assert(c.take(8) =~= "session="@);
        assert(c.skip(8) =~= t);
        assert(seq![c].last() == c);
        assert(cookie_session(seq![c]) == Some(t));
    }
}

} // verus!
