//! Routing of HTTP virtual hosts: the host a request head names, its basic
//! credentials, and the head rewritten for a service that replaces the
//! `Host` header.

use super::headers::{crlf_bounds, crlf_lines, find_head_end, head_end, lower_byte, lower_byte_exec, lower_bytes};
use crate::protocol::encoding::{base64_decode, base64_text, lemma_base64_injective};
use crate::text::{
    chars_of, extend_bytes, find_char, first_index, lemma_first_index, lemma_first_index_props, range_eq, lowercase, lowercase_range, range_starts_with,
    splitn, split_bounds, starts_with, str_eq, sub_string, trim, trim_bounds, utf8_text,
};
use vstd::prelude::*;
use vstd::utf8::{decode_utf8, encode_utf8, is_continuation_byte, valid_utf8};
use crate::protocol::msg::pairs;
use super::service::ServiceEntry;

verus! {

broadcast use vstd::string::group_string_axioms;

/// `host:` in bytes.
pub open spec fn host_prefix() -> Seq<u8> {
    seq![0x68u8, 0x6f, 0x73, 0x74, 0x3a]
}

/// Whether a head line names the host (`Host:` in any case, with more after
/// it).
pub open spec fn is_host_line(l: Seq<u8>) -> bool {
    l.len() > 5 && lower_bytes(l.take(5)) == host_prefix()
}

/// Whether taking the first five bytes of the line would split a character.
pub open spec fn cuts_char(l: Seq<u8>) -> bool {
    l.len() > 5 && is_continuation_byte(l[5])
}

/// Scanning the lines for the host line: `None` where the scan would split
/// a character, else the host line if there is one.
pub open spec fn scan_host(lines: Seq<Seq<u8>>) -> Option<Option<Seq<u8>>>
    decreases lines.len(),
{
    if lines.len() == 0 {
        Some(None)
    } else if cuts_char(lines[0]) {
        None
    } else if is_host_line(lines[0]) {
        Some(Some(lines[0]))
    } else {
        scan_host(lines.drop_first())
    }
}

/// `t` up to its first `:`.
pub open spec fn before_colon(t: Seq<char>) -> Seq<char> {
    match first_index(t, ':') {
        Some(i) => t.take(i as int),
        None => t,
    }
}

/// The host a host line names: its value, trimmed, without a port.
pub open spec fn host_value(l: Seq<u8>) -> Option<Seq<char>> {
    let rest = l.skip(5);
    if valid_utf8(rest) {
        Some(before_colon(trim(decode_utf8(rest))))
    } else {
        None
    }
}

/// The bytes of the head of request `d` (before its blank line).
pub open spec fn head_bytes(d: Seq<u8>) -> Seq<u8> {
    d.take(head_end(d))
}

/// The host a request head names, if its head is valid UTF-8 and has a host
/// line.
pub open spec fn request_host(d: Seq<u8>) -> Option<Seq<char>> {
    let hb = head_bytes(d);
    if !valid_utf8(hb) {
        None
    } else {
        match scan_host(crlf_lines(hb)) {
            Some(Some(l)) => host_value(l),
            _ => None,
        }
    }
}

/// Whether looking for the host of `d` would split a character (where the
/// byte-indexed scan of the head panics).
pub open spec fn host_scan_splits_char(d: Seq<u8>) -> bool {
    valid_utf8(head_bytes(d)) && scan_host(crlf_lines(head_bytes(d))) is None
}

fn copy_range(d: &[u8], lo: usize, hi: usize) -> (v: Vec<u8>)
    requires
        lo <= hi <= d@.len(),
    ensures
        v@ == d@.subrange(lo as int, hi as int),
{
    let mut v: Vec<u8> = Vec::new();
    let mut i = lo;
    while i < hi
        invariant
            lo <= i <= hi <= d@.len(),
            v@ == d@.subrange(lo as int, i as int),
        decreases hi - i,
    {
        v.push(d[i]);
        proof {
            assert(d@.subrange(lo as int, i + 1) == d@.subrange(lo as int, i as int).push(d@[i as int]));
        }
        i = i + 1;
    }
    v
}

fn starts_host(d: &[u8], a: usize) -> (b: bool)
    requires
        a + 5 <= d@.len(),
    ensures
        b == (lower_bytes(d@.subrange(a as int, a + 5)) == host_prefix()),
{
    let r = lower_byte_exec(d[a]) == 0x68 && lower_byte_exec(d[a + 1]) == 0x6f && lower_byte_exec(
        d[a + 2],
    ) == 0x73 && lower_byte_exec(d[a + 3]) == 0x74 && lower_byte_exec(d[a + 4]) == 0x3a;
    proof {
        let s = lower_bytes(d@.subrange(a as int, a + 5));
        if r {
            assert(s =~= host_prefix());
        } else {
            if s == host_prefix() {
                assert(s[0] == lower_byte(d@[a as int]));
                assert(s[1] == lower_byte(d@[a + 1]));
                assert(s[2] == lower_byte(d@[a + 2]));
                assert(s[3] == lower_byte(d@[a + 3]));
                assert(s[4] == lower_byte(d@[a + 4]));
            }
        }
    }
    r
}

/// `s` trimmed and cut at its first `:`.
fn host_text(s: &str) -> (h: String)
    ensures
        h@ == before_colon(trim(s@)),
{
    let c = chars_of(s);
    proof {
        assert(c@.subrange(0, c@.len() as int) == c@);
    }
    let (a, b) = trim_bounds(c.as_slice(), 0, c.len());
    match find_char(c.as_slice(), a, b, ':') {
        Some(i) => {
            proof {
                assert(c@.subrange(a as int, a + i) == c@.subrange(a as int, b as int).take(i as int));
            }
            sub_string(c.as_slice(), a, a + i)
        },
        None => sub_string(c.as_slice(), a, b),
    }
}

/// The host named by the head of request `d`.
pub fn extract_host(data: &[u8]) -> (r: Option<String>)
    requires
        !host_scan_splits_char(data@),
    ensures
        match request_host(data@) {
            Some(h) => r matches Some(s) && s@ == h,
            None => r is None,
        },
{
    let end = find_head_end(data);
    proof {
        assert(data@.subrange(0, end as int) == head_bytes(data@));
    }
    let head = copy_range(data, 0, end);
    match utf8_text(head) {
        None => {
            return None;
        },
        Some(_) => {},
    }
    let lines = crlf_bounds(data, 0, end);
    let ghost ls = crlf_lines(head_bytes(data@));
    proof {
        assert(ls.skip(0) == ls);
    }
    let mut k: usize = 0;
    while k < lines.len()
        invariant
            ls == crlf_lines(head_bytes(data@)),
            valid_utf8(head_bytes(data@)),
            lines@.len() == ls.len(),
            forall|j: int| 0 <= j < lines@.len() ==> 0 <= (#[trigger] lines@[j]).0 <= lines@[j].1 <= end,
            end <= data@.len(),
            forall|j: int|
                0 <= j < lines@.len() ==> data@.subrange((#[trigger] lines@[j]).0 as int, lines@[j].1 as int)
                    == ls[j],
            0 <= k <= ls.len(),
            scan_host(ls) == scan_host(ls.skip(k as int)),
            scan_host(ls) is Some,
        decreases ls.len() - k,
    {
        let (a, b) = lines[k];
        let ghost l = ls[k as int];
        proof {
            assert(ls.skip(k as int)[0] == l);
            assert(ls.skip(k as int).drop_first() == ls.skip(k + 1));
            assert(l.len() == b - a);
        }
        if b - a > 5 {
            proof {
                assert(l[5] == data@[a + 5]);
                assert(!cuts_char(l));
                assert(l.take(5) == data@.subrange(a as int, a + 5));
            }
            if starts_host(data, a) {
                let rest = copy_range(data, a + 5, b);
                proof {
                    assert(rest@ == l.skip(5));
                }
                return match utf8_text(rest) {
                    Some(s) => Some(host_text(s.as_str())),
                    None => None,
                };
            }
        }
        k = k + 1;
    }
    proof {
        assert(ls.skip(ls.len() as int).len() == 0);
    }
    None
}

/// `t` after its first `:` (empty when it has none).
pub open spec fn after_colon(t: Seq<char>) -> Seq<char> {
    match first_index(t, ':') {
        Some(i) => t.skip(i + 1int),
        None => Seq::empty(),
    }
}

/// Whether a head line carries credentials: `Authorization:` or
/// `Proxy-Authorization:`, in any case.
pub open spec fn is_auth_line(line: Seq<char>) -> bool {
    let l = lowercase(line);
    starts_with(l, "authorization:"@) || starts_with(l, "proxy-authorization:"@)
}

/// The base64 token of a `Basic` (or `basic`) value, trimmed.
pub open spec fn basic_token(line: Seq<char>) -> Option<Seq<char>> {
    let val = trim(after_colon(line));
    if starts_with(val, "Basic "@) || starts_with(val, "basic "@) {
        Some(trim(val.skip(6)))
    } else {
        None
    }
}

/// Whether `user:pass` text `s` names `user` and `pass`: the text before its
/// first `:` is the user, the rest the password (empty without a `:`).
pub open spec fn credentials_match(s: Seq<char>, user: Seq<char>, pass: Seq<char>) -> bool {
    match first_index(s, ':') {
        Some(i) => s.take(i as int) == user && s.skip(i + 1int) == pass,
        None => s == user && pass.len() == 0,
    }
}

/// What a base64 token says of the credentials: nothing when it is not the
/// base64 of UTF-8 text, else whether that text matches.
pub open spec fn token_verdict(tok: Seq<char>, user: Seq<char>, pass: Seq<char>) -> Option<bool> {
    if exists|x: Seq<u8>| base64_text(x) == tok {
        let x = choose|x: Seq<u8>| base64_text(x) == tok;
        if valid_utf8(x) {
            Some(credentials_match(decode_utf8(x), user, pass))
        } else {
            None
        }
    } else {
        None
    }
}

/// What a head line says of the credentials: nothing (it is no usable basic
/// credentials line), or whether they match.
pub open spec fn line_verdict(line: Seq<u8>, user: Seq<char>, pass: Seq<char>) -> Option<bool> {
    if !valid_utf8(line) {
        None
    } else {
        let c = decode_utf8(line);
        if !is_auth_line(c) {
            None
        } else {
            match basic_token(c) {
                Some(tok) => token_verdict(tok, user, pass),
                None => None,
            }
        }
    }
}

/// The verdict of the first line that has one; `false` when none has.
pub open spec fn first_verdict(lines: Seq<Seq<u8>>, user: Seq<char>, pass: Seq<char>) -> bool
    decreases lines.len(),
{
    if lines.len() == 0 {
        false
    } else {
        match line_verdict(lines[0], user, pass) {
            Some(b) => b,
            None => first_verdict(lines.drop_first(), user, pass),
        }
    }
}

/// Whether request `d` carries basic credentials `user`:`pass`: its head is
/// UTF-8, and the first credentials line with a decodable basic token names
/// them.
pub open spec fn basic_auth_ok(d: Seq<u8>, user: Seq<char>, pass: Seq<char>) -> bool {
    valid_utf8(head_bytes(d)) && first_verdict(crlf_lines(head_bytes(d)), user, pass)
}

fn text_chars(s: &str) -> (c: Vec<char>)
    ensures
        c@ == s@,
{
    chars_of(s)
}

/// Whether the `user:pass` text `s` names `user` and `pass`.
fn credentials_in(s: &str, user: &str, pass: &str) -> (b: bool)
    ensures
        b == credentials_match(s@, user@, pass@),
{
    let c = text_chars(s);
    let u = text_chars(user);
    let p = text_chars(pass);
    proof {
        assert(c@.subrange(0, c@.len() as int) == c@);
    }
    match find_char(c.as_slice(), 0, c.len(), ':') {
        Some(i) => {
            proof {
                lemma_first_index_props(c@, ':');
                assert(c@.subrange(0, i as int) == c@.take(i as int));
                assert(c@.subrange(i + 1, c@.len() as int) == c@.skip(i + 1));
            }
            range_eq(c.as_slice(), 0, i, u.as_slice()) && range_eq(
                c.as_slice(),
                i + 1,
                c.len(),
                p.as_slice(),
            )
        },
        None => range_eq(c.as_slice(), 0, c.len(), u.as_slice()) && p.len() == 0,
    }
}

/// What a base64 token says of the credentials.
fn token_check(tok: &str, user: &str, pass: &str) -> (r: Option<bool>)
    ensures
        r == token_verdict(tok@, user@, pass@),
{
    match base64_decode(tok) {
        None => None,
        Some(x0) => {
            proof {
                let x = choose|x: Seq<u8>| base64_text(x) == tok@;
                lemma_base64_injective(x, x0@);
            }
            match utf8_text(x0) {
                None => None,
                Some(s) => Some(credentials_in(s.as_str(), user, pass)),
            }
        },
    }
}

/// Basic credentials are read back as they were written: the token
/// `base64(user ":" pass)` (of the UTF-8 text) names exactly `user` and
/// `pass`, for every user name without a colon, so it passes the check for
/// those credentials and fails it for any others.
pub proof fn lemma_basic_token_round_trip(user: Seq<char>, pass: Seq<char>, u: Seq<char>, p: Seq<char>)
    requires
        !user.contains(':'),
    ensures
        token_verdict(base64_text(encode_utf8(user + ":"@ + pass)), u, p) == Some(user == u && pass == p),
{
    reveal_strlit(":");
    let s = user + ":"@ + pass;
    let x0 = encode_utf8(s);
    let tok = base64_text(x0);
    assert(exists|x: Seq<u8>| base64_text(x) == tok);
    let x = choose|x: Seq<u8>| base64_text(x) == tok;
    lemma_base64_injective(x, x0);
    vstd::utf8::encode_utf8_valid_utf8(s);
    vstd::utf8::encode_utf8_decode_utf8(s);
    assert(s[user.len() as int] == ':');
    assert forall|j: int| 0 <= j < user.len() implies #[trigger] s[j] != ':' by {
        assert(s[j] == user[j]);
    }
    lemma_first_index(s, ':', user.len() as int);
    assert(s.take(user.len() as int) =~= user);
    assert(s.skip(user.len() + 1int) =~= pass);
}

/// What the text of a head line says of the credentials.
fn line_check(line: &str, user: &str, pass: &str) -> (r: Option<bool>)
    ensures
        r == (if !is_auth_line(line@) {
            None
        } else {
            match basic_token(line@) {
                Some(tok) => token_verdict(tok, user@, pass@),
                None => None,
            }
        }),
{
    let c = text_chars(line);
    let n = c.len();
    proof {
        assert(c@.subrange(0, n as int) == c@);
    }
    let lower = lowercase_range(c.as_slice(), 0, n);
    let a1 = text_chars("authorization:");
    let a2 = text_chars("proxy-authorization:");
    proof {
        assert(lower@.len() == n);
        assert(lower@.subrange(0, a1@.len() as int) == lower@.take(a1@.len() as int));
        assert(lower@.subrange(0, a2@.len() as int) == lower@.take(a2@.len() as int));
    }
    let is_auth = range_starts_with(lower.as_slice(), 0, n, a1.as_slice()) || range_starts_with(
        lower.as_slice(),
        0,
        n,
        a2.as_slice(),
    );
    if !is_auth {
        return None;
    }
    let after: usize = match find_char(c.as_slice(), 0, n, ':') {
        Some(i) => i + 1,
        None => n,
    };
    proof {
        lemma_first_index_props(c@, ':');
        assert(c@.subrange(after as int, n as int) == after_colon(c@));
    }
    let (va, vb) = trim_bounds(c.as_slice(), after, n);
    let p1 = text_chars("Basic ");
    let p2 = text_chars("basic ");
    proof {
        reveal_strlit("Basic ");
        reveal_strlit("basic ");
        let val = c@.subrange(va as int, vb as int);
        assert(val.len() >= 6 ==> c@.subrange(va as int, va + 6) == val.take(6));
    }
    let is_basic = range_starts_with(c.as_slice(), va, vb, p1.as_slice()) || range_starts_with(
        c.as_slice(),
        va,
        vb,
        p2.as_slice(),
    );
    if !is_basic {
        return None;
    }
    let (ta, tb) = trim_bounds(c.as_slice(), va + 6, vb);
    proof {
        let val = c@.subrange(va as int, vb as int);
        assert(c@.subrange(va + 6, vb as int) == val.skip(6));
    }
    let tok = sub_string(c.as_slice(), ta, tb);
    token_check(tok.as_str(), user, pass)
}

/// Whether request `data` carries basic credentials `user`:`pass` in an
/// `Authorization` or `Proxy-Authorization` header.
pub fn check_basic_auth(data: &[u8], user: &str, pass: &str) -> (b: bool)
    ensures
        b == basic_auth_ok(data@, user@, pass@),
{
    let end = find_head_end(data);
    proof {
        assert(data@.subrange(0, end as int) == head_bytes(data@));
    }
    let head = copy_range(data, 0, end);
    match utf8_text(head) {
        None => {
            return false;
        },
        Some(_) => {},
    }
    let lines = crlf_bounds(data, 0, end);
    let ghost ls = crlf_lines(head_bytes(data@));
    proof {
        assert(ls.skip(0) == ls);
    }
    let mut k: usize = 0;
    while k < lines.len()
        invariant
            ls == crlf_lines(head_bytes(data@)),
            valid_utf8(head_bytes(data@)),
            lines@.len() == ls.len(),
            forall|j: int| 0 <= j < lines@.len() ==> 0 <= (#[trigger] lines@[j]).0 <= lines@[j].1 <= end,
            end <= data@.len(),
            forall|j: int|
                0 <= j < lines@.len() ==> data@.subrange((#[trigger] lines@[j]).0 as int, lines@[j].1 as int)
                    == ls[j],
            0 <= k <= ls.len(),
            first_verdict(ls, user@, pass@) == first_verdict(ls.skip(k as int), user@, pass@),
        decreases ls.len() - k,
    {
        let (a, b) = lines[k];
        let ghost l = ls[k as int];
        proof {
            assert(ls.skip(k as int)[0] == l);
            assert(ls.skip(k as int).drop_first() == ls.skip(k + 1));
        }
        let bytes = copy_range(data, a, b);
        match utf8_text(bytes) {
            Some(t) => match line_check(t.as_str(), user, pass) {
                Some(r) => {
                    return r;
                },
                None => {},
            },
            None => {},
        }
        k = k + 1;
    }
    proof {
        assert(ls.skip(ls.len() as int).len() == 0);
    }
    false
}

/// CR LF.
pub open spec fn crlf() -> Seq<u8> {
    seq![13u8, 10u8]
}

/// `Host: ` in bytes.
pub open spec fn host_header_start() -> Seq<u8> {
    seq![0x48u8, 0x6f, 0x73, 0x74, 0x3a, 0x20]
}

/// One line of a head whose host is replaced by `host`: a host line (other
/// than the request line) becomes `Host: {host}`; every line ends in CRLF.
pub open spec fn rewritten_line(l: Seq<u8>, first: bool, host: Seq<char>) -> Seq<u8> {
    if !first && l.len() >= 5 && lower_bytes(l.take(5)) == host_prefix() {
        host_header_start() + encode_utf8(host) + crlf()
    } else {
        l + crlf()
    }
}

/// The lines rewritten, in order.
pub open spec fn rewritten_lines(ls: Seq<Seq<u8>>, host: Seq<char>) -> Seq<u8>
    decreases ls.len(),
{
    if ls.len() == 0 {
        Seq::empty()
    } else {
        rewritten_lines(ls.drop_last(), host) + rewritten_line(ls.last(), ls.len() == 1, host)
    }
}

/// `{name}: {value}` CRLF for each added header, in order.
pub open spec fn header_lines(hs: Seq<(Seq<char>, Seq<char>)>) -> Seq<u8>
    decreases hs.len(),
{
    if hs.len() == 0 {
        Seq::empty()
    } else {
        header_lines(hs.drop_last()) + encode_utf8(hs.last().0) + seq![0x3au8, 0x20u8] + encode_utf8(
            hs.last().1,
        ) + crlf()
    }
}

/// The request head `d` as sent to a service that replaces the host: each
/// CRLF-separated piece rewritten, then the added headers.  A head that is
/// not UTF-8 is sent as it came.
pub open spec fn rewritten_head(d: Seq<u8>, host: Seq<char>, extra: Seq<(Seq<char>, Seq<char>)>) -> Seq<u8> {
    if valid_utf8(d) {
        rewritten_lines(crlf_lines(d), host) + header_lines(extra)
    } else {
        d
    }
}

fn push_crlf(out: &mut Vec<u8>)
    ensures
        final(out)@ == old(out)@ + crlf(),
{
    out.push(13);
    out.push(10);
}

/// The head `head` with its host replaced by `host` and the headers `extra`
/// added.
pub fn rewrite_head(head: &[u8], host: &str, extra: &Vec<(String, String)>) -> (r: Vec<u8>)
    ensures
        r@ == rewritten_head(head@, host@, pairs(extra@)),
{
    let n = head.len();
    proof {
        assert(head@.subrange(0, n as int) == head@);
    }
    match utf8_text(copy_range(head, 0, n)) {
        None => {
            return copy_range(head, 0, n);
        },
        Some(_) => {},
    }
    let lines = crlf_bounds(head, 0, n);
    let ghost ls = crlf_lines(head@);
    let mut out: Vec<u8> = Vec::new();
    let mut k: usize = 0;
    proof {
        assert(ls.take(0) =~= Seq::<Seq<u8>>::empty());
    }
    while k < lines.len()
        invariant
            ls == crlf_lines(head@),
            n == head@.len(),
            lines@.len() == ls.len(),
            forall|j: int| 0 <= j < lines@.len() ==> 0 <= (#[trigger] lines@[j]).0 <= lines@[j].1 <= n,
            forall|j: int|
                0 <= j < lines@.len() ==> head@.subrange((#[trigger] lines@[j]).0 as int, lines@[j].1 as int)
                    == ls[j],
            0 <= k <= ls.len(),
            out@ == rewritten_lines(ls.take(k as int), host@),
        decreases ls.len() - k,
    {
        let (a, b) = lines[k];
        let ghost l = ls[k as int];
        let ghost before = out@;
        proof {
            assert(ls.take(k + 1).drop_last() =~= ls.take(k as int));
            assert(ls.take(k + 1).last() == l);
            assert(l.len() == b - a);
        }
        let is_host = k > 0 && b - a >= 5 && starts_host(head, a);
        proof {
            if k > 0 && b - a >= 5 {
                assert(l.take(5) == head@.subrange(a as int, a + 5));
            }
        }
        if is_host {
            out.push(0x48);
            out.push(0x6f);
            out.push(0x73);
            out.push(0x74);
            out.push(0x3a);
            out.push(0x20);
            extend_bytes(&mut out, host.as_bytes());
        } else {
            let piece = copy_range(head, a, b);
            extend_bytes(&mut out, piece.as_slice());
        }
        push_crlf(&mut out);
        proof {
            assert(out@ =~= before + rewritten_line(l, k == 0, host@));
        }
        k = k + 1;
    }
    proof {
        assert(ls.take(ls.len() as int) == ls);
    }
    let ghost hs = pairs(extra@);
    let ghost lines_part = out@;
    let mut h: usize = 0;
    proof {
        assert(hs.take(0) =~= Seq::<(Seq<char>, Seq<char>)>::empty());
    }
    while h < extra.len()
        invariant
            hs == pairs(extra@),
            0 <= h <= extra@.len(),
            out@ == lines_part + header_lines(hs.take(h as int)),
        decreases extra@.len() - h,
    {
        let ghost before = out@;
        extend_bytes(&mut out, extra[h].0.as_str().as_bytes());
        out.push(0x3a);
        out.push(0x20);
        extend_bytes(&mut out, extra[h].1.as_str().as_bytes());
        push_crlf(&mut out);
        proof {
            assert(hs.take(h + 1).drop_last() =~= hs.take(h as int));
            assert(hs.take(h + 1).last() == (extra@[h as int].0@, extra@[h as int].1@));
            assert(out@ =~= before + encode_utf8(extra@[h as int].0@) + seq![0x3au8, 0x20u8]
                + encode_utf8(extra@[h as int].1@) + crlf());
        }
        h = h + 1;
    }
    proof {
        assert(hs.take(hs.len() as int) == hs);
    }
    out
}

/// The head forwarded to a service: rewritten when the service replaces the
/// host, else as it came.
pub fn forwarded_head(head: &[u8], rewrite: &Option<String>, extra: &Vec<(String, String)>) -> (r: Vec<u8>)
    ensures
        r@ == (match rewrite {
            Some(h) => rewritten_head(head@, h@, pairs(extra@)),
            None => head@,
        }),
{
    match rewrite {
        Some(h) => rewrite_head(head, h.as_str(), extra),
        None => {
            let r = copy_range(head, 0, head.len());
            proof {
                assert(head@.subrange(0, head@.len() as int) == head@);
            }
            r
        },
    }
}

/// A request head may grow to this many bytes before the connection is
/// refused.
pub const MAX_HEAD_BYTES: usize = 65536;

/// Where the reading of a request head stands.
#[derive(Debug, Clone, Copy, PartialEq, Eq, Structural)]
pub enum HeadStep {
    /// The head ends with its blank line.
    Complete,
    /// Read another byte.
    More,
    /// The head is too large: close the connection.
    TooLarge,
}

/// Whether `b` ends with a blank line (`\r\n\r\n`).
pub open spec fn ends_with_blank_line(b: Seq<u8>) -> bool {
    b.len() >= 4 && b.skip(b.len() - 4) == seq![13u8, 10u8, 13u8, 10u8]
}

/// After a byte was added to the head read so far.
pub fn head_step(buf: &Vec<u8>) -> (s: HeadStep)
    ensures
        s == (if ends_with_blank_line(buf@) {
            HeadStep::Complete
        } else if buf@.len() > MAX_HEAD_BYTES {
            HeadStep::TooLarge
        } else {
            HeadStep::More
        }),
{
    let n = buf.len();
    if n >= 4 && buf[n - 4] == 13 && buf[n - 3] == 10 && buf[n - 2] == 13 && buf[n - 1] == 10 {
        proof {
            assert(buf@.skip(n - 4) =~= seq![13u8, 10u8, 13u8, 10u8]);
        }
        HeadStep::Complete
    } else {
        proof {
            if n >= 4 {
                let t = buf@.skip(n - 4);
                if t == seq![13u8, 10u8, 13u8, 10u8] {
                    assert(t[0] == buf@[n - 4] && t[1] == buf@[n - 3] && t[2] == buf@[n - 2] && t[3]
                        == buf@[n - 1]);
                }
            }
        }
        if n > MAX_HEAD_BYTES {
            HeadStep::TooLarge
        } else {
            HeadStep::More
        }
    }
}

/// What becomes of an HTTP request for a virtual host.
#[derive(Debug, Clone, Copy, PartialEq, Eq, Structural)]
pub enum VhostRoute {
    /// No enabled, healthy service serves the host: answer 404.
    NotFound,
    /// The service asks for credentials the request lacks: answer 407.
    AuthRequired,
    /// Open a tunnel to the service and forward the request.
    Forward,
}

/// The route of request `head` to `entry`, the service registered for its
/// host, if any.
pub fn route_http(entry: Option<&ServiceEntry>, head: &[u8]) -> (r: VhostRoute)
    ensures
        r == (match entry {
            Some(e) if e.enabled && e.healthy => match (e.config.http_user, e.config.http_password) {
                (Some(u), Some(p)) => if basic_auth_ok(head@, u@, p@) {
                    VhostRoute::Forward
                } else {
                    VhostRoute::AuthRequired
                },
                _ => VhostRoute::Forward,
            },
            _ => VhostRoute::NotFound,
        }),
{
    match entry {
        Some(e) => {
            if !(e.enabled && e.healthy) {
                return VhostRoute::NotFound;
            }
            match (&e.config.http_user, &e.config.http_password) {
                (Some(u), Some(p)) => {
                    if check_basic_auth(head, u.as_str(), p.as_str()) {
                        VhostRoute::Forward
                    } else {
                        VhostRoute::AuthRequired
                    }
                },
                _ => VhostRoute::Forward,
            }
        },
        None => VhostRoute::NotFound,
    }
}

/// The answer to a request for a host nobody serves.
pub fn not_found_reply() -> (s: &'static str)
    ensures
        s@ == "HTTP/1.1 404 Not Found\r\nContent-Length: 13\r\nConnection: close\r\n\r\nno such vhost"@,
{
    "HTTP/1.1 404 Not Found\r\nContent-Length: 13\r\nConnection: close\r\n\r\nno such vhost"
}

/// The answer to a request without the credentials its service asks for.
pub fn auth_required_reply() -> (s: &'static str)
    ensures
        s@ == "HTTP/1.1 407 Proxy Authentication Required\r\nProxy-Authenticate: Basic realm=\"cross233\"\r\nContent-Length: 14\r\nConnection: close\r\n\r\nauth required"@,
{
    "HTTP/1.1 407 Proxy Authentication Required\r\nProxy-Authenticate: Basic realm=\"cross233\"\r\nContent-Length: 14\r\nConnection: close\r\n\r\nauth required"
}

/// The answer to a request whose tunnel did not open in time.
pub fn tunnel_timeout_reply() -> (s: &'static str)
    ensures
        s@ == "HTTP/1.1 504 Gateway Timeout\r\nContent-Length: 15\r\nConnection: close\r\n\r\ntunnel timeout"@,
{
    "HTTP/1.1 504 Gateway Timeout\r\nContent-Length: 15\r\nConnection: close\r\n\r\ntunnel timeout"
}

/// Whether looking for the host of request `data` would split a character:
/// the head is UTF-8 and a line before any host line has a continuation
/// byte at its sixth byte.
pub fn host_scan_would_split(data: &[u8]) -> (b: bool)
    ensures
        b == host_scan_splits_char(data@),
{
    let end = find_head_end(data);
    proof {
        assert(data@.subrange(0, end as int) == head_bytes(data@));
    }
    let head = copy_range(data, 0, end);
    match utf8_text(head) {
        None => {
            return false;
        },
        Some(_) => {},
    }
    let lines = crlf_bounds(data, 0, end);
    let ghost ls = crlf_lines(head_bytes(data@));
    proof {
        assert(ls.skip(0) == ls);
    }
    let mut k: usize = 0;
    while k < lines.len()
        invariant
            ls == crlf_lines(head_bytes(data@)),
            valid_utf8(head_bytes(data@)),
            lines@.len() == ls.len(),
            forall|j: int| 0 <= j < lines@.len() ==> 0 <= (#[trigger] lines@[j]).0 <= lines@[j].1 <= end,
            end <= data@.len(),
            forall|j: int|
                0 <= j < lines@.len() ==> data@.subrange((#[trigger] lines@[j]).0 as int, lines@[j].1 as int)
                    == ls[j],
            0 <= k <= ls.len(),
            scan_host(ls) == scan_host(ls.skip(k as int)),
        decreases ls.len() - k,
    {
        let (a, b) = lines[k];
        let ghost l = ls[k as int];
        proof {
            assert(ls.skip(k as int)[0] == l);
            assert(ls.skip(k as int).drop_first() == ls.skip(k + 1));
            assert(l.len() == b - a);
        }
        if b - a > 5 {
            proof {
                assert(l[5] == data@[a + 5]);
                assert(l.take(5) == data@.subrange(a as int, a + 5));
            }
            if is_continuation(data[a + 5]) {
                return true;
            }
            if starts_host(data, a) {
                return false;
            }
        }
        k = k + 1;
    }
    proof {
        assert(ls.skip(ls.len() as int).len() == 0);
    }
    false
}

fn is_continuation(b: u8) -> (r: bool)
    ensures
        r == is_continuation_byte(b),
{
    0x80 <= b && b <= 0xbf
}

} // verus!
