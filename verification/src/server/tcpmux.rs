//! The TCPMUX front end: a client asks with an HTTP `CONNECT` line for the
//! service of a host, and is answered before the bytes are relayed.
//! Accepting, reading and relaying are the application's.

use super::http_vhost::before_colon;
use super::service::ServiceEntry;
use crate::text::{
    chars_of, find_char, lossy_text, lowercase, range_eq_ignore_case,
    sub_string, utf8_lossy, word_bounds, words,
};
use vstd::prelude::*;

verus! {

broadcast use vstd::string::group_string_axioms;

/// A request line may grow to this many bytes before the connection is
/// dropped.
pub const MAX_CONNECT_LINE_BYTES: usize = 8192;

/// Where the reading of the request line stands.
#[derive(Debug, Clone, Copy, PartialEq, Eq, Structural)]
pub enum LineRead {
    /// The line ends with CRLF.
    Complete,
    /// Read another byte.
    More,
    /// The line is too long: drop the connection.
    TooLarge,
}

/// Whether `b` ends with CRLF.
pub open spec fn ends_with_crlf(b: Seq<u8>) -> bool {
    b.len() >= 2 && b[b.len() - 2] == 13 && b[b.len() - 1] == 10
}

/// After a byte was added to the request line read so far.
pub fn line_read_step(buf: &Vec<u8>) -> (s: LineRead)
    ensures
        s == (if ends_with_crlf(buf@) {
            LineRead::Complete
        } else if buf@.len() > MAX_CONNECT_LINE_BYTES {
            LineRead::TooLarge
        } else {
            LineRead::More
        }),
{
    let n = buf.len();
    if n >= 2 && buf[n - 2] == 13 && buf[n - 1] == 10 {
        LineRead::Complete
    } else if n > MAX_CONNECT_LINE_BYTES {
        LineRead::TooLarge
    } else {
        LineRead::More
    }
}

/// The `n`-th white-space separated word of `l`, or `""`.
pub open spec fn word_or_empty(l: Seq<char>, n: int) -> Seq<char> {
    if words(l).len() > n {
        words(l)[n]
    } else {
        Seq::empty()
    }
}

/// The host a request line asks for: the part before `:` of its second
/// word, when its first word is `CONNECT` in any case.
pub open spec fn connect_host_of(l: Seq<char>) -> Option<Seq<char>> {
    if lowercase(word_or_empty(l, 0)) == lowercase("CONNECT"@) {
        Some(before_colon(word_or_empty(l, 1)))
    } else {
        None
    }
}

/// The host request line `line` asks for; `None` when it is no `CONNECT`
/// (the request is refused with 400).
pub fn connect_host(line: &str) -> (r: Option<String>)
    ensures
        match connect_host_of(line@) {
            Some(h) => r matches Some(s) && s@ == h,
            None => r is None,
        },
{
    let c = chars_of(line);
    let n = c.len();
    proof {
        assert(c@.subrange(0, n as int) == c@);
    }
    let ws = word_bounds(c.as_slice(), 0, n, 2);
    let m = chars_of("CONNECT");
    let method_ok = if ws.len() > 0 {
        let (a, b) = ws[0];
        range_eq_ignore_case(c.as_slice(), a, b, m.as_slice())
    } else {
        proof {
            reveal_strlit("CONNECT");
            assert(lowercase(Seq::<char>::empty()) =~= Seq::<char>::empty());
            assert(lowercase("CONNECT"@).len() == 7);
        }
        false
    };
    if !method_ok {
        return None;
    }
    if ws.len() < 2 {
        proof {
            assert(word_or_empty(c@, 1) == Seq::<char>::empty());
            assert(before_colon(Seq::<char>::empty()) == Seq::<char>::empty());
        }
        return Some(String::new());
    }
    let (a, b) = ws[1];
    match find_char(c.as_slice(), a, b, ':') {
        Some(i) => {
            proof {
                assert(c@.subrange(a as int, a + i) == c@.subrange(a as int, b as int).take(i as int));
            }
            Some(sub_string(c.as_slice(), a, a + i))
        },
        None => Some(sub_string(c.as_slice(), a, b)),
    }
}

/// The host a raw request line asks for; the line is read as UTF-8 with
/// invalid sequences replaced.
pub fn connect_host_of_bytes(buf: &[u8]) -> (r: Option<String>)
    ensures
        match connect_host_of(utf8_lossy(buf@)) {
            Some(h) => r matches Some(s) && s@ == h,
            None => r is None,
        },
{
    let line = lossy_text(buf);
    connect_host(line.as_str())
}

/// Whether a registered service takes visitors now: it is enabled and
/// healthy.
pub fn takes_visitors(entry: Option<&ServiceEntry>) -> (b: bool)
    ensures
        b == (match entry {
            Some(e) => e.enabled && e.healthy,
            None => false,
        }),
{
    match entry {
        Some(e) => e.enabled && e.healthy,
        None => false,
    }
}

/// The answer to a line that is no `CONNECT`.
pub fn bad_request_reply() -> (s: &'static str)
    ensures
        s@ == "HTTP/1.1 400 Bad Request\r\nContent-Length: 15\r\nConnection: close\r\n\r\nexpecting CONNECT"@,
{
    "HTTP/1.1 400 Bad Request\r\nContent-Length: 15\r\nConnection: close\r\n\r\nexpecting CONNECT"
}

/// The answer to a `CONNECT` for a host nobody serves.
pub fn no_such_host_reply() -> (s: &'static str)
    ensures
        s@ == "HTTP/1.1 404 Not Found\r\nContent-Length: 13\r\nConnection: close\r\n\r\nno such host"@,
{
    "HTTP/1.1 404 Not Found\r\nContent-Length: 13\r\nConnection: close\r\n\r\nno such host"
}

/// The answer once the tunnel is open.
pub fn established_reply() -> (s: &'static str)
    ensures
        s@ == "HTTP/1.1 200 Connection Established\r\n\r\n"@,
{
    "HTTP/1.1 200 Connection Established\r\n\r\n"
}

} // verus!
