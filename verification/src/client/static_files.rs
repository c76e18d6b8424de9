//! The static-file service: what an HTTP request line asks for, how a URL
//! path is decoded and checked before any file is looked up, and the text of
//! the responses.  Opening, resolving and sending files is the
//! application's.

use crate::text::{utf8_text, chars_of, decimal, decimal_of, extend_chars, push_str, string_from_chars, sub_string};
use vstd::prelude::*;
use vstd::utf8::{decode_utf8, encode_utf8, valid_utf8};

verus! {

broadcast use vstd::string::group_string_axioms;

/// A request's headers may not exceed this many bytes.
pub const MAX_HEADER_BYTES: usize = 16384;

/// The value of an ASCII hex digit.
pub open spec fn hex_digit_value(b: u8) -> Option<u8> {
    if 0x30 <= b <= 0x39 {
        Some((b - 0x30) as u8)
    } else if 0x61 <= b <= 0x66 {
        Some((b - 0x61 + 10) as u8)
    } else if 0x41 <= b <= 0x46 {
        Some((b - 0x41 + 10) as u8)
    } else {
        None
    }
}

/// `b` with each `%XY` replaced by the byte with hex value `XY`; `None` if a
/// `%` is not followed by two hex digits.
pub open spec fn unescape(b: Seq<u8>) -> Option<Seq<u8>>
    decreases b.len(),
{
    if b.len() == 0 {
        Some(Seq::empty())
    } else if b[0] == 0x25 {
        if b.len() < 3 {
            None
        } else {
            match (hex_digit_value(b[1]), hex_digit_value(b[2])) {
                (Some(h), Some(l)) => match unescape(b.skip(3)) {
                    Some(r) => Some(seq![(h * 16 + l) as u8] + r),
                    None => None,
                },
                _ => None,
            }
        }
    } else {
        match unescape(b.skip(1)) {
            Some(r) => Some(seq![b[0]] + r),
            None => None,
        }
    }
}

/// The text a URL path decodes to: unescaped, and valid UTF-8.
pub open spec fn decoded_path(input: Seq<char>) -> Option<Seq<char>> {
    match unescape(encode_utf8(input)) {
        Some(b) => if valid_utf8(b) {
            Some(decode_utf8(b))
        } else {
            None
        },
        None => None,
    }
}

/// The value of a hex digit byte.
pub fn hex_value(value: u8) -> (r: Option<u8>)
    ensures
        r == hex_digit_value(value),
{
    if 0x30 <= value && value <= 0x39 {
        Some(value - 0x30)
    } else if 0x61 <= value && value <= 0x66 {
        Some(value - 0x61 + 10)
    } else if 0x41 <= value && value <= 0x46 {
        Some(value - 0x41 + 10)
    } else {
        None
    }
}

/// Decodes the `%XY` escapes of a URL path.
pub fn percent_decode(input: &str) -> (r: Option<String>)
    ensures
        match decoded_path(input@) {
            Some(d) => r matches Some(s) && s@ == d,
            None => r is None,
        },
{
    let bytes = input.as_bytes();
    let ghost b = bytes@;
    let mut output: Vec<u8> = Vec::new();
    let mut index: usize = 0;
    proof {
        assert(b.skip(0) =~= b);
        match unescape(b) {
            Some(r) => {
                assert(output@ + r =~= r);
            },
            None => {},
        }
    }
    while index < bytes.len()
        invariant
            b == bytes@,
            b == encode_utf8(input@),
            0 <= index <= b.len(),
            unescape(b) == match unescape(b.skip(index as int)) {
                Some(r) => Some(output@ + r),
                None => None::<Seq<u8>>,
            },
        decreases b.len() - index,
    {
        let ghost rest = b.skip(index as int);
        proof {
            assert(rest[0] == b[index as int]);
            assert(rest.len() == b.len() - index);
        }
        if bytes[index] == 0x25 {
            if bytes.len() - index <= 2 {
                proof {
                    assert(unescape(rest) is None);
                    assert(unescape(b) is None);
                }
                return None;
            }
            proof {
                assert(rest[1] == b[index + 1] && rest[2] == b[index + 2]);
            }
            let high = match hex_value(bytes[index + 1]) {
                Some(h) => h,
                None => {
                    proof {
                        assert(unescape(rest) is None);
                        assert(unescape(b) is None);
                    }
                    return None;
                },
            };
            let low = match hex_value(bytes[index + 2]) {
                Some(l) => l,
                None => {
                    proof {
                        assert(unescape(rest) is None);
                        assert(unescape(b) is None);
                    }
                    return None;
                },
            };
            let v = (high << 4) | low;
            proof {
                assert(v == high * 16 + low) by (bit_vector)
                    requires
                        v == (high << 4) | low,
                        high < 16,
                        low < 16,
                ;
                assert(rest.skip(3) == b.skip(index + 3));
                assert(rest[1] == b[index + 1] && rest[2] == b[index + 2]);
            }
            let ghost o = output@;
            output.push(v);
            proof {
                match unescape(b.skip(index + 3)) {
                    Some(r) => {
                        assert(o + (seq![v] + r) == o.push(v) + r);
                    },
                    None => {},
                }
            }
            index = index + 3;
        } else {
            proof {
                assert(rest.skip(1) == b.skip(index + 1));
            }
            let ghost o = output@;
            output.push(bytes[index]);
            proof {
                match unescape(b.skip(index + 1)) {
                    Some(r) => {
                        assert(o + (seq![b[index as int]] + r) == o.push(b[index as int]) + r);
                    },
                    None => {},
                }
            }
            index = index + 1;
        }
    }
    proof {
        assert(b.skip(b.len() as int) =~= Seq::<u8>::empty());
        assert(output@ + Seq::<u8>::empty() == output@);
    }
    utf8_text(output)
}

/// Why a request path is refused before any file is looked up.
#[derive(Debug, PartialEq, Eq, Structural)]
pub enum PathError {
    /// Not an absolute path, a bad escape, a NUL or backslash, or a `..`.
    BadRequest,
    /// No such file below the root.
    NotFound,
}

/// The path part of a request target (before any `?`).
pub open spec fn target_path(t: Seq<char>) -> Seq<char> {
    match crate::text::first_index(t, '?') {
        Some(i) => t.take(i as int),
        None => t,
    }
}

/// The names of a decoded path below the root: its pieces between `/`,
/// without empty pieces and `.`; `None` if one of them is `..`.
pub open spec fn path_parts(d: Seq<char>) -> Option<Seq<Seq<char>>>
    decreases d.len(),
{
    let pieces = crate::text::split(d, '/');
    parts_of(pieces)
}

pub open spec fn parts_of(pieces: Seq<Seq<char>>) -> Option<Seq<Seq<char>>>
    decreases pieces.len(),
{
    if pieces.len() == 0 {
        Some(Seq::empty())
    } else {
        match parts_of(pieces.drop_last()) {
            None => None,
            Some(ps) => {
                let p = pieces.last();
                if p == ".."@ {
                    None
                } else if p.len() == 0 || p == "."@ {
                    Some(ps)
                } else {
                    Some(ps.push(p))
                }
            },
        }
    }
}

/// What a request target asks for: the names below the root and whether a
/// directory index is wanted (the path ends in `/`).
pub open spec fn path_plan(t: Seq<char>) -> Result<(Seq<Seq<char>>, bool), PathError> {
    let raw = target_path(t);
    if raw.len() == 0 || raw[0] != '/' {
        Err(PathError::BadRequest)
    } else {
        match decoded_path(raw) {
            None => Err(PathError::BadRequest),
            Some(d) => if d.contains('\0') || d.contains('\\') {
                Err(PathError::BadRequest)
            } else {
                match path_parts(d) {
                    None => Err(PathError::BadRequest),
                    Some(ps) => Ok((ps, d.len() > 0 && d.last() == '/')),
                }
            },
        }
    }
}

proof fn lemma_split_pieces(s: Seq<char>, c: char)
    ensures
        forall|k: int|
            0 <= k < crate::text::split(s, c).len() ==> !(#[trigger] crate::text::split(s, c)[k]).contains(c)
                && forall|x: char| crate::text::split(s, c)[k].contains(x) ==> s.contains(x),
    decreases s.len(),
{
    crate::text::lemma_first_index_props(s, c);
    match crate::text::first_index(s, c) {
        Some(i) => {
            if i < s.len() {
                let rest = s.skip(i + 1 as int);
                lemma_split_pieces(rest, c);
                let sp = crate::text::split(s, c);
                assert(sp == seq![s.take(i as int)] + crate::text::split(rest, c));
                assert forall|k: int| 0 <= k < sp.len() implies !(#[trigger] sp[k]).contains(c)
                    && forall|x: char| sp[k].contains(x) ==> s.contains(x) by {
                    if k == 0 {
                        assert forall|x: char| sp[0].contains(x) implies s.contains(x) by {
                            let j = choose|j: int| 0 <= j < sp[0].len() && sp[0][j] == x;
                            assert(s[j] == x);
                        }
                    } else {
                        assert(sp[k] == crate::text::split(rest, c)[k - 1]);
                        assert forall|x: char| sp[k].contains(x) implies s.contains(x) by {
                            assert(rest.contains(x));
                            let j = choose|j: int| 0 <= j < rest.len() && rest[j] == x;
                            assert(s[j + i + 1] == x);
                        }
                    }
                }
            }
        },
        None => {},
    }
}

proof fn lemma_parts_of_plain(pieces: Seq<Seq<char>>)
    ensures
        parts_of(pieces) matches Some(ps) ==> forall|i: int|
            0 <= i < ps.len() ==> (#[trigger] ps[i]).len() > 0 && ps[i] != "."@ && ps[i] != ".."@
                && pieces.contains(ps[i]),
    decreases pieces.len(),
{
    if pieces.len() > 0 {
        lemma_parts_of_plain(pieces.drop_last());
        match parts_of(pieces.drop_last()) {
            Some(ps0) => {
                assert forall|i: int| 0 <= i < ps0.len() implies pieces.contains(ps0[i]) by {
                    assert(pieces.drop_last().contains(ps0[i]));
                    let j = choose|j: int| 0 <= j < pieces.drop_last().len() && pieces.drop_last()[j] == ps0[i];
                    assert(pieces[j] == ps0[i]);
                }
                assert(pieces[pieces.len() - 1] == pieces.last());
            },
            None => {},
        }
    }
}

/// A planned path never leaves the root: each of its names is non-empty,
/// is neither `.` nor `..`, and holds no `/`, `\` or NUL.
pub proof fn lemma_planned_names_stay_below_root(t: Seq<char>)
    ensures
        path_plan(t) matches Ok((ps, _)) ==> forall|i: int|
            0 <= i < ps.len() ==> {
                &&& (#[trigger] ps[i]).len() > 0
                &&& ps[i] != "."@
                &&& ps[i] != ".."@
                &&& !ps[i].contains('/')
                &&& !ps[i].contains('\\')
                &&& !ps[i].contains('\0')
            },
{
    let raw = target_path(t);
    match decoded_path(raw) {
        Some(d) => {
            let pieces = crate::text::split(d, '/');
            lemma_split_pieces(d, '/');
            lemma_parts_of_plain(pieces);
            match parts_of(pieces) {
                Some(ps) => {
                    assert forall|i: int| 0 <= i < ps.len() implies !(#[trigger] ps[i]).contains('/')
                        && (!d.contains('\\') ==> !ps[i].contains('\\')) && (!d.contains('\0')
                        ==> !ps[i].contains('\0')) by {
                        let k = choose|k: int| 0 <= k < pieces.len() && pieces[k] == ps[i];
                        assert(pieces[k] == ps[i]);
                    }
                },
                None => {},
            }
        },
        None => {},
    }
}

/// Where a request target leads: the names below the static root, and
/// whether the directory index is wanted.  Nothing here touches the file
/// system.
pub fn plan_path(target: &str) -> (r: Result<(Vec<String>, bool), PathError>)
    ensures
        match path_plan(target@) {
            Ok((ps, idx)) => r matches Ok((v, i)) && i == idx && v@.map_values(|x: String| x@) == ps,
            Err(e) => r == Err::<(Vec<String>, bool), PathError>(e),
        },
{
    let c = chars_of(target);
    let n = c.len();
    proof {
        assert(c@.subrange(0, n as int) == c@);
    }
    let end = match crate::text::find_char(c.as_slice(), 0, n, '?') {
        Some(q) => q,
        None => n,
    };
    proof {
        assert(c@.subrange(0, end as int) == target_path(target@));
    }
    if end == 0 || c[0] != '/' {
        return Err(PathError::BadRequest);
    }
    let raw = sub_string(c.as_slice(), 0, end);
    let decoded = match percent_decode(raw.as_str()) {
        Some(d) => d,
        None => {
            return Err(PathError::BadRequest);
        },
    };
    let d = chars_of(decoded.as_str());
    let m = d.len();
    proof {
        assert(d@.subrange(0, m as int) == d@);
        crate::text::lemma_first_index_props(d@, '\0');
        crate::text::lemma_first_index_props(d@, '\\');
    }
    let nul = crate::text::find_char(d.as_slice(), 0, m, '\0');
    let bs = crate::text::find_char(d.as_slice(), 0, m, '\\');
    if nul.is_some() || bs.is_some() {
        proof {
            if nul is Some {
                assert(d@[nul->0 as int] == '\0');
            } else {
                assert(d@[bs->0 as int] == '\\');
            }
        }
        return Err(PathError::BadRequest);
    }
    proof {
        assert(!d@.contains('\0'));
        assert(!d@.contains('\\'));
    }
    let pieces = crate::text::split_bounds(d.as_slice(), 0, m, '/', 0);
    let ghost sp = crate::text::split(d@, '/');
    let ghost idx = d@.len() > 0 && d@.last() == '/';
    proof {
        assert(decoded_path(target_path(target@)) == Some(d@));
        assert(path_plan(target@) == match parts_of(sp) {
            None => Err(PathError::BadRequest),
            Some(ps) => Ok((ps, idx)),
        });
    }
    let mut parts: Vec<String> = Vec::new();
    let mut k: usize = 0;
    while k < pieces.len()
        invariant
            sp == crate::text::split(d@, '/'),
            pieces@.len() == sp.len(),
            forall|j: int| 0 <= j < pieces@.len() ==> 0 <= (#[trigger] pieces@[j]).0 <= pieces@[j].1 <= d@.len(),
            forall|j: int|
                0 <= j < pieces@.len() ==> d@.subrange((#[trigger] pieces@[j]).0 as int, pieces@[j].1 as int) == sp[j],
            0 <= k <= pieces@.len(),
            parts_of(sp.take(k as int)) matches Some(ps) && parts@.map_values(|x: String| x@) == ps,
            path_plan(target@) == match parts_of(sp) {
                None => Err(PathError::BadRequest),
                Some(ps) => Ok((ps, idx)),
            },
        decreases pieces@.len() - k,
    {
        let (a, b) = pieces[k];
        proof {
            assert(sp.take(k + 1).drop_last() == sp.take(k as int));
            assert(sp.take(k + 1).last() == sp[k as int]);
        }
        let piece = sub_string(d.as_slice(), a, b);
        if crate::text::str_eq(piece.as_str(), "..") {
            proof {
                assert(piece@ == sp[k as int]);
                assert(parts_of(sp.take(k + 1)) is None);
                lemma_parts_none_stays(sp, (k + 1) as int);
            }
            return Err(PathError::BadRequest);
        }
        if a == b || crate::text::str_eq(piece.as_str(), ".") {
        } else {
            let ghost p0 = parts@;
            parts.push(piece);
            proof {
                assert(parts@.map_values(|x: String| x@) =~= p0.map_values(|x: String| x@).push(sp[k as int]));
            }
        }
        k = k + 1;
    }
    proof {
        assert(sp.take(sp.len() as int) == sp);
    }
    let wants_index = m > 0 && d[m - 1] == '/';
    Ok((parts, wants_index))
}

proof fn lemma_parts_none_stays(pieces: Seq<Seq<char>>, k: int)
    requires
        0 <= k <= pieces.len(),
        parts_of(pieces.take(k)) is None,
    ensures
        parts_of(pieces) is None,
    decreases pieces.len() - k,
{
    if k < pieces.len() {
        assert(pieces.drop_last().take(k) == pieces.take(k));
        lemma_parts_none_stays(pieces.drop_last(), k);
    } else {
        assert(pieces.take(k) == pieces);
    }
}

/// Where the reading of a request head stands.
#[derive(Debug, Clone, Copy, PartialEq, Eq, Structural)]
pub enum HeadRead {
    /// The head ends with its blank line.
    Complete,
    /// Read another byte.
    More,
    /// The head reached the limit without ending.
    TooLarge,
}

/// Whether `b` ends with a blank line.
pub open spec fn ends_with_blank(b: Seq<u8>) -> bool {
    b.len() >= 4 && b[b.len() - 4] == 13 && b[b.len() - 3] == 10 && b[b.len() - 2] == 13 && b[b.len()
        - 1] == 10
}

/// After a byte was added to the head read so far.
pub fn head_read_step(bytes: &Vec<u8>) -> (s: HeadRead)
    ensures
        s == (if ends_with_blank(bytes@) {
            HeadRead::Complete
        } else if bytes@.len() >= MAX_HEADER_BYTES {
            HeadRead::TooLarge
        } else {
            HeadRead::More
        }),
{
    let n = bytes.len();
    if n >= 4 && bytes[n - 4] == 13 && bytes[n - 3] == 10 && bytes[n - 2] == 13 && bytes[n - 1] == 10 {
        HeadRead::Complete
    } else if n >= MAX_HEADER_BYTES {
        HeadRead::TooLarge
    } else {
        HeadRead::More
    }
}

/// Why a request could not be read.
#[derive(Debug, Clone, Copy, PartialEq, Eq, Structural)]
pub enum RequestError {
    /// The connection closed before the head ended.
    Closed,
    /// The head reached the limit without ending.
    TooLarge,
    NotUtf8,
    MissingMethod,
    MissingTarget,
    MissingVersion,
}

pub open spec fn request_error_text(e: RequestError) -> Seq<char> {
    match e {
        RequestError::Closed => "connection closed before HTTP headers"@,
        RequestError::TooLarge => "HTTP headers exceed 16384 bytes"@,
        RequestError::NotUtf8 => "HTTP headers are not UTF-8"@,
        RequestError::MissingMethod => "missing HTTP method"@,
        RequestError::MissingTarget => "missing HTTP target"@,
        RequestError::MissingVersion => "missing HTTP version"@,
    }
}

impl RequestError {
    pub fn message(&self) -> (m: String)
        ensures
            m@ == request_error_text(*self),
    {
        let s: &str = match self {
            RequestError::Closed => "connection closed before HTTP headers",
            RequestError::TooLarge => "HTTP headers exceed 16384 bytes",
            RequestError::NotUtf8 => "HTTP headers are not UTF-8",
            RequestError::MissingMethod => "missing HTTP method",
            RequestError::MissingTarget => "missing HTTP target",
            RequestError::MissingVersion => "missing HTTP version",
        };
        s.to_string()
    }
}

/// Whether a CR LF pair starts at `j` in `s`.
pub open spec fn crlf_char_at(s: Seq<char>, j: int) -> bool {
    0 <= j && j + 1 < s.len() && s[j] == '\r' && s[j + 1] == '\n'
}

/// The index of the first CR LF pair of `s`, or its length.
pub open spec fn first_line_end(s: Seq<char>) -> int
    decreases s.len(),
{
    if s.len() < 2 {
        s.len() as int
    } else if s[0] == '\r' && s[1] == '\n' {
        0
    } else {
        1 + first_line_end(s.drop_first())
    }
}

/// The text before the first CR LF of `s` (`split("\r\n").next()`).
pub open spec fn first_line(s: Seq<char>) -> Seq<char> {
    s.take(first_line_end(s))
}

/// The method (upper-cased) and target a request head asks for.
pub open spec fn request_of(head: Seq<u8>) -> Result<(Seq<char>, Seq<char>), RequestError> {
    if !valid_utf8(head) {
        Err(RequestError::NotUtf8)
    } else {
        let ws = crate::text::words(first_line(decode_utf8(head)));
        if ws.len() == 0 {
            Err(RequestError::MissingMethod)
        } else if ws.len() == 1 {
            Err(RequestError::MissingTarget)
        } else if ws.len() == 2 {
            Err(RequestError::MissingVersion)
        } else {
            Ok((crate::text::uppercase(ws[0]), ws[1]))
        }
    }
}

proof fn lemma_first_line_end(s: Seq<char>, i: int)
    requires
        0 <= i <= s.len(),
        forall|j: int| 0 <= j < i ==> !#[trigger] crlf_char_at(s, j),
    ensures
        i + 1 < s.len() && s[i] == '\r' && s[i + 1] == '\n' ==> first_line_end(s) == i,
        i == s.len() ==> first_line_end(s) == s.len(),
        0 <= first_line_end(s) <= s.len(),
    decreases i,
{
    if s.len() >= 2 && !(s[0] == '\r' && s[1] == '\n') {
        if i > 0 {
            assert forall|j: int| 0 <= j < i - 1 implies !#[trigger] crlf_char_at(s.drop_first(), j) by {
                assert(!crlf_char_at(s, j + 1));
            }
            lemma_first_line_end(s.drop_first(), i - 1);
        } else {
            lemma_first_line_end_bounds(s);
        }
    } else {
        if s.len() >= 2 {
            assert(crlf_char_at(s, 0));
        }
        lemma_first_line_end_bounds(s);
    }
}

proof fn lemma_first_line_end_bounds(s: Seq<char>)
    ensures
        0 <= first_line_end(s) <= s.len(),
    decreases s.len(),
{
    if s.len() >= 2 && !(s[0] == '\r' && s[1] == '\n') {
        lemma_first_line_end_bounds(s.drop_first());
    }
}

/// The method (upper-cased) and target of a complete request head.
pub fn parse_request(head: &[u8]) -> (r: Result<(String, String), RequestError>)
    ensures
        match request_of(head@) {
            Ok((m, t)) => r matches Ok((a, b)) && a@ == m && b@ == t,
            Err(e) => r == Err::<(String, String), RequestError>(e),
        },
{
    let mut copy: Vec<u8> = Vec::new();
    crate::text::extend_bytes(&mut copy, head);
    let text = match utf8_text(copy) {
        Some(t) => t,
        None => {
            return Err(RequestError::NotUtf8);
        },
    };
    let c = chars_of(text.as_str());
    let n = c.len();
    let mut e: usize = 0;
    while e < n && !(e + 1 < n && c[e] == '\r' && c[e + 1] == '\n')
        invariant
            0 <= e <= n,
            n == c@.len(),
            forall|j: int| 0 <= j < e ==> !#[trigger] crlf_char_at(c@, j),
        decreases n - e,
    {
        e = e + 1;
    }
    proof {
        lemma_first_line_end(c@, e as int);
        assert(c@.subrange(0, e as int) == first_line(c@));
    }
    let ws = crate::text::word_bounds(c.as_slice(), 0, e, 3);
    if ws.len() == 0 {
        return Err(RequestError::MissingMethod);
    }
    if ws.len() == 1 {
        return Err(RequestError::MissingTarget);
    }
    if ws.len() == 2 {
        return Err(RequestError::MissingVersion);
    }
    let (a0, b0) = ws[0];
    let (a1, b1) = ws[1];
    let up = crate::text::uppercase_range(c.as_slice(), a0, b0);
    Ok((string_from_chars(up.as_slice()), sub_string(c.as_slice(), a1, b1)))
}

/// Whether the service answers the method: `GET` or `HEAD`.
pub fn method_allowed(method: &str) -> (b: bool)
    ensures
        b == (method@ == "GET"@ || method@ == "HEAD"@),
{
    crate::text::str_eq(method, "GET") || crate::text::str_eq(method, "HEAD")
}

/// The bytes of `s` as UTF-8 and their count.
pub open spec fn byte_len(s: Seq<char>) -> nat {
    encode_utf8(s).len()
}

/// A plain-text answer with status `status`, reason `reason` and body `body`.
pub open spec fn error_response(status: u16, reason: Seq<char>, body: Seq<char>) -> Seq<char> {
    "HTTP/1.1 "@ + decimal(status as nat) + " "@ + reason + "\r\nContent-Length: "@ + decimal(
        byte_len(body),
    ) + "\r\nContent-Type: text/plain; charset=utf-8\r\nConnection: close\r\n\r\n"@ + body
}

/// The text of a plain-text answer.
pub fn error_response_text(status: u16, reason: &str, body: &str) -> (r: String)
    ensures
        r@ == error_response(status, reason@, body@),
{
    let mut v: Vec<char> = Vec::new();
    push_str(&mut v, "HTTP/1.1 ");
    let s = decimal_of(status as u64);
    extend_chars(&mut v, s.as_slice());
    push_str(&mut v, " ");
    push_str(&mut v, reason);
    push_str(&mut v, "\r\nContent-Length: ");
    let len = body.as_bytes().len();
    let l = decimal_of(len as u64);
    extend_chars(&mut v, l.as_slice());
    push_str(&mut v, "\r\nContent-Type: text/plain; charset=utf-8\r\nConnection: close\r\n\r\n");
    push_str(&mut v, body);
    string_from_chars(v.as_slice())
}

/// The refusals of the static-file service.
#[derive(Debug, Clone, Copy, PartialEq, Eq, Structural)]
pub enum Refusal {
    /// The request could not be read.
    BadRequest,
    /// Not GET or HEAD.
    MethodNotAllowed,
    /// The root exists but is no directory.
    RootNotDirectory,
    /// The root cannot be resolved.
    RootUnavailable,
    /// The path is refused before any lookup.
    InvalidPath,
    /// No such file below the root.
    NotFound,
}

/// Status, reason and body of each refusal.
pub open spec fn refusal_parts(r: Refusal) -> (u16, Seq<char>, Seq<char>) {
    match r {
        Refusal::BadRequest => (400, "Bad Request"@, "bad request"@),
        Refusal::MethodNotAllowed => (405, "Method Not Allowed"@, "only GET and HEAD are supported"@),
        Refusal::RootNotDirectory => (500, "Internal Server Error"@, "static root is not a directory"@),
        Refusal::RootUnavailable => (500, "Internal Server Error"@, "static root is unavailable"@),
        Refusal::InvalidPath => (400, "Bad Request"@, "invalid path"@),
        Refusal::NotFound => (404, "Not Found"@, "not found"@),
    }
}

/// The answer to a refused request.
pub fn refusal_response(r: Refusal) -> (t: String)
    ensures
        t@ == error_response(refusal_parts(r).0, refusal_parts(r).1, refusal_parts(r).2),
{
    match r {
        Refusal::BadRequest => error_response_text(400, "Bad Request", "bad request"),
        Refusal::MethodNotAllowed => error_response_text(405, "Method Not Allowed", "only GET and HEAD are supported"),
        Refusal::RootNotDirectory => error_response_text(500, "Internal Server Error", "static root is not a directory"),
        Refusal::RootUnavailable => error_response_text(500, "Internal Server Error", "static root is unavailable"),
        Refusal::InvalidPath => error_response_text(400, "Bad Request", "invalid path"),
        Refusal::NotFound => error_response_text(404, "Not Found", "not found"),
    }
}

/// The refusal a refused path gets.
pub fn path_refusal(e: PathError) -> (r: Refusal)
    ensures
        r == (match e {
            PathError::BadRequest => Refusal::InvalidPath,
            PathError::NotFound => Refusal::NotFound,
        }),
{
    match e {
        PathError::BadRequest => Refusal::InvalidPath,
        PathError::NotFound => Refusal::NotFound,
    }
}

/// What `mime_guess::from_path(p).first_or_octet_stream().essence_str()`
/// gives for path `p`.
pub uninterp spec fn mime_essence(path: Seq<char>) -> Seq<char>;

/// The content type of the file at `path`, guessed from its extension;
/// `application/octet-stream` when nothing is known.
#[verifier::external_body]
pub(crate) fn content_type(path: &str) -> (t: String)
    ensures
        t@ == mime_essence(path@),
{
    mime_guess::from_path(path).first_or_octet_stream().essence_str().to_string()
}

/// The head of a successful answer: the file's length and content type.
pub open spec fn ok_head(len: u64, content_type: Seq<char>) -> Seq<char> {
    "HTTP/1.1 200 OK\r\nContent-Length: "@ + decimal(len as nat) + "\r\nContent-Type: "@ + content_type
        + "\r\nX-Content-Type-Options: nosniff\r\nConnection: close\r\n\r\n"@
}

/// The head of a successful answer for a file of `len` bytes of type
/// `content_type`.
pub fn ok_head_text(len: u64, content_type: &str) -> (h: String)
    ensures
        h@ == ok_head(len, content_type@),
{
    let mut v: Vec<char> = Vec::new();
    push_str(&mut v, "HTTP/1.1 200 OK\r\nContent-Length: ");
    let l = decimal_of(len);
    extend_chars(&mut v, l.as_slice());
    push_str(&mut v, "\r\nContent-Type: ");
    push_str(&mut v, content_type);
    push_str(&mut v, "\r\nX-Content-Type-Options: nosniff\r\nConnection: close\r\n\r\n");
    string_from_chars(v.as_slice())
}

/// The head of the answer that sends the file at `path` of `len` bytes.
pub fn ok_response_head(len: u64, path: &str) -> (h: String)
    ensures
        h@ == ok_head(len, mime_essence(path@)),
{
    let ct = content_type(path);
    ok_head_text(len, ct.as_str())
}

/// Whether the file's bytes follow the head: for GET, not for HEAD.
pub fn sends_body(method: &str) -> (b: bool)
    ensures
        b == (method@ == "GET"@),
{
    crate::text::str_eq(method, "GET")
}

} // verus!
