//! Character and byte helpers shared by the parsers of the library.
//!
//! Strings are handled as sequences of `char` (their view); the specification
//! functions here give the meaning of trimming, splitting, case folding and
//! decimal conversion that the parsers' contracts are written in.

use vstd::prelude::*;
use vstd::utf8::{decode_utf8, valid_utf8};

verus! {

broadcast use vstd::string::group_string_axioms;

/// The characters of a string slice, in order.
pub fn chars_of(s: &str) -> (v: Vec<char>)
    ensures
        v@ == s@,
{
    let mut v: Vec<char> = Vec::new();
    for c in it: s.chars()
        invariant
            v@ == it.history(),
    {
        v.push(c);
    }
    v
}

/// Collects characters into an owned string (`FromIterator<&char>` of std).
#[verifier::external_body]
pub(crate) fn string_from_chars(v: &[char]) -> (s: String)
    ensures
        s@ == v@,
{
    v.iter().collect()
}

/// Whether `c` has the Unicode `White_Space` property (what `char::is_whitespace`
/// and `str::trim` test).
pub open spec fn is_space(c: char) -> bool {
    ||| ('\u{9}' <= c && c <= '\u{d}')
    ||| c == ' '
    ||| c == '\u{85}'
    ||| c == '\u{a0}'
    ||| c == '\u{1680}'
    ||| ('\u{2000}' <= c && c <= '\u{200a}')
    ||| c == '\u{2028}'
    ||| c == '\u{2029}'
    ||| c == '\u{202f}'
    ||| c == '\u{205f}'
    ||| c == '\u{3000}'
}

pub fn is_space_exec(c: char) -> (b: bool)
    ensures
        b == is_space(c),
{
    ('\u{9}' <= c && c <= '\u{d}') || c == ' ' || c == '\u{85}' || c == '\u{a0}' || c
        == '\u{1680}' || ('\u{2000}' <= c && c <= '\u{200a}') || c == '\u{2028}' || c
        == '\u{2029}' || c == '\u{202f}' || c == '\u{205f}' || c == '\u{3000}'
}

/// `s` without its leading white space.
pub open spec fn trim_start(s: Seq<char>) -> Seq<char>
    decreases s.len(),
{
    if s.len() > 0 && is_space(s[0]) {
        trim_start(s.drop_first())
    } else {
        s
    }
}

/// `s` without its trailing white space.
pub open spec fn trim_end(s: Seq<char>) -> Seq<char>
    decreases s.len(),
{
    if s.len() > 0 && is_space(s.last()) {
        trim_end(s.drop_last())
    } else {
        s
    }
}

/// `s` without leading and trailing white space (`str::trim`).
pub open spec fn trim(s: Seq<char>) -> Seq<char> {
    trim_end(trim_start(s))
}

proof fn lemma_trim_start_skip(s: Seq<char>, i: int)
    requires
        0 <= i <= s.len(),
        forall|j: int| 0 <= j < i ==> is_space(#[trigger] s[j]),
    ensures
        trim_start(s) == trim_start(s.skip(i)),
    decreases i,
{
    if i > 0 {
        assert(s.skip(1) == s.drop_first());
        lemma_trim_start_skip(s.drop_first(), i - 1);
        assert(s.drop_first().skip(i - 1) == s.skip(i));
    } else {
        assert(s.skip(0) == s);
    }
}

proof fn lemma_trim_end_take(s: Seq<char>, i: int)
    requires
        0 <= i <= s.len(),
        forall|j: int| i <= j < s.len() ==> is_space(#[trigger] s[j]),
    ensures
        trim_end(s) == trim_end(s.take(i)),
    decreases s.len() - i,
{
    if i < s.len() {
        assert(s.drop_last() == s.take(s.len() - 1));
        lemma_trim_end_take(s.drop_last(), i);
        assert(s.drop_last().take(i) == s.take(i));
    } else {
        assert(s.take(s.len() as int) == s);
    }
}

/// Bounds `(start, end)` such that `s[start..end]` is `trim(s)`.
pub fn trim_bounds(s: &[char], lo: usize, hi: usize) -> (r: (usize, usize))
    requires
        lo <= hi <= s@.len(),
    ensures
        lo <= r.0 <= r.1 <= hi,
        s@.subrange(r.0 as int, r.1 as int) == trim(s@.subrange(lo as int, hi as int)),
{
    let ghost t = s@.subrange(lo as int, hi as int);
    let mut a = lo;
    while a < hi && is_space_exec(s[a])
        invariant
            lo <= a <= hi <= s@.len(),
            forall|j: int| lo <= j < a ==> is_space(#[trigger] s@[j]),
        decreases hi - a,
    {
        a = a + 1;
    }
    proof {
        assert forall|j: int| 0 <= j < a - lo implies is_space(#[trigger] t[j]) by {
            assert(t[j] == s@[lo + j]);
        }
        lemma_trim_start_skip(t, a - lo);
        assert(t.skip(a - lo) == s@.subrange(a as int, hi as int));
        if a < hi {
            assert(!is_space(s@.subrange(a as int, hi as int)[0]));
        }
    }
    let mut b = hi;
    while b > a && is_space_exec(s[b - 1])
        invariant
            a <= b <= hi <= s@.len(),
            forall|j: int| b <= j < hi ==> is_space(#[trigger] s@[j]),
        decreases b - a,
    {
        b = b - 1;
    }
    proof {
        let u = s@.subrange(a as int, hi as int);
        assert(trim_start(t) == u);
        assert forall|j: int| b - a <= j < u.len() implies is_space(#[trigger] u[j]) by {
            assert(u[j] == s@[a + j]);
        }
        lemma_trim_end_take(u, b - a);
        assert(u.take(b - a) == s@.subrange(a as int, b as int));
        if b > a {
            assert(s@.subrange(a as int, b as int).last() == s@[b - 1]);
        }
    }
    (a, b)
}


/// Index of the first `c` in `s`, if any.
pub open spec fn first_index(s: Seq<char>, c: char) -> Option<nat>
    decreases s.len(),
{
    if s.len() == 0 {
        None
    } else if s[0] == c {
        Some(0)
    } else {
        match first_index(s.drop_first(), c) {
            Some(i) => Some(i + 1),
            None => None,
        }
    }
}

/// Index of the last `c` in `s`, if any.
pub open spec fn last_index(s: Seq<char>, c: char) -> Option<nat>
    decreases s.len(),
{
    if s.len() == 0 {
        None
    } else if s.last() == c {
        Some((s.len() - 1) as nat)
    } else {
        last_index(s.drop_last(), c)
    }
}

pub proof fn lemma_first_index(s: Seq<char>, c: char, i: int)
    requires
        0 <= i <= s.len(),
        forall|j: int| 0 <= j < i ==> #[trigger] s[j] != c,
    ensures
        i < s.len() && s[i] == c ==> first_index(s, c) == Some(i as nat),
        i == s.len() ==> first_index(s, c) is None,
    decreases i,
{
    if i > 0 {
        lemma_first_index(s.drop_first(), c, i - 1);
    }
}

pub proof fn lemma_first_index_props(s: Seq<char>, c: char)
    ensures
        first_index(s, c) matches Some(i) ==> i < s.len() && s[i as int] == c && forall|j: int|
            0 <= j < i ==> #[trigger] s[j] != c,
        first_index(s, c) is None ==> forall|j: int| 0 <= j < s.len() ==> #[trigger] s[j] != c,
    decreases s.len(),
{
    if s.len() > 0 {
        lemma_first_index_props(s.drop_first(), c);
        if s[0] != c {
            assert forall|j: int| 1 <= j < s.len() implies #[trigger] s[j] == s.drop_first()[j
                - 1] by {}
        }
    }
}

pub proof fn lemma_last_index(s: Seq<char>, c: char, i: int)
    requires
        -1 <= i < s.len(),
        forall|j: int| i < j < s.len() ==> #[trigger] s[j] != c,
    ensures
        i >= 0 && s[i] == c ==> last_index(s, c) == Some(i as nat),
        i == -1 ==> last_index(s, c) is None,
    decreases s.len() - i,
{
    if s.len() > 0 && i < s.len() - 1 {
        lemma_last_index(s.drop_last(), c, i);
    }
}

/// Position of the first `c` in `s[lo..hi]`, relative to `lo`.
pub fn find_char(s: &[char], lo: usize, hi: usize, c: char) -> (r: Option<usize>)
    requires
        lo <= hi <= s@.len(),
    ensures
        match r {
            Some(i) => first_index(s@.subrange(lo as int, hi as int), c) == Some(i as nat),
            None => first_index(s@.subrange(lo as int, hi as int), c) is None,
        },
        r matches Some(i) ==> lo + i < hi,
{
    let ghost t = s@.subrange(lo as int, hi as int);
    let mut i = lo;
    while i < hi
        invariant
            lo <= i <= hi <= s@.len(),
            t == s@.subrange(lo as int, hi as int),
            forall|j: int| 0 <= j < i - lo ==> #[trigger] t[j] != c,
        decreases hi - i,
    {
        if s[i] == c {
            proof {
                lemma_first_index(t, c, i - lo);
            }
            return Some(i - lo);
        }
        i = i + 1;
    }
    proof {
        lemma_first_index(t, c, i - lo);
    }
    None
}

/// Position of the last `c` in `s[lo..hi]`, relative to `lo`.
pub fn rfind_char(s: &[char], lo: usize, hi: usize, c: char) -> (r: Option<usize>)
    requires
        lo <= hi <= s@.len(),
    ensures
        match r {
            Some(i) => last_index(s@.subrange(lo as int, hi as int), c) == Some(i as nat),
            None => last_index(s@.subrange(lo as int, hi as int), c) is None,
        },
        r matches Some(i) ==> lo + i < hi,
{
    let ghost t = s@.subrange(lo as int, hi as int);
    let mut i = hi;
    while i > lo
        invariant
            lo <= i <= hi <= s@.len(),
            t == s@.subrange(lo as int, hi as int),
            forall|j: int| i - lo <= j < t.len() ==> #[trigger] t[j] != c,
        decreases i - lo,
    {
        if s[i - 1] == c {
            proof {
                lemma_last_index(t, c, i - 1 - lo);
            }
            return Some(i - 1 - lo);
        }
        i = i - 1;
    }
    proof {
        lemma_last_index(t, c, -1);
    }
    None
}

/// The pieces of `s` between occurrences of `c` (`str::split` with a char).
pub open spec fn split(s: Seq<char>, c: char) -> Seq<Seq<char>>
    decreases s.len(),
{
    match first_index(s, c) {
        Some(i) => {
            if i < s.len() {
                seq![s.take(i as int)] + split(s.skip(i + 1 as int), c)
            } else {
                seq![s]
            }
        },
        None => seq![s],
    }
}

/// At most `n` pieces of `s` split at `c`; the last piece holds the rest
/// (`str::splitn`).
pub open spec fn splitn(s: Seq<char>, c: char, n: nat) -> Seq<Seq<char>>
    decreases n,
{
    if n <= 1 {
        seq![s]
    } else {
        match first_index(s, c) {
            Some(i) => {
                if i < s.len() {
                    seq![s.take(i as int)] + splitn(s.skip(i + 1 as int), c, (n - 1) as nat)
                } else {
                    seq![s]
                }
            },
            None => seq![s],
        }
    }
}

/// Boundaries `(start, end)` of the pieces of `s[lo..hi]` split at `c`, at most
/// `n` of them when `n > 0`, unbounded when `n == 0`.
pub fn split_bounds(s: &[char], lo: usize, hi: usize, c: char, n: usize) -> (r: Vec<(usize, usize)>)
    requires
        lo <= hi <= s@.len(),
    ensures
        r@.len() >= 1,
        forall|k: int| 0 <= k < r@.len() ==> lo <= (#[trigger] r@[k]).0 <= r@[k].1 <= hi,
        n == 0 ==> r@.len() == split(s@.subrange(lo as int, hi as int), c).len(),
        n == 0 ==> forall|k: int|
            0 <= k < r@.len() ==> s@.subrange((#[trigger] r@[k]).0 as int, r@[k].1 as int) == split(
                s@.subrange(lo as int, hi as int),
                c,
            )[k],
        n > 0 ==> r@.len() == splitn(s@.subrange(lo as int, hi as int), c, n as nat).len(),
        n > 0 ==> forall|k: int|
            0 <= k < r@.len() ==> s@.subrange((#[trigger] r@[k]).0 as int, r@[k].1 as int)
                == splitn(s@.subrange(lo as int, hi as int), c, n as nat)[k],
{
    let mut r: Vec<(usize, usize)> = Vec::new();
    let mut start = lo;
    let mut left: usize = n;
    let ghost whole = s@.subrange(lo as int, hi as int);
    loop
        invariant_except_break
            lo <= start <= hi <= s@.len(),
            whole == s@.subrange(lo as int, hi as int),
            forall|k: int| 0 <= k < r@.len() ==> lo <= (#[trigger] r@[k]).0 <= r@[k].1 <= hi,
            n == 0 ==> left == 0,
            n > 0 ==> left >= 1 && left + r@.len() == n,
            n == 0 ==> split(whole, c) == r@.map_values(
                |p: (usize, usize)| s@.subrange(p.0 as int, p.1 as int),
            ) + split(s@.subrange(start as int, hi as int), c),
            n > 0 ==> splitn(whole, c, n as nat) == r@.map_values(
                |p: (usize, usize)| s@.subrange(p.0 as int, p.1 as int),
            ) + splitn(s@.subrange(start as int, hi as int), c, left as nat),
        ensures
            r@.len() >= 1,
            forall|k: int| 0 <= k < r@.len() ==> lo <= (#[trigger] r@[k]).0 <= r@[k].1 <= hi,
            n == 0 ==> split(whole, c) == r@.map_values(
                |p: (usize, usize)| s@.subrange(p.0 as int, p.1 as int),
            ),
            n > 0 ==> splitn(whole, c, n as nat) == r@.map_values(
                |p: (usize, usize)| s@.subrange(p.0 as int, p.1 as int),
            ),
        decreases hi - start, left,
    {
        let ghost rest = s@.subrange(start as int, hi as int);
        let ghost before = r@;
        if n > 0 && left == 1 {
            r.push((start, hi));
            proof {
                assert(r@.map_values(|p: (usize, usize)| s@.subrange(p.0 as int, p.1 as int))
                    == before.map_values(|p: (usize, usize)| s@.subrange(p.0 as int, p.1 as int))
                    + seq![rest]);
            }
            break;
        }
        match find_char(s, start, hi, c) {
            Some(i) => {
                let end = start + i;
                r.push((start, end));
                proof {
                    assert(rest.take(i as int) == s@.subrange(start as int, end as int));
                    assert(rest.skip(i + 1) == s@.subrange(end + 1, hi as int));
                    assert(r@.map_values(|p: (usize, usize)| s@.subrange(p.0 as int, p.1 as int))
                        == before.map_values(
                        |p: (usize, usize)| s@.subrange(p.0 as int, p.1 as int),
                    ) + seq![rest.take(i as int)]);
                }
                start = end + 1;
                if n > 0 {
                    left = left - 1;
                }
            },
            None => {
                r.push((start, hi));
                proof {
                    assert(rest == s@.subrange(start as int, hi as int));
                    assert(r@.map_values(|p: (usize, usize)| s@.subrange(p.0 as int, p.1 as int))
                        == before.map_values(
                        |p: (usize, usize)| s@.subrange(p.0 as int, p.1 as int),
                    ) + seq![rest]);
                }
                break;
            },
        }
    }
    proof {
        let m = r@.map_values(|p: (usize, usize)| s@.subrange(p.0 as int, p.1 as int));
        assert forall|k: int| 0 <= k < r@.len() implies s@.subrange(
            (#[trigger] r@[k]).0 as int,
            r@[k].1 as int,
        ) == m[k] by {}
    }
    r
}


/// ASCII lower-casing of one character (`char::to_ascii_lowercase`).
pub open spec fn lower(c: char) -> char {
    if 'A' <= c && c <= 'Z' {
        ((c as u32) + 32) as char
    } else {
        c
    }
}

/// ASCII upper-casing of one character (`char::to_ascii_uppercase`).
pub open spec fn upper(c: char) -> char {
    if 'a' <= c && c <= 'z' {
        ((c as u32) - 32) as char
    } else {
        c
    }
}

/// ASCII lower-casing of a string (`str::to_ascii_lowercase`).
pub open spec fn lowercase(s: Seq<char>) -> Seq<char> {
    s.map_values(|c: char| lower(c))
}

/// ASCII upper-casing of a string (`str::to_ascii_uppercase`).
pub open spec fn uppercase(s: Seq<char>) -> Seq<char> {
    s.map_values(|c: char| upper(c))
}

pub fn lower_exec(c: char) -> (r: char)
    ensures
        r == lower(c),
{
    if 'A' <= c && c <= 'Z' {
        let u = (c as u32) + 32;
        proof {
            assert(u == (c as u32) + 32);
        }
        char_of(u)
    } else {
        c
    }
}

pub fn upper_exec(c: char) -> (r: char)
    ensures
        r == upper(c),
{
    if 'a' <= c && c <= 'z' {
        let u = (c as u32) - 32;
        char_of(u)
    } else {
        c
    }
}

/// The character with scalar value `u`, for an ASCII scalar.
fn char_of(u: u32) -> (c: char)
    requires
        u < 128,
    ensures
        c == u as char,
        c as u32 == u,
{
    let b: u8 = u as u8;
    b as char
}

/// The ASCII lower-case copy of `s[lo..hi]`.
pub fn lowercase_range(s: &[char], lo: usize, hi: usize) -> (r: Vec<char>)
    requires
        lo <= hi <= s@.len(),
    ensures
        r@ == lowercase(s@.subrange(lo as int, hi as int)),
{
    let mut r: Vec<char> = Vec::new();
    let mut i = lo;
    while i < hi
        invariant
            lo <= i <= hi <= s@.len(),
            r@ == lowercase(s@.subrange(lo as int, i as int)),
        decreases hi - i,
    {
        r.push(lower_exec(s[i]));
        proof {
            assert(s@.subrange(lo as int, i + 1) == s@.subrange(lo as int, i as int).push(
                s@[i as int],
            ));
        }
        i = i + 1;
    }
    r
}

/// The ASCII upper-case copy of `s[lo..hi]`.
pub fn uppercase_range(s: &[char], lo: usize, hi: usize) -> (r: Vec<char>)
    requires
        lo <= hi <= s@.len(),
    ensures
        r@ == uppercase(s@.subrange(lo as int, hi as int)),
{
    let mut r: Vec<char> = Vec::new();
    let mut i = lo;
    while i < hi
        invariant
            lo <= i <= hi <= s@.len(),
            r@ == uppercase(s@.subrange(lo as int, i as int)),
        decreases hi - i,
    {
        r.push(upper_exec(s[i]));
        proof {
            assert(s@.subrange(lo as int, i + 1) == s@.subrange(lo as int, i as int).push(
                s@[i as int],
            ));
        }
        i = i + 1;
    }
    r
}

/// Whether `s[lo..hi]` is exactly `t`.
pub fn range_eq(s: &[char], lo: usize, hi: usize, t: &[char]) -> (b: bool)
    requires
        lo <= hi <= s@.len(),
    ensures
        b == (s@.subrange(lo as int, hi as int) == t@),
{
    if hi - lo != t.len() {
        proof {
            assert(s@.subrange(lo as int, hi as int).len() != t@.len());
        }
        return false;
    }
    let mut i: usize = 0;
    while i < t.len()
        invariant
            lo <= hi <= s@.len(),
            hi - lo == t@.len(),
            0 <= i <= t@.len(),
            forall|j: int| 0 <= j < i ==> s@[lo + j] == t@[j],
        decreases t@.len() - i,
    {
        if s[lo + i] != t[i] {
            proof {
                assert(s@.subrange(lo as int, hi as int)[i as int] != t@[i as int]);
            }
            return false;
        }
        i = i + 1;
    }
    proof {
        assert(s@.subrange(lo as int, hi as int) =~= t@);
    }
    true
}

/// Whether `s[lo..hi]` equals `t` when ASCII letters are compared without case.
pub fn range_eq_ignore_case(s: &[char], lo: usize, hi: usize, t: &[char]) -> (b: bool)
    requires
        lo <= hi <= s@.len(),
    ensures
        b == (lowercase(s@.subrange(lo as int, hi as int)) == lowercase(t@)),
{
    let a = lowercase_range(s, lo, hi);
    let b = lowercase_range(t, 0, t.len());
    proof {
        assert(t@.subrange(0, t@.len() as int) == t@);
        assert(a@.subrange(0, a@.len() as int) == a@);
    }
    range_eq(&a, 0, a.len(), &b)
}

/// Whether `t` begins with `p`.
pub open spec fn starts_with(t: Seq<char>, p: Seq<char>) -> bool {
    p.len() <= t.len() && t.take(p.len() as int) == p
}

/// Whether `t` is a prefix of `s[lo..hi]`.
pub fn range_starts_with(s: &[char], lo: usize, hi: usize, t: &[char]) -> (b: bool)
    requires
        lo <= hi <= s@.len(),
    ensures
        b == (t@.len() <= hi - lo && s@.subrange(lo as int, lo + t@.len()) == t@),
{
    if t.len() > hi - lo {
        return false;
    }
    range_eq(s, lo, lo + t.len(), t)
}

/// Decimal digits of `n` (`Display` of an unsigned integer).
pub open spec fn decimal(n: nat) -> Seq<char>
    decreases n,
{
    if n < 10 {
        seq![digit_char(n)]
    } else {
        decimal(n / 10).push(digit_char(n % 10))
    }
}

pub open spec fn digit_char(d: nat) -> char {
    ((d + 48) as u32) as char
}

pub open spec fn is_digit(c: char) -> bool {
    '0' <= c && c <= '9'
}

pub open spec fn digit_value(c: char) -> nat {
    ((c as u32) - 48) as nat
}

/// The value of a string of decimal digits.
pub open spec fn digits_value(s: Seq<char>) -> nat
    decreases s.len(),
{
    if s.len() == 0 {
        0
    } else {
        digits_value(s.drop_last()) * 10 + digit_value(s.last())
    }
}

pub open spec fn all_digits(s: Seq<char>) -> bool {
    forall|i: int| 0 <= i < s.len() ==> is_digit(#[trigger] s[i])
}

/// The value that `str::parse::<u16>` gives for `s`, if it accepts `s`.
pub open spec fn parse_u16(s: Seq<char>) -> Option<u16> {
    let d = if s.len() > 0 && s[0] == '+' {
        s.drop_first()
    } else {
        s
    };
    if d.len() > 0 && all_digits(d) && digits_value(d) <= 0xffff {
        Some(digits_value(d) as u16)
    } else {
        None
    }
}

proof fn lemma_digits_value_mono(s: Seq<char>, i: int)
    requires
        0 <= i <= s.len(),
        all_digits(s),
    ensures
        digits_value(s.take(i)) <= digits_value(s),
    decreases s.len() - i,
{
    if i < s.len() {
        lemma_digits_value_mono(s.drop_last(), i);
        assert(s.drop_last().take(i) == s.take(i));
        assert(is_digit(s[s.len() - 1]));
    } else {
        assert(s.take(i) == s);
    }
}

/// `str::parse::<u16>` of `s[lo..hi]`.
pub fn parse_u16_range(s: &[char], lo: usize, hi: usize) -> (r: Option<u16>)
    requires
        lo <= hi <= s@.len(),
    ensures
        r == parse_u16(s@.subrange(lo as int, hi as int)),
{
    let ghost t = s@.subrange(lo as int, hi as int);
    let mut start = lo;
    if hi > lo && s[lo] == '+' {
        start = lo + 1;
    }
    let ghost d = s@.subrange(start as int, hi as int);
    proof {
        if hi > lo && s@[lo as int] == '+' {
            assert(d == t.drop_first());
        } else {
            assert(d == t);
        }
    }
    if start == hi {
        return None;
    }
    let mut v: u32 = 0;
    let mut i = start;
    while i < hi
        invariant
            lo <= start <= i <= hi <= s@.len(),
            d == s@.subrange(start as int, hi as int),
            t == s@.subrange(lo as int, hi as int),
            d == (if t.len() > 0 && t[0] == '+' {
                t.drop_first()
            } else {
                t
            }),
            all_digits(s@.subrange(start as int, i as int)),
            v == digits_value(s@.subrange(start as int, i as int)),
            v <= 0xffff,
        decreases hi - i,
    {
        let c = s[i];
        let ghost pre = s@.subrange(start as int, i as int);
        assert(s@.subrange(start as int, i + 1) == pre.push(c));
        assert(s@.subrange(start as int, i + 1).drop_last() == pre);
        if !('0' <= c && c <= '9') {
            proof {
                assert(d[i - start] == c);
                assert(!is_digit(d[i - start]));
                assert(!all_digits(d));
                assert(parse_u16(t) is None);
            }
            return None;
        }
        let dv = (c as u32) - 48;
        let nv = v * 10 + dv;
        if nv > 0xffff {
            proof {
                assert(s@.subrange(start as int, i + 1).last() == c);
                assert(digit_value(c) == dv);
                assert(digits_value(s@.subrange(start as int, i + 1)) == nv);
                if all_digits(d) {
                    lemma_digits_value_mono(d, i + 1 - start);
                    assert(d.take(i + 1 - start) == s@.subrange(start as int, i + 1));
                }
                assert(parse_u16(t) is None);
            }
            return None;
        }
        v = nv;
        i = i + 1;
    }
    proof {
        assert(s@.subrange(start as int, hi as int) == d);
    }
    Some(v as u16)
}

/// Decimal digits of `n`.
pub fn decimal_of(n: u64) -> (r: Vec<char>)
    ensures
        r@ == decimal(n as nat),
    decreases n,
{
    if n < 10 {
        let mut r: Vec<char> = Vec::new();
        r.push(char_of((n as u32) + 48));
        r
    } else {
        let mut r = decimal_of(n / 10);
        r.push(char_of(((n % 10) as u32) + 48));
        r
    }
}


/// Appends the bytes of `src` to `dst`.
pub fn extend_bytes(dst: &mut Vec<u8>, src: &[u8])
    ensures
        final(dst)@ == old(dst)@ + src@,
{
    let mut i: usize = 0;
    while i < src.len()
        invariant
            0 <= i <= src@.len(),
            dst@ == old(dst)@ + src@.take(i as int),
        decreases src@.len() - i,
    {
        dst.push(src[i]);
        proof {
            assert(src@.take(i + 1) == src@.take(i as int).push(src@[i as int]));
        }
        i = i + 1;
    }
    proof {
        assert(src@.take(src@.len() as int) == src@);
    }
}

/// Whether two strings are equal.
pub fn str_eq(a: &str, b: &str) -> (r: bool)
    ensures
        r == (a@ == b@),
{
    let ca = chars_of(a);
    let cb = chars_of(b);
    proof {
        assert(ca@.subrange(0, ca@.len() as int) == ca@);
    }
    range_eq(ca.as_slice(), 0, ca.len(), cb.as_slice())
}

/// Appends the characters of `src` to `dst`.
pub fn extend_chars(dst: &mut Vec<char>, src: &[char])
    ensures
        final(dst)@ == old(dst)@ + src@,
{
    let mut i: usize = 0;
    while i < src.len()
        invariant
            0 <= i <= src@.len(),
            dst@ == old(dst)@ + src@.take(i as int),
        decreases src@.len() - i,
    {
        dst.push(src[i]);
        proof {
            assert(src@.take(i + 1) == src@.take(i as int).push(src@[i as int]));
        }
        i = i + 1;
    }
    proof {
        assert(src@.take(src@.len() as int) == src@);
    }
}

/// Appends the characters of the string `src` to `dst`.
pub fn push_str(dst: &mut Vec<char>, src: &str)
    ensures
        final(dst)@ == old(dst)@ + src@,
{
    let c = chars_of(src);
    extend_chars(dst, c.as_slice());
}

/// `s[lo..hi]` as an owned string.
pub fn sub_string(s: &[char], lo: usize, hi: usize) -> (r: String)
    requires
        lo <= hi <= s@.len(),
    ensures
        r@ == s@.subrange(lo as int, hi as int),
{
    let mut v: Vec<char> = Vec::new();
    let mut i = lo;
    while i < hi
        invariant
            lo <= i <= hi <= s@.len(),
            v@ == s@.subrange(lo as int, i as int),
        decreases hi - i,
    {
        v.push(s[i]);
        proof {
            assert(s@.subrange(lo as int, i + 1) == s@.subrange(lo as int, i as int).push(s@[i as int]));
        }
        i = i + 1;
    }
    string_from_chars(v.as_slice())
}

/// `String::from_utf8(v).ok()`: the text whose UTF-8 is `v`, if `v` is
/// valid UTF-8.
#[verifier::external_body]
pub(crate) fn utf8_text(v: Vec<u8>) -> (r: Option<String>)
    ensures
        match r {
            Some(s) => valid_utf8(v@) && s@ == decode_utf8(v@),
            None => !valid_utf8(v@),
        },
{
    String::from_utf8(v).ok()
}

/// What `String::from_utf8_lossy` makes of `b`.
pub uninterp spec fn utf8_lossy(b: Seq<u8>) -> Seq<char>;

/// `String::from_utf8_lossy(b)`: the text of `b` with each invalid sequence
/// replaced by U+FFFD.  Of the replacement nothing is stated but that valid
/// UTF-8 decodes as it is.
#[verifier::external_body]
pub(crate) fn lossy_text(b: &[u8]) -> (s: String)
    ensures
        s@ == utf8_lossy(b@),
        valid_utf8(b@) ==> s@ == decode_utf8(b@),
{
    String::from_utf8_lossy(b).into_owned()
}

/// The index of the first white-space character of `t`, or its length.
pub open spec fn word_len(t: Seq<char>) -> nat
    decreases t.len(),
{
    if t.len() == 0 || is_space(t[0]) {
        0
    } else {
        1 + word_len(t.drop_first())
    }
}

pub proof fn lemma_trim_start_len(s: Seq<char>)
    ensures
        trim_start(s).len() <= s.len(),
        trim_start(s).len() > 0 ==> !is_space(trim_start(s)[0]),
        trim_start(s) == s.skip(s.len() - trim_start(s).len()),
    decreases s.len(),
{
    if s.len() > 0 && is_space(s[0]) {
        lemma_trim_start_len(s.drop_first());
        assert(s.drop_first().skip(s.drop_first().len() - trim_start(s).len()) == s.skip(
            s.len() - trim_start(s).len(),
        ));
    } else {
        assert(s.skip(0) == s);
    }
}

pub proof fn lemma_word_len(t: Seq<char>)
    ensures
        word_len(t) <= t.len(),
        forall|j: int| 0 <= j < word_len(t) ==> !is_space(#[trigger] t[j]),
        word_len(t) < t.len() ==> is_space(t[word_len(t) as int]),
    decreases t.len(),
{
    if t.len() > 0 && !is_space(t[0]) {
        lemma_word_len(t.drop_first());
        assert forall|j: int| 0 <= j < word_len(t) implies !is_space(#[trigger] t[j]) by {
            if j > 0 {
                assert(t[j] == t.drop_first()[j - 1]);
            }
        }
    }
}

/// The white-space separated words of `s` (`str::split_whitespace`).
pub open spec fn words(s: Seq<char>) -> Seq<Seq<char>>
    decreases s.len(),
{
    let t = trim_start(s);
    if t.len() == 0 {
        Seq::empty()
    } else {
        proof {
            lemma_trim_start_len(s);
            lemma_word_len(t);
        }
        let n = word_len(t);
        if n == 0 {
            Seq::empty()
        } else {
            seq![t.take(n as int)] + words(t.skip(n as int))
        }
    }
}

/// The first `n` words of `s[lo..hi]`, as bounds, or fewer if it has fewer.
pub fn word_bounds(s: &[char], lo: usize, hi: usize, n: usize) -> (r: Vec<(usize, usize)>)
    requires
        lo <= hi <= s@.len(),
    ensures
        r@.len() == (if words(s@.subrange(lo as int, hi as int)).len() < n {
            words(s@.subrange(lo as int, hi as int)).len()
        } else {
            n as nat
        }),
        forall|k: int| 0 <= k < r@.len() ==> lo <= (#[trigger] r@[k]).0 <= r@[k].1 <= hi,
        forall|k: int|
            0 <= k < r@.len() ==> s@.subrange((#[trigger] r@[k]).0 as int, r@[k].1 as int) == words(
                s@.subrange(lo as int, hi as int),
            )[k],
{
    let ghost all = words(s@.subrange(lo as int, hi as int));
    let mut r: Vec<(usize, usize)> = Vec::new();
    let mut i = lo;
    proof {
        assert(char_pieces(s@, r@) + words(s@.subrange(i as int, hi as int)) =~= all);
    }
    while r.len() < n
        invariant
            lo <= i <= hi <= s@.len(),
            r@.len() <= n,
            all == words(s@.subrange(lo as int, hi as int)),
            char_pieces(s@, r@) + words(s@.subrange(i as int, hi as int)) == all,
            forall|k: int| 0 <= k < r@.len() ==> lo <= (#[trigger] r@[k]).0 <= r@[k].1 <= hi,
        decreases hi - i, n - r@.len(),
    {
        let ghost u = s@.subrange(i as int, hi as int);
        let mut a = i;
        while a < hi && is_space_exec(s[a])
            invariant
                i <= a <= hi <= s@.len(),
                u == s@.subrange(i as int, hi as int),
                forall|j: int| i <= j < a ==> is_space(#[trigger] s@[j]),
            decreases hi - a,
        {
            a = a + 1;
        }
        proof {
            assert forall|j: int| 0 <= j < a - i implies is_space(#[trigger] u[j]) by {
                assert(u[j] == s@[i + j]);
            }
            lemma_trim_start_skip(u, a - i);
            assert(u.skip(a - i) == s@.subrange(a as int, hi as int));
            if a < hi {
                assert(!is_space(s@.subrange(a as int, hi as int)[0]));
            }
            assert(trim_start(s@.subrange(a as int, hi as int)) == s@.subrange(a as int, hi as int));
        }
        if a == hi {
            proof {
                assert(trim_start(u).len() == 0);
                assert(words(u).len() == 0);
                assert(char_pieces(s@, r@) =~= all);
                lemma_char_pieces_index(s@, r@);
            }
            return r;
        }
        let mut b = a;
        while b < hi && !is_space_exec(s[b])
            invariant
                a <= b <= hi <= s@.len(),
                forall|j: int| a <= j < b ==> !is_space(#[trigger] s@[j]),
            decreases hi - b,
        {
            b = b + 1;
        }
        let ghost t = s@.subrange(a as int, hi as int);
        proof {
            lemma_word_len(t);
            lemma_word_len_exact(t, b - a);
            assert(t.take(b - a) == s@.subrange(a as int, b as int));
            assert(t.skip(b - a) == s@.subrange(b as int, hi as int));
            assert(trim_start(u) == t);
            assert(words(u) == seq![t.take(b - a)] + words(t.skip(b - a)));
        }
        let ghost r0 = r@;
        r.push((a, b));
        proof {
            assert(char_pieces(s@, r@) =~= char_pieces(s@, r0).push(s@.subrange(a as int, b as int)));
            assert(char_pieces(s@, r@) + words(s@.subrange(b as int, hi as int)) =~= char_pieces(s@, r0)
                + words(u));
        }
        i = b;
    }
    proof {
        lemma_char_pieces_index(s@, r@);
    }
    r
}

/// The pieces of `s` that the bounds `r` mark.
pub open spec fn char_pieces(s: Seq<char>, r: Seq<(usize, usize)>) -> Seq<Seq<char>> {
    r.map_values(|p: (usize, usize)| s.subrange(p.0 as int, p.1 as int))
}

proof fn lemma_char_pieces_index(s: Seq<char>, r: Seq<(usize, usize)>)
    ensures
        forall|k: int| 0 <= k < r.len() ==> s.subrange((#[trigger] r[k]).0 as int, r[k].1 as int) == char_pieces(s, r)[k],
{
}

proof fn lemma_word_len_exact(t: Seq<char>, k: int)
    requires
        0 <= k <= t.len(),
        forall|j: int| 0 <= j < k ==> !is_space(#[trigger] t[j]),
        k == t.len() || is_space(t[k]),
    ensures
        word_len(t) == k,
    decreases k,
{
    if k > 0 {
        assert forall|j: int| 0 <= j < k - 1 implies !is_space(#[trigger] t.drop_first()[j]) by {
            assert(t.drop_first()[j] == t[j + 1]);
        }
        lemma_word_len_exact(t.drop_first(), k - 1);
    }
}

/// Whether `n` occurs in `h` as a run of consecutive characters.
pub open spec fn has_substring(h: Seq<char>, n: Seq<char>) -> bool {
    exists|i: int| 0 <= i && i + n.len() <= h.len() && #[trigger] h.subrange(i, i + n.len()) == n
}

/// `hay.contains(needle)`.
pub fn str_contains(hay: &str, needle: &str) -> (b: bool)
    ensures
        b == has_substring(hay@, needle@),
{
    let h = chars_of(hay);
    let n = chars_of(needle);
    if n.len() > h.len() {
        return false;
    }
    let last = h.len() - n.len();
    let mut i: usize = 0;
    loop
        invariant
            h@ == hay@,
            n@ == needle@,
            last + n@.len() == h@.len(),
            h@.len() <= usize::MAX,
            0 <= i <= last,
            forall|j: int| 0 <= j < i ==> #[trigger] h@.subrange(j, j + n@.len()) != n@,
        ensures
            i == last,
            forall|j: int| 0 <= j <= i ==> #[trigger] h@.subrange(j, j + n@.len()) != n@,
        decreases last - i,
    {
        if range_eq(h.as_slice(), i, i + n.len(), n.as_slice()) {
            return true;
        }
        if i == last {
            break;
        }
        i = i + 1;
    }
    proof {
        assert forall|j: int| 0 <= j && j + n@.len() <= h@.len() implies #[trigger] h@.subrange(j, j + n@.len()) != n@ by {
            assert(j <= i);
        }
    }
    false
}

/// The parts joined with `sep` between each two.
pub open spec fn joined(parts: Seq<Seq<char>>, sep: Seq<char>) -> Seq<char>
    decreases parts.len(),
{
    if parts.len() == 0 {
        Seq::empty()
    } else if parts.len() == 1 {
        parts[0]
    } else {
        joined(parts.drop_last(), sep) + sep + parts.last()
    }
}

/// `parts.join(sep)`, as characters.
pub fn join_texts(parts: &Vec<String>, sep: &str) -> (r: Vec<char>)
    ensures
        r@ == joined(parts@.map_values(|p: String| p@), sep@),
{
    let ghost views = parts@.map_values(|p: String| p@);
    let mut r: Vec<char> = Vec::new();
    let mut i: usize = 0;
    while i < parts.len()
        invariant
            0 <= i <= parts@.len(),
            views == parts@.map_values(|p: String| p@),
            r@ == joined(views.take(i as int), sep@),
        decreases parts@.len() - i,
    {
        if i > 0 {
            push_str(&mut r, sep);
        }
        push_str(&mut r, parts[i].as_str());
        proof {
            assert(views.take(i + 1).drop_last() == views.take(i as int));
            assert(views.take(i + 1).last() == parts@[i as int]@);
            if i == 0 {
                assert(views.take(1).len() == 1);
                assert(views.take(0).len() == 0);
            }
        }
        i = i + 1;
    }
    proof {
        assert(views.take(parts@.len() as int) == views);
    }
    r
}

} // verus!
