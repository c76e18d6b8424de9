//! Byte encodings and primitives of the outside crates the protocol uses:
//! lowercase hex (`hex`), standard base64 with padding (`base64`), HMAC-SHA256
//! (`hmac`, `sha2`) and random bytes (`rand`).

use base64::Engine;
use hmac::Mac;
use vstd::prelude::*;

verus! {

/// The lowercase hex digit of `v` (below 16).
pub open spec fn hex_digit(v: int) -> char {
    if v < 10 {
        (('0' as int) + v) as char
    } else {
        (('a' as int) + v - 10) as char
    }
}

/// Lowercase hex of `b`, two digits per byte, high nibble first.
pub open spec fn hex_text(b: Seq<u8>) -> Seq<char>
    decreases b.len(),
{
    if b.len() == 0 {
        Seq::empty()
    } else {
        hex_text(b.drop_last()) + seq![hex_digit((b.last() / 16) as int), hex_digit((b.last() % 16) as int)]
    }
}

/// The character of a 6-bit value in the standard base64 alphabet.
pub open spec fn b64_char(v: int) -> char {
    if v < 26 {
        (('A' as int) + v) as char
    } else if v < 52 {
        (('a' as int) + v - 26) as char
    } else if v < 62 {
        (('0' as int) + v - 52) as char
    } else if v == 62 {
        '+'
    } else {
        '/'
    }
}

/// Standard base64 of `b`, padded with `=` to a multiple of four characters.
pub open spec fn base64_text(b: Seq<u8>) -> Seq<char>
    decreases b.len(),
{
    if b.len() == 0 {
        Seq::empty()
    } else if b.len() == 1 {
        seq![b64_char((b[0] / 4) as int), b64_char((b[0] % 4) * 16), '=', '=']
    } else if b.len() == 2 {
        seq![
            b64_char((b[0] / 4) as int),
            b64_char((b[0] % 4) * 16 + (b[1] / 16) as int),
            b64_char((b[1] % 16) * 4),
            '=',
        ]
    } else {
        seq![
            b64_char((b[0] / 4) as int),
            b64_char((b[0] % 4) * 16 + (b[1] / 16) as int),
            b64_char((b[1] % 16) * 4 + (b[2] / 64) as int),
            b64_char((b[2] % 64) as int),
        ] + base64_text(b.subrange(3, b.len() as int))
    }
}

/// Base64 text has four characters for each started group of three bytes.
pub proof fn lemma_base64_len(b: Seq<u8>)
    ensures
        base64_text(b).len() == (b.len() + 2) / 3 * 4,
    decreases b.len(),
{
    let n = b.len() as int;
    if n > 3 {
        let r = b.subrange(3, n);
        lemma_base64_len(r);
        assert((n + 2) / 3 * 4 == (n - 3 + 2) / 3 * 4 + 4) by (nonlinear_arith)
            requires
                n > 3,
        ;
    } else if n == 3 {
        assert(base64_text(b).len() == 4 + base64_text(b.subrange(3, 3)).len());
        assert(b.subrange(3, 3).len() == 0);
    }
}

/// Base64 text is never padding in its first two characters of a group, and
/// each value of the alphabet has its own character.
proof fn lemma_b64_char(v: int, w: int)
    requires
        0 <= v < 64,
        0 <= w < 64,
    ensures
        b64_char(v) != '=',
        b64_char(v) == b64_char(w) ==> v == w,
{
}

/// Different byte strings have different base64 texts: a text decodes to at
/// most one byte string.
pub proof fn lemma_base64_injective(a: Seq<u8>, b: Seq<u8>)
    requires
        base64_text(a) == base64_text(b),
    ensures
        a == b,
    decreases a.len(),
{
    let t = base64_text(a);
    if a.len() == 0 || b.len() == 0 {
        if a.len() != 0 || b.len() != 0 {
            assert(base64_text(a).len() != base64_text(b).len());
        }
        assert(a =~= b);
        return;
    }
    let a0 = a[0];
    let b0 = b[0];
    lemma_b64_char((a0 / 4) as int, (b0 / 4) as int);
    assert(t[0] == b64_char((a0 / 4) as int) && t[0] == b64_char((b0 / 4) as int));
    assert(a0 / 4 == b0 / 4);
    if a.len() == 1 || b.len() == 1 {
        if a.len() != 1 {
            let x = if a.len() == 2 { (a[1] % 16) * 4 } else { (a[1] % 16) * 4 + (a[2] / 64) as int };
            lemma_b64_char(x, 0);
            assert(t[2] == b64_char(x));
            assert(base64_text(b)[2] == '=');
            assert(false);
        }
        if b.len() != 1 {
            let x = if b.len() == 2 { (b[1] % 16) * 4 } else { (b[1] % 16) * 4 + (b[2] / 64) as int };
            lemma_b64_char(x, 0);
            assert(base64_text(b)[2] == b64_char(x));
            assert(t[2] == '=');
            assert(false);
        }
        lemma_b64_char((a0 % 4) * 16, (b0 % 4) * 16);
        assert(t[1] == b64_char((a0 % 4) * 16));
        assert(base64_text(b)[1] == b64_char((b0 % 4) * 16));
        assert(a0 == b0);
        assert(a =~= b);
        return;
    }
    let a1 = a[1];
    let b1 = b[1];
    let xa = (a0 % 4) * 16 + (a1 / 16) as int;
    let xb = (b0 % 4) * 16 + (b1 / 16) as int;
    lemma_b64_char(xa, xb);
    assert(t[1] == b64_char(xa));
    assert(base64_text(b)[1] == b64_char(xb));
    assert(a0 == b0);
    assert(a1 / 16 == b1 / 16);
    if a.len() == 2 || b.len() == 2 {
        if a.len() != 2 {
            let y = (a[2] % 64) as int;
            lemma_b64_char(y, 0);
            assert(t[3] == b64_char(y));
            assert(base64_text(b)[3] == '=');
            assert(false);
        }
        if b.len() != 2 {
            let y = (b[2] % 64) as int;
            lemma_b64_char(y, 0);
            assert(base64_text(b)[3] == b64_char(y));
            assert(t[3] == '=');
            assert(false);
        }
        lemma_b64_char((a1 % 16) * 4, (b1 % 16) * 4);
        assert(t[2] == b64_char((a1 % 16) * 4));
        assert(base64_text(b)[2] == b64_char((b1 % 16) * 4));
        assert(a1 == b1);
        assert(a =~= b);
        return;
    }
    let a2 = a[2];
    let b2 = b[2];
    let ya = (a1 % 16) * 4 + (a2 / 64) as int;
    let yb = (b1 % 16) * 4 + (b2 / 64) as int;
    lemma_b64_char(ya, yb);
    lemma_b64_char((a2 % 64) as int, (b2 % 64) as int);
    assert(t[2] == b64_char(ya));
    assert(base64_text(b)[2] == b64_char(yb));
    assert(t[3] == b64_char((a2 % 64) as int));
    assert(base64_text(b)[3] == b64_char((b2 % 64) as int));
    assert(a1 == b1);
    assert(a2 == b2);
    let ra = a.subrange(3, a.len() as int);
    let rb = b.subrange(3, b.len() as int);
    assert(base64_text(ra) == t.subrange(4, t.len() as int));
    assert(base64_text(rb) == base64_text(b).subrange(4, t.len() as int));
    lemma_base64_injective(ra, rb);
    assert(a =~= seq![a0, a1, a2] + ra);
    assert(b =~= seq![b0, b1, b2] + rb);
}

/// The HMAC-SHA256 tag of `msg` under `key`.
pub uninterp spec fn hmac_sha256(key: Seq<u8>, msg: Seq<u8>) -> Seq<u8>;

/// `hex::encode`: lowercase hex, two digits per byte.
#[verifier::external_body]
pub(crate) fn hex_encode(b: &[u8]) -> (s: String)
    ensures
        s@ == hex_text(b@),
{
    hex::encode(b)
}

/// `base64::engine::general_purpose::STANDARD.encode`: standard alphabet,
/// with padding.
#[verifier::external_body]
pub(crate) fn base64_encode(b: &[u8]) -> (s: String)
    ensures
        s@ == base64_text(b@),
{
    base64::engine::general_purpose::STANDARD.encode(b)
}

/// `base64::engine::general_purpose::STANDARD.decode`: the engine requires
/// canonical padding and rejects set trailing bits, so it accepts exactly
/// the encodings of byte strings and gives back those bytes.
#[verifier::external_body]
pub(crate) fn base64_decode(s: &str) -> (r: Option<Vec<u8>>)
    ensures
        match r {
            Some(b) => base64_text(b@) == s@,
            None => forall|b: Seq<u8>| base64_text(b) != s@,
        },
{
    base64::engine::general_purpose::STANDARD.decode(s).ok()
}

/// `Hmac::<Sha256>::new_from_slice(key)` (which accepts a key of any
/// length), `update(msg)`, `finalize()`: the 32-byte tag.
#[verifier::external_body]
pub(crate) fn hmac_sha256_tag(key: &[u8], msg: &[u8]) -> (t: Vec<u8>)
    ensures
        t@ == hmac_sha256(key@, msg@),
        t@.len() == 32,
{
    let mut mac = hmac::Hmac::<sha2::Sha256>::new_from_slice(key).expect("hmac init");
    mac.update(msg);
    mac.finalize().into_bytes().to_vec()
}

/// `rand::random::<u8>()`: a byte from the thread's generator; nothing is
/// known of its value.
#[verifier::external_body]
fn random_byte() -> u8 {
    rand::random::<u8>()
}

/// `n` random bytes.
pub fn random_bytes(n: usize) -> (v: Vec<u8>)
    ensures
        v@.len() == n,
{
    let mut v: Vec<u8> = Vec::new();
    while v.len() < n
        invariant
            v@.len() <= n,
        decreases n - v@.len(),
    {
        v.push(random_byte());
    }
    v
}

/// 16 random bytes in lowercase hex.
pub fn random_id() -> (s: String)
    ensures
        exists|b: Seq<u8>| b.len() == 16 && s@ == hex_text(b),
{
    let b = random_bytes(16);
    hex_encode(b.as_slice())
}

} // verus!
