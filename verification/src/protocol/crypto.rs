//! The proof of the shared key: an HMAC-SHA256 tag over the NUL-separated
//! fields of a hello, in standard base64; and the random values around it.

use super::encoding::{
    base64_encode, base64_text, hex_encode, lemma_base64_len, hex_text, hmac_sha256, hmac_sha256_tag, random_bytes,
};
use crate::text::{extend_bytes, str_eq};
use vstd::prelude::*;
use vstd::utf8::encode_utf8;

verus! {

/// The bytes a proof signs: the UTF-8 of
/// `cross233/v1 NUL ty NUL client_id NUL id NUL nonce`.
pub open spec fn proof_message(ty: Seq<char>, client_id: Seq<char>, id: Seq<char>, nonce: Seq<char>) -> Seq<u8> {
    encode_utf8("cross233/v1"@) + seq![0u8] + encode_utf8(ty) + seq![0u8] + encode_utf8(client_id)
        + seq![0u8] + encode_utf8(id) + seq![0u8] + encode_utf8(nonce)
}

/// The proof a holder of `key` gives for a hello.
pub open spec fn expected_proof(
    key: Seq<char>,
    ty: Seq<char>,
    client_id: Seq<char>,
    id: Seq<char>,
    nonce: Seq<char>,
) -> Seq<char> {
    base64_text(hmac_sha256(encode_utf8(key), proof_message(ty, client_id, id, nonce)))
}

fn message_bytes(ty: &str, client_id: &str, id: &str, nonce: &str) -> (m: Vec<u8>)
    ensures
        m@ == proof_message(ty@, client_id@, id@, nonce@),
{
    let mut m: Vec<u8> = Vec::new();
    extend_bytes(&mut m, "cross233/v1".as_bytes());
    m.push(0);
    extend_bytes(&mut m, ty.as_bytes());
    m.push(0);
    extend_bytes(&mut m, client_id.as_bytes());
    m.push(0);
    extend_bytes(&mut m, id.as_bytes());
    m.push(0);
    extend_bytes(&mut m, nonce.as_bytes());
    m
}

/// The text of a proof whose tag is `tag`.
pub fn proof_from_tag(tag: &[u8]) -> (p: String)
    ensures
        p@ == base64_text(tag@),
{
    base64_encode(tag)
}

/// The proof for a hello of kind `ty` from `client_id` (tunnel `id`) that
/// answers challenge `nonce`.
pub fn compute_proof(key: &str, ty: &str, client_id: &str, id: &str, nonce: &str) -> (p: String)
    ensures
        p@ == expected_proof(key@, ty@, client_id@, id@, nonce@),
        p@.len() == 44,
{
    let msg = message_bytes(ty, client_id, id, nonce);
    let tag = hmac_sha256_tag(key.as_bytes(), msg.as_slice());
    proof {
        lemma_base64_len(tag@);
    }
    proof_from_tag(tag.as_slice())
}

/// Whether `proof` is the proof a holder of `key` gives.
pub fn verify_proof(key: &str, ty: &str, client_id: &str, id: &str, nonce: &str, proof: &str) -> (b: bool)
    ensures
        b == (proof@ == expected_proof(key@, ty@, client_id@, id@, nonce@)),
{
    let expected = compute_proof(key, ty, client_id, id, nonce);
    str_eq(expected.as_str(), proof)
}

/// A fresh challenge: 16 random bytes in lowercase hex.
pub fn generate_nonce() -> (n: String)
    ensures
        exists|b: Seq<u8>| b.len() == 16 && n@ == hex_text(b),
{
    let b = random_bytes(16);
    hex_encode(b.as_slice())
}

} // verus!
