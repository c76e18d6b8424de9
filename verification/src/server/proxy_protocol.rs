//! The PROXY protocol header the server puts before a relayed connection,
//! so that the client's service sees the original peer: version 1 (text) or
//! version 2 (binary).

use crate::protocol::net::{port_bytes, IpAddress, SocketAddress};
use crate::text::{decimal, decimal_of, push_str, str_eq};
use vstd::prelude::*;
use vstd::utf8::encode_utf8;

verus! {

broadcast use vstd::string::group_string_axioms;

/// The text of a version 1 header; `src_text` and `dst_text` are the
/// addresses' texts.
pub open spec fn v1_text(src: SocketAddress, dst: SocketAddress, src_text: Seq<char>, dst_text: Seq<char>) -> Seq<char> {
    "PROXY "@ + (if src.is_v4() {
        "TCP4"@
    } else {
        "TCP6"@
    }) + " "@ + src_text + " "@ + dst_text + " "@ + decimal(src.port as nat) + " "@ + decimal(
        dst.port as nat,
    ) + "\r\n"@
}

/// A version 2 header: signature, `PROXY` over TCP4 or TCP6, the length,
/// both addresses and then both ports; a pair of mixed families is sent as
/// a `LOCAL` command without addresses.
pub open spec fn v2_bytes(src: SocketAddress, dst: SocketAddress) -> Seq<u8> {
    crate::client::proxy_protocol::v2_bytes(src, dst)
}

/// The header for `version` (`v2`, else version 1).
pub open spec fn header_bytes(version: Seq<char>, src: SocketAddress, dst: SocketAddress, src_text: Seq<char>, dst_text: Seq<char>) -> Seq<u8> {
    if version == "v2"@ {
        v2_bytes(src, dst)
    } else {
        encode_utf8(v1_text(src, dst, src_text, dst_text))
    }
}

/// A version 2 header carries the original peer: when both addresses are of
/// one family, the 16 bytes of signature, command, family and length are
/// followed by the source's octets, the destination's octets, the source's
/// port and the destination's port.
pub proof fn lemma_v2_header_carries_peer(src: SocketAddress, dst: SocketAddress)
    requires
        src.is_v4() == dst.is_v4(),
    ensures
        ({
            let h = v2_bytes(src, dst);
            let n = src.octets().len() as int;
            &&& n == (if src.is_v4() { 4int } else { 16int })
            &&& h.len() == 16 + 2 * (n + 2)
            &&& h.subrange(16, 16 + n) == src.octets()
            &&& h.subrange(16 + n, 16 + 2 * n) == dst.octets()
            &&& h.subrange(16 + 2 * n, 18 + 2 * n) == port_bytes(src.port)
            &&& h.subrange(18 + 2 * n, 20 + 2 * n) == port_bytes(dst.port)
        }),
{
    let h = v2_bytes(src, dst);
    let n = src.octets().len() as int;
    assert(dst.octets().len() == n);
    let head = crate::client::proxy_protocol::signature() + seq![0x21u8, if src.is_v4() { 0x11u8 } else { 0x21u8 }]
        + port_bytes(if src.is_v4() { 12u16 } else { 36u16 });
    assert(head.len() == 16);
    assert(h =~= head + src.octets() + dst.octets() + port_bytes(src.port) + port_bytes(dst.port));
    assert(h.subrange(16, 16 + n) =~= src.octets());
    assert(h.subrange(16 + n, 16 + 2 * n) =~= dst.octets());
    assert(h.subrange(16 + 2 * n, 18 + 2 * n) =~= port_bytes(src.port));
    assert(h.subrange(18 + 2 * n, 20 + 2 * n) =~= port_bytes(dst.port));
}

/// A version 2 header.
pub fn build_v2_header(src: &SocketAddress, dst: &SocketAddress) -> (h: Vec<u8>)
    ensures
        h@ == v2_bytes(*src, *dst),
{
    crate::client::proxy_protocol::build_v2_header(src, dst)
}

/// A version 1 header.
pub fn build_v1_header(src: &SocketAddress, dst: &SocketAddress, src_text: &str, dst_text: &str) -> (h: Vec<u8>)
    ensures
        h@ == encode_utf8(v1_text(*src, *dst, src_text@, dst_text@)),
{
    let mut c: Vec<char> = Vec::new();
    push_str(&mut c, "PROXY ");
    match src.ip {
        IpAddress::V4(_) => push_str(&mut c, "TCP4"),
        IpAddress::V6(_) => push_str(&mut c, "TCP6"),
    }
    push_str(&mut c, " ");
    push_str(&mut c, src_text);
    push_str(&mut c, " ");
    push_str(&mut c, dst_text);
    push_str(&mut c, " ");
    let sp = decimal_of(src.port as u64);
    crate::text::extend_chars(&mut c, sp.as_slice());
    push_str(&mut c, " ");
    let dp = decimal_of(dst.port as u64);
    crate::text::extend_chars(&mut c, dp.as_slice());
    push_str(&mut c, "\r\n");
    let s = crate::text::string_from_chars(c.as_slice());
    let mut out: Vec<u8> = Vec::new();
    crate::text::extend_bytes(&mut out, s.as_str().as_bytes());
    out
}

/// The header a relayed connection from `src` to `dst` starts with:
/// version 2 when `version` is `v2`, else version 1.
pub fn build_header(version: &str, src: &SocketAddress, dst: &SocketAddress, src_text: &str, dst_text: &str) -> (h: Vec<u8>)
    ensures
        h@ == header_bytes(version@, *src, *dst, src_text@, dst_text@),
{
    if str_eq(version, "v2") {
        build_v2_header(src, dst)
    } else {
        build_v1_header(src, dst, src_text, dst_text)
    }
}

} // verus!
