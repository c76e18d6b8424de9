//! The PROXY protocol header the client puts before a connection to a local
//! service: version 1 (text) or version 2 (binary).

use crate::protocol::net::{port_bytes, push_octets, push_port, IpAddress, SocketAddress};
use crate::text::{decimal, decimal_of, push_str, str_eq};
use vstd::prelude::*;
use vstd::utf8::encode_utf8;

verus! {

broadcast use vstd::string::group_string_axioms;

pub open spec fn signature() -> Seq<u8> {
    seq![0x0Du8, 0x0A, 0x0D, 0x0A, 0x00, 0x0D, 0x0A, 0x51, 0x55, 0x49, 0x54, 0x0A]
}

/// Version 1: `TCP4` only when both sides are IPv4.
pub open spec fn v1_text(src: SocketAddress, dst: SocketAddress, src_text: Seq<char>, dst_text: Seq<char>) -> Seq<char> {
    "PROXY "@ + (if src.is_v4() && dst.is_v4() {
        "TCP4"@
    } else {
        "TCP6"@
    }) + " "@ + src_text + " "@ + dst_text + " "@ + decimal(src.port as nat) + " "@ + decimal(
        dst.port as nat,
    ) + "\r\n"@
}

/// Version 2: both addresses, then both ports; a mixed pair is sent as a
/// LOCAL command without addresses.
pub open spec fn v2_bytes(src: SocketAddress, dst: SocketAddress) -> Seq<u8> {
    if src.is_v4() == dst.is_v4() {
        signature() + seq![0x21u8, if src.is_v4() {
            0x11u8
        } else {
            0x21u8
        }] + port_bytes(if src.is_v4() {
            12u16
        } else {
            36u16
        }) + src.octets() + dst.octets() + port_bytes(src.port) + port_bytes(dst.port)
    } else {
        signature() + seq![0x20u8, 0x00u8] + port_bytes(0)
    }
}

/// The header for `version` (`Some("v2")`, else version 1).
pub open spec fn header_bytes(src: SocketAddress, dst: SocketAddress, version: Option<Seq<char>>, src_text: Seq<char>, dst_text: Seq<char>) -> Seq<u8> {
    if version == Some("v2"@) {
        v2_bytes(src, dst)
    } else {
        encode_utf8(v1_text(src, dst, src_text, dst_text))
    }
}

pub fn build_v2_header(src: &SocketAddress, dst: &SocketAddress) -> (h: Vec<u8>)
    ensures
        h@ == v2_bytes(*src, *dst),
{
    let mut buf: Vec<u8> = Vec::new();
    let sig: [u8; 12] = [0x0D, 0x0A, 0x0D, 0x0A, 0x00, 0x0D, 0x0A, 0x51, 0x55, 0x49, 0x54, 0x0A];
    crate::text::extend_bytes(&mut buf, sig.as_slice());
    proof {
        assert(sig@ =~= signature());
    }
    let src_v4 = match src.ip {
        IpAddress::V4(_) => true,
        IpAddress::V6(_) => false,
    };
    let dst_v4 = match dst.ip {
        IpAddress::V4(_) => true,
        IpAddress::V6(_) => false,
    };
    if src_v4 == dst_v4 {
        buf.push(0x21);
        buf.push(if src_v4 {
            0x11
        } else {
            0x21
        });
        push_port(&mut buf, if src_v4 {
            12
        } else {
            36
        });
        push_octets(&mut buf, src);
        push_octets(&mut buf, dst);
        push_port(&mut buf, src.port);
        push_port(&mut buf, dst.port);
    } else {
        buf.push(0x20);
        buf.push(0x00);
        push_port(&mut buf, 0);
    }
    proof {
        assert(buf@ =~= v2_bytes(*src, *dst));
    }
    buf
}

pub fn build_v1_header(src: &SocketAddress, dst: &SocketAddress, src_text: &str, dst_text: &str) -> (h: Vec<u8>)
    ensures
        h@ == encode_utf8(v1_text(*src, *dst, src_text@, dst_text@)),
{
    let both_v4 = match (src.ip, dst.ip) {
        (IpAddress::V4(_), IpAddress::V4(_)) => true,
        _ => false,
    };
    let mut c: Vec<char> = Vec::new();
    push_str(&mut c, "PROXY ");
    if both_v4 {
        push_str(&mut c, "TCP4");
    } else {
        push_str(&mut c, "TCP6");
    }
    push_str(&mut c, " ");
    push_str(&mut c, src_text);
    push_str(&mut c, " ");
    push_str(&mut c, dst_text);
    push_str(&mut c, " ");
    let sp = decimal_of(src.port as u64);
    crate::text::extend_chars(&mut c, sp.as_slice());
    push_str(&mut c, " ");
    let dp = decimal_of(dst.port as u64);
    crate::text::extend_chars(&mut c, dp.as_slice());
    push_str(&mut c, "\r\n");
    let s = crate::text::string_from_chars(c.as_slice());
    let mut out: Vec<u8> = Vec::new();
    crate::text::extend_bytes(&mut out, s.as_str().as_bytes());
    out
}

/// The header a connection from `src` to the local service at `dst`
/// starts with.
pub fn build_header(src: &SocketAddress, dst: &SocketAddress, version: Option<&str>, src_text: &str, dst_text: &str) -> (h: Vec<u8>)
    ensures
        h@ == header_bytes(
            *src,
            *dst,
            match version {
                Some(v) => Some(v@),
                None => None,
            },
            src_text@,
            dst_text@,
        ),
{
    match version {
        Some(v) => {
            if str_eq(v, "v2") {
                build_v2_header(src, dst)
            } else {
                build_v1_header(src, dst, src_text, dst_text)
            }
        },
        None => build_v1_header(src, dst, src_text, dst_text),
    }
}

} // verus!
