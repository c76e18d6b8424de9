//! Routing of HTTPS virtual hosts: the server name a TLS ClientHello asks
//! for (SNI), read without terminating TLS.

use crate::text::utf8_text;
use vstd::prelude::*;
use vstd::utf8::{decode_utf8, valid_utf8};

verus! {

/// The big-endian 16-bit number at `i`.
pub open spec fn be16_at(h: Seq<u8>, i: int) -> int {
    h[i] * 256 + h[i + 1]
}

/// The first host name (type 0) in the server-name list of `h[ep..end]`
/// that is valid UTF-8.
pub open spec fn sni_in_names(h: Seq<u8>, ep: int, end: int) -> Option<Seq<char>>
    decreases end - ep,
{
    if ep + 3 > end {
        None
    } else {
        let nl = be16_at(h, ep + 1);
        let np = ep + 3;
        if np + nl > end {
            None
        } else if h[ep] == 0 && valid_utf8(h.subrange(np, np + nl)) {
            Some(decode_utf8(h.subrange(np, np + nl)))
        } else {
            sni_in_names(h, np + nl, end)
        }
    }
}

/// The server name in the extensions of a ClientHello body `h`, read from
/// `pos` on.
pub open spec fn sni_in_extensions(h: Seq<u8>, pos: int) -> Option<Seq<char>>
    decreases h.len() - pos,
{
    if pos + 4 > h.len() {
        None
    } else {
        let size = be16_at(h, pos + 2);
        let start = pos + 4;
        if start + size > h.len() {
            None
        } else if be16_at(h, pos) == 0 {
            if start + 2 > start + size {
                None
            } else {
                match sni_in_names(h, start + 2, start + size) {
                    Some(n) => Some(n),
                    None => sni_in_extensions(h, start + size),
                }
            }
        } else {
            sni_in_extensions(h, start + size)
        }
    }
}

/// The server name a TLS record holding a ClientHello asks for: past the
/// 5-byte record header, the handshake type 1, version and random (38
/// bytes), the session id, cipher suites and compression methods come the
/// extensions.
pub open spec fn sni_of(data: Seq<u8>) -> Option<Seq<char>> {
    if data.len() < 44 || data[0] != 0x16 {
        None
    } else {
        let h = data.skip(5);
        if h[0] != 1 {
            None
        } else {
            let p1 = 38 + 1 + h[38];
            if p1 + 2 > h.len() {
                None
            } else {
                let p2 = p1 + 2 + be16_at(h, p1);
                if p2 + 1 > h.len() {
                    None
                } else {
                    let p3 = p2 + 1 + h[p2];
                    if p3 + 2 > h.len() {
                        None
                    } else {
                        sni_in_extensions(h, p3 + 2)
                    }
                }
            }
        }
    }
}

fn be16(data: &[u8], i: usize) -> (v: usize)
    requires
        i + 1 < data@.len(),
    ensures
        v == data@[i as int] * 256 + data@[i + 1],
{
    (data[i] as usize) * 256 + (data[i + 1] as usize)
}

fn copy_bytes(data: &[u8], lo: usize, hi: usize) -> (v: Vec<u8>)
    requires
        lo <= hi <= data@.len(),
    ensures
        v@ == data@.subrange(lo as int, hi as int),
{
    let mut v: Vec<u8> = Vec::new();
    let mut i = lo;
    while i < hi
        invariant
            lo <= i <= hi <= data@.len(),
            v@ == data@.subrange(lo as int, i as int),
        decreases hi - i,
    {
        v.push(data[i]);
        proof {
            assert(data@.subrange(lo as int, i + 1) == data@.subrange(lo as int, i as int).push(
                data@[i as int],
            ));
        }
        i = i + 1;
    }
    v
}

/// The server name indicated by a TLS ClientHello at the start of `data`,
/// if there is one that is valid UTF-8.
pub fn parse_sni(data: &[u8]) -> (r: Option<String>)
    requires
        data@.len() <= usize::MAX / 2,
    ensures
        match sni_of(data@) {
            Some(n) => r matches Some(s) && s@ == n,
            None => r is None,
        },
{
    if data.len() < 44 {
        return None;
    }
    if data[0] != 0x16 {
        return None;
    }
    let ghost h = data@.skip(5);
    let n = data.len();
    // Offsets below are into the handshake, which starts at byte 5.
    if data[5] != 0x01 {
        return None;
    }
    let hl = n - 5;
    let mut pos: usize = 38;
    let session_id_len = data[5 + pos] as usize;
    pos = pos + 1 + session_id_len;
    if pos + 2 > hl {
        return None;
    }
    let cipher_len = be16(data, 5 + pos);
    pos = pos + 2 + cipher_len;
    if pos + 1 > hl {
        return None;
    }
    let comp_len = data[5 + pos] as usize;
    pos = pos + 1 + comp_len;
    if pos + 2 > hl {
        return None;
    }
    pos = pos + 2;
    proof {
        assert(h.len() == hl);
        assert(sni_of(data@) == sni_in_extensions(h, pos as int));
    }
    while pos + 4 <= hl
        invariant
            h == data@.skip(5),
            hl == h.len(),
            n == data@.len(),
            hl + 5 == n,
            n <= usize::MAX / 2,
            pos <= hl + 2,
            sni_of(data@) == sni_in_extensions(h, pos as int),
        decreases hl - pos,
    {
        let ghost p0 = pos;
        let ext_type = be16(data, 5 + pos);
        let ext_size = be16(data, 5 + pos + 2);
        proof {
            assert(ext_type == be16_at(h, pos as int));
            assert(ext_size == be16_at(h, pos + 2));
        }
        pos = pos + 4;
        if pos + ext_size > hl {
            return None;
        }
        if ext_type == 0 {
            let end = pos + ext_size;
            if pos + 2 > end {
                return None;
            }
            let mut ep = pos + 2;
            proof {
                assert(sni_of(data@) == match sni_in_names(h, ep as int, end as int) {
                    Some(x) => Some(x),
                    None => sni_in_extensions(h, end as int),
                });
            }
            while ep + 3 <= end
                invariant
                    h == data@.skip(5),
                    hl == h.len(),
                    hl + 5 == n,
                    n == data@.len(),
                    n <= usize::MAX / 2,
                    end <= hl,
                    ep <= end + 65538,
                    sni_of(data@) == match sni_in_names(h, ep as int, end as int) {
                        Some(x) => Some(x),
                        None => sni_in_extensions(h, end as int),
                    },
                decreases end + 65536 - ep,
            {
                let name_type = data[5 + ep];
                let name_len = be16(data, 5 + ep + 1);
                proof {
                    assert(name_type == h[ep as int]);
                    assert(name_len == be16_at(h, ep + 1));
                }
                ep = ep + 3;
                if ep + name_len <= end && name_type == 0 {
                    let bytes = copy_bytes(data, 5 + ep, 5 + ep + name_len);
                    proof {
                        assert(bytes@ == h.subrange(ep as int, ep + name_len));
                    }
                    match utf8_text(bytes) {
                        Some(name) => {
                            return Some(name);
                        },
                        None => {},
                    }
                }
                ep = ep + name_len;
            }
            proof {
                assert(sni_in_names(h, ep as int, end as int) is None);
            }
        }
        pos = pos + ext_size;
        proof {
            assert(sni_of(data@) == sni_in_extensions(h, pos as int));
        }
    }
    None
}

/// The first bytes of a TLS connection are read into a buffer of this size
/// while looking for the server name.
pub const SNI_BUFFER_BYTES: usize = 4096;

/// Where the search for the server name stands.
#[derive(Debug)]
pub enum SniRead {
    /// The ClientHello names this server.
    Found(String),
    /// Read more bytes.
    More,
    /// The buffer is full: go on without a name.
    GiveUp,
}

/// After the bytes `data` of a connection were read.
pub fn sni_read_step(data: &[u8]) -> (r: SniRead)
    requires
        data@.len() <= SNI_BUFFER_BYTES,
    ensures
        data@.len() >= 44 && sni_of(data@) is Some ==> (r matches SniRead::Found(s) && Some(s@)
            == sni_of(data@)),
        !(data@.len() >= 44 && sni_of(data@) is Some) ==> (if data@.len() >= SNI_BUFFER_BYTES {
            r is GiveUp
        } else {
            r is More
        }),
{
    if data.len() >= 44 {
        match parse_sni(data) {
            Some(s) => {
                return SniRead::Found(s);
            },
            None => {},
        }
    }
    if data.len() >= SNI_BUFFER_BYTES {
        SniRead::GiveUp
    } else {
        SniRead::More
    }
}

/// The server-name list walk reads only `h[ep..end]`.
proof fn lemma_names_local(h1: Seq<u8>, a1: int, b1: int, h2: Seq<u8>, a2: int, b2: int)
    requires
        0 <= a1 <= b1 <= h1.len(),
        0 <= a2 <= b2 <= h2.len(),
        h1.subrange(a1, b1) == h2.subrange(a2, b2),
    ensures
        sni_in_names(h1, a1, b1) == sni_in_names(h2, a2, b2),
    decreases b1 - a1,
{
    let w1 = h1.subrange(a1, b1);
    let w2 = h2.subrange(a2, b2);
    assert(w1.len() == w2.len());
    if a1 + 3 <= b1 {
        assert(h1[a1] == w1[0] && h2[a2] == w2[0]);
        assert(h1[a1 + 1] == w1[1] && h2[a2 + 1] == w2[1]);
        assert(h1[a1 + 2] == w1[2] && h2[a2 + 2] == w2[2]);
        let nl = be16_at(h1, a1 + 1);
        assert(nl == be16_at(h2, a2 + 1));
        let np1 = a1 + 3;
        let np2 = a2 + 3;
        if np1 + nl <= b1 {
            assert(h1.subrange(np1, np1 + nl) =~= h2.subrange(np2, np2 + nl)) by {
                assert forall|j: int| 0 <= j < nl implies #[trigger] h1.subrange(np1, np1 + nl)[j] == h2.subrange(np2, np2 + nl)[j] by {
                    assert(h1[np1 + j] == w1[3 + j]);
                    assert(h2[np2 + j] == w2[3 + j]);
                }
            }
            assert(h1.subrange(np1 + nl, b1) =~= h2.subrange(np2 + nl, b2)) by {
                assert forall|j: int| 0 <= j < b1 - (np1 + nl) implies #[trigger] h1.subrange(np1 + nl, b1)[j] == h2.subrange(np2 + nl, b2)[j] by {
                    assert(h1[np1 + nl + j] == w1[3 + nl + j]);
                    assert(h2[np2 + nl + j] == w2[3 + nl + j]);
                }
            }
            lemma_names_local(h1, np1 + nl, b1, h2, np2 + nl, b2);
        }
    }
}

/// The extension walk reads only `h[pos..]`.
proof fn lemma_extensions_local(h1: Seq<u8>, p1: int, h2: Seq<u8>, p2: int)
    requires
        0 <= p1 <= h1.len(),
        0 <= p2 <= h2.len(),
        h1.skip(p1) == h2.skip(p2),
    ensures
        sni_in_extensions(h1, p1) == sni_in_extensions(h2, p2),
    decreases h1.len() - p1,
{
    let w1 = h1.skip(p1);
    let w2 = h2.skip(p2);
    assert(w1.len() == w2.len());
    if p1 + 4 <= h1.len() {
        assert(h1[p1] == w1[0] && h2[p2] == w2[0]);
        assert(h1[p1 + 1] == w1[1] && h2[p2 + 1] == w2[1]);
        assert(h1[p1 + 2] == w1[2] && h2[p2 + 2] == w2[2]);
        assert(h1[p1 + 3] == w1[3] && h2[p2 + 3] == w2[3]);
        let size = be16_at(h1, p1 + 2);
        assert(size == be16_at(h2, p2 + 2));
        assert(be16_at(h1, p1) == be16_at(h2, p2));
        let s1 = p1 + 4;
        let s2 = p2 + 4;
        if s1 + size <= h1.len() {
            assert(h1.skip(s1 + size) =~= h2.skip(s2 + size)) by {
                assert forall|j: int| 0 <= j < h1.len() - (s1 + size) implies #[trigger] h1.skip(s1 + size)[j] == h2.skip(s2 + size)[j] by {
                    assert(h1[s1 + size + j] == w1[4 + size + j]);
                    assert(h2[s2 + size + j] == w2[4 + size + j]);
                }
            }
            lemma_extensions_local(h1, s1 + size, h2, s2 + size);
            if s1 + 2 <= s1 + size {
                assert(h1.subrange(s1 + 2, s1 + size) =~= h2.subrange(s2 + 2, s2 + size)) by {
                    assert forall|j: int| 0 <= j < size - 2 implies #[trigger] h1.subrange(s1 + 2, s1 + size)[j] == h2.subrange(s2 + 2, s2 + size)[j] by {
                        assert(h1[s1 + 2 + j] == w1[6 + j]);
                        assert(h2[s2 + 2 + j] == w2[6 + j]);
                    }
                }
                lemma_names_local(h1, s1 + 2, s1 + size, h2, s2 + 2, s2 + size);
            }
        }
    }
}

/// Whether `e` is one whole TLS extension of a type other than server_name
/// (type 0): a two-byte type, a two-byte length, and that many bytes.
pub open spec fn other_extension(e: Seq<u8>) -> bool {
    &&& e.len() >= 4
    &&& be16_at(e, 0) != 0
    &&& be16_at(e, 2) == e.len() - 4
}

/// The server name is looked for past any other extension: putting a whole
/// extension of another type in front of the extensions read from `pos`
/// changes nothing of the server name found.
pub proof fn lemma_other_extensions_are_skipped(h: Seq<u8>, pos: int, e: Seq<u8>)
    requires
        0 <= pos <= h.len(),
        other_extension(e),
    ensures
        sni_in_extensions(h.take(pos) + e + h.skip(pos), pos) == sni_in_extensions(h, pos),
{
    let h2 = h.take(pos) + e + h.skip(pos);
    let l = e.len() as int;
    assert forall|j: int| 0 <= j < l implies h2[pos + j] == #[trigger] e[j] by {}
    assert(be16_at(h2, pos) == be16_at(e, 0));
    assert(be16_at(h2, pos + 2) == be16_at(e, 2));
    assert(h2.skip(pos + l) =~= h.skip(pos));
    lemma_extensions_local(h2, pos + l, h, pos);
}

/// Where the extensions of the ClientHello in TLS record `data` begin (an
/// offset into `data`), when the hello reaches that far.
pub open spec fn extensions_start(data: Seq<u8>) -> Option<int> {
    if data.len() < 44 || data[0] != 0x16 {
        None
    } else {
        let h = data.skip(5);
        if h[0] != 1 {
            None
        } else {
            let p1 = 38 + 1 + h[38];
            if p1 + 2 > h.len() {
                None
            } else {
                let p2 = p1 + 2 + be16_at(h, p1);
                if p2 + 1 > h.len() {
                    None
                } else {
                    let p3 = p2 + 1 + h[p2];
                    if p3 + 2 > h.len() {
                        None
                    } else {
                        Some(5 + p3 + 2)
                    }
                }
            }
        }
    }
}

/// The server name is found whatever the order of the extensions: a
/// ClientHello with a whole extension of another type before the others
/// (as clients that do not send server_name first build it) asks for the
/// same server name as the hello without it.
pub proof fn lemma_sni_found_past_other_extensions(data: Seq<u8>, e: Seq<u8>, q: int)
    requires
        extensions_start(data) == Some(q),
        other_extension(e),
    ensures
        sni_of(data.take(q) + e + data.skip(q)) == sni_of(data),
{
    let d2 = data.take(q) + e + data.skip(q);
    let h = data.skip(5);
    let h2 = d2.skip(5);
    assert forall|j: int| 0 <= j < q implies #[trigger] d2[j] == data[j] by {}
    assert forall|j: int| 0 <= j < q - 5 implies #[trigger] h2[j] == h[j] by {
        assert(h2[j] == d2[j + 5]);
        assert(h[j] == data[j + 5]);
    }
    assert(h2 =~= h.take(q - 5) + e + h.skip(q - 5));
    lemma_other_extensions_are_skipped(h, q - 5, e);
}

/// The server_name extension that names `name` as its one host name.
pub open spec fn server_name_extension(name: Seq<u8>) -> Seq<u8> {
    let n = name.len();
    seq![
        0u8, 0u8,
        ((n + 5) / 256) as u8, ((n + 5) % 256) as u8,
        ((n + 3) / 256) as u8, ((n + 3) % 256) as u8,
        0u8,
        (n / 256) as u8, (n % 256) as u8,
    ] + name
}

/// A ClientHello whose extensions start with a server_name extension naming
/// a host (valid UTF-8) asks for that host.
pub proof fn lemma_sni_is_the_named_host(data: Seq<u8>, name: Seq<u8>, q: int)
    requires
        extensions_start(data) == Some(q),
        name.len() + 5 < 65536,
        valid_utf8(name),
        q + name.len() + 9 <= data.len(),
        data.subrange(q, q + name.len() + 9) == server_name_extension(name),
    ensures
        sni_of(data) == Some(decode_utf8(name)),
{
    let h = data.skip(5);
    let pos = q - 5;
    let n = name.len() as int;
    let x = server_name_extension(name);
    assert forall|j: int| 0 <= j < n + 9 implies h[pos + j] == #[trigger] x[j] by {
        assert(h[pos + j] == data[q + j]);
        assert(data.subrange(q, q + n + 9)[j] == data[q + j]);
    }
    let head = seq![
        0u8, 0u8,
        ((n + 5) / 256) as u8, ((n + 5) % 256) as u8,
        ((n + 3) / 256) as u8, ((n + 3) % 256) as u8,
        0u8,
        (n / 256) as u8, (n % 256) as u8,
    ];
    assert(x == head + name);
    assert forall|j: int| 0 <= j < 9 implies h[pos + j] == #[trigger] head[j] by {
        assert(x[j] == head[j]);
    }
    assert(h[pos] == head[0] && h[pos + 1] == head[1] && h[pos + 6] == head[6]);
    assert(h[pos + 2] == head[2] && h[pos + 3] == head[3]);
    assert(h[pos + 7] == head[7] && h[pos + 8] == head[8]);
    assert(((n + 5) / 256) * 256 + (n + 5) % 256 == n + 5);
    assert((n / 256) * 256 + n % 256 == n);
    assert(be16_at(h, pos) == 0);
    assert(be16_at(h, pos + 2) == n + 5);
    assert(be16_at(h, pos + 7) == n);
    assert(h[pos + 6] == 0);
    assert(h.subrange(pos + 9, pos + 9 + n) =~= name) by {
        assert forall|j: int| 0 <= j < n implies #[trigger] h.subrange(pos + 9, pos + 9 + n)[j] == name[j] by {
            assert(h[pos + 9 + j] == x[9 + j]);
            assert(x[9 + j] == name[j]);
        }
    }
}

} // verus!
