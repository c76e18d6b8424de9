//! Socket addresses as plain values: the address octets, the port, and the
//! address's text (as the platform writes it, supplied by the caller).

use vstd::prelude::*;

verus! {

/// An IP address by its octets, most significant first.
#[derive(Debug, Clone, Copy, PartialEq, Eq)]
pub enum IpAddress {
    V4([u8; 4]),
    V6([u8; 16]),
}

/// An IP address and port.
#[derive(Debug, Clone, Copy, PartialEq, Eq)]
pub struct SocketAddress {
    pub ip: IpAddress,
    pub port: u16,
}

impl SocketAddress {
    pub open spec fn is_v4(self) -> bool {
        self.ip is V4
    }

    /// The address octets.
    pub open spec fn octets(self) -> Seq<u8> {
        match self.ip {
            IpAddress::V4(o) => o@,
            IpAddress::V6(o) => o@,
        }
    }
}

/// The big-endian bytes of a port.
pub open spec fn port_bytes(p: u16) -> Seq<u8> {
    seq![(p / 256) as u8, (p % 256) as u8]
}

/// Appends the octets of `a`.
pub fn push_octets(buf: &mut Vec<u8>, a: &SocketAddress)
    ensures
        final(buf)@ == old(buf)@ + a.octets(),
{
    match &a.ip {
        IpAddress::V4(o) => crate::text::extend_bytes(buf, o.as_slice()),
        IpAddress::V6(o) => crate::text::extend_bytes(buf, o.as_slice()),
    }
}

/// Appends the big-endian bytes of `p`.
pub fn push_port(buf: &mut Vec<u8>, p: u16)
    ensures
        final(buf)@ == old(buf)@ + port_bytes(p),
{
    buf.push((p / 256) as u8);
    buf.push((p % 256) as u8);
    proof {
        assert(buf@ =~= old(buf)@ + port_bytes(p));
    }
}

/// The octets of an IP address.
pub open spec fn ip_octets(ip: IpAddress) -> Seq<u8> {
    match ip {
        IpAddress::V4(o) => o@,
        IpAddress::V6(o) => o@,
    }
}

/// What `IpNet::from_str` of the `ipnet` crate makes of `text`: the octets
/// of the address as written and the prefix length, or `None` when `text`
/// is no network in CIDR notation.
pub uninterp spec fn parsed_net(text: Seq<char>) -> Option<(Seq<u8>, u8)>;

/// Parses `text` with `IpNet::from_str` of the `ipnet` crate.  Its source
/// reads an IPv4 network with a prefix below 33 and an IPv6 network with a
/// prefix below 129; the contract names the result and states those bounds.
#[verifier::external_body]
fn parse_net(text: &str) -> (r: Option<(Vec<u8>, u8)>)
    ensures
        match r {
            Some(n) => {
                &&& parsed_net(text@) == Some((n.0@, n.1))
                &&& (n.0@.len() == 4 && n.1 <= 32) || (n.0@.len() == 16 && n.1 <= 128)
            },
            None => parsed_net(text@) is None,
        },
{
    match text.parse::<ipnet::IpNet>() {
        Ok(ipnet::IpNet::V4(n)) => Some((n.addr().octets().to_vec(), n.prefix_len())),
        Ok(ipnet::IpNet::V6(n)) => Some((n.addr().octets().to_vec(), n.prefix_len())),
        Err(_) => None,
    }
}

/// The mask of a byte of which the first `k` bits belong to the prefix.
pub open spec fn byte_mask(k: int) -> u8 {
    if k >= 8 {
        0xffu8
    } else if k <= 0 {
        0u8
    } else {
        (0xffu8 << ((8 - k) as u8)) as u8
    }
}

/// Whether `ip` lies in the network of address `net` and prefix length
/// `prefix`: both have the same length and agree on the first `prefix`
/// bits (the address under the network mask).
pub open spec fn in_network(net: Seq<u8>, prefix: int, ip: Seq<u8>) -> bool {
    &&& net.len() == ip.len()
    &&& forall|i: int|
        0 <= i < net.len() ==> #[trigger] (net[i] & byte_mask(prefix - 8 * i)) == (ip[i] & byte_mask(
            prefix - 8 * i,
        ))
}

/// Whether `ip` lies in the network `text` names (`false` when `text` names
/// none).
pub open spec fn cidr_match(text: Seq<char>, ip: IpAddress) -> bool {
    match parsed_net(text) {
        Some(n) => in_network(n.0, n.1 as int, ip_octets(ip)),
        None => false,
    }
}

fn mask_of(k: i64) -> (m: u8)
    ensures
        m == byte_mask(k as int),
{
    if k >= 8 {
        0xffu8
    } else if k <= 0 {
        0u8
    } else {
        0xffu8 << ((8 - k) as u8)
    }
}

fn network_contains(net: &[u8], prefix: u8, ip: &[u8]) -> (b: bool)
    requires
        net@.len() <= 16,
    ensures
        b == in_network(net@, prefix as int, ip@),
{
    if net.len() != ip.len() {
        return false;
    }
    let mut i: usize = 0;
    while i < net.len()
        invariant
            0 <= i <= net@.len(),
            net@.len() <= 16,
            net@.len() == ip@.len(),
            forall|j: int|
                0 <= j < i ==> #[trigger] (net@[j] & byte_mask(prefix - 8 * j)) == (ip@[j] & byte_mask(
                    prefix - 8 * j,
                )),
        decreases net@.len() - i,
    {
        let m = mask_of(prefix as i64 - 8 * (i as i64));
        if net[i] & m != ip[i] & m {
            return false;
        }
        i = i + 1;
    }
    true
}

/// Whether `ip` lies in one of the networks `cidrs` (entries that are no
/// network in CIDR notation are skipped).
pub fn cidr_contains(cidrs: &[String], ip: IpAddress) -> (b: bool)
    ensures
        b == exists|i: int| 0 <= i < cidrs@.len() && cidr_match(#[trigger] cidrs@[i]@, ip),
{
    let mut octets: Vec<u8> = Vec::new();
    match &ip {
        IpAddress::V4(o) => crate::text::extend_bytes(&mut octets, o.as_slice()),
        IpAddress::V6(o) => crate::text::extend_bytes(&mut octets, o.as_slice()),
    }
    assert(octets@ =~= ip_octets(ip));
    let mut i: usize = 0;
    while i < cidrs.len()
        invariant
            0 <= i <= cidrs@.len(),
            octets@ == ip_octets(ip),
            forall|j: int| 0 <= j < i ==> !cidr_match(#[trigger] cidrs@[j]@, ip),
        decreases cidrs@.len() - i,
    {
        match parse_net(cidrs[i].as_str()) {
            Some(n) => {
                if network_contains(n.0.as_slice(), n.1, octets.as_slice()) {
                    assert(cidr_match(cidrs@[i as int]@, ip));
                    return true;
                }
            },
            None => {},
        }
        i = i + 1;
    }
    false
}

} // verus!
