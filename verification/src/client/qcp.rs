//! Where a client dials QCP tunnels: the host of its server address, at the
//! QCP tunnel port the server announced.  Name resolution and dialing are
//! the application's.

use crate::text::{chars_of, find_char, first_index, last_index, push_str, rfind_char, string_from_chars, sub_string};
use vstd::prelude::*;

verus! {

broadcast use vstd::string::group_string_axioms;

/// Why a server address gives no host to dial.
#[derive(Debug, PartialEq, Eq, Structural)]
pub enum AddressError {
    /// The server announced no QCP tunnel port.
    TunnelDisabled,
    /// `[` without a matching `]`.
    BadBracket,
    /// No `:port` after the host.
    NoPort,
    /// An empty host or port.
    Invalid,
}

impl AddressError {
    pub open spec fn spec_message(self, addr: Seq<char>) -> Seq<char> {
        match self {
            AddressError::TunnelDisabled => "QCP tunnel transport is disabled by the server"@,
            AddressError::BadBracket => "invalid bracketed server address: "@ + addr,
            AddressError::NoPort => "server address must include a port: "@ + addr,
            AddressError::Invalid => "invalid server address: "@ + addr,
        }
    }

    /// The error's text for server address `addr`.
    pub fn message(&self, addr: &str) -> (m: String)
        ensures
            m@ == self.spec_message(addr@),
    {
        let mut c: Vec<char> = Vec::new();
        match self {
            AddressError::TunnelDisabled => {
                push_str(&mut c, "QCP tunnel transport is disabled by the server");
            },
            AddressError::BadBracket => {
                push_str(&mut c, "invalid bracketed server address: ");
                push_str(&mut c, addr);
            },
            AddressError::NoPort => {
                push_str(&mut c, "server address must include a port: ");
                push_str(&mut c, addr);
            },
            AddressError::Invalid => {
                push_str(&mut c, "invalid server address: ");
                push_str(&mut c, addr);
            },
        }
        string_from_chars(c.as_slice())
    }
}

/// The host of `host:port` or `[host]:port`.
pub open spec fn host_of(a: Seq<char>) -> Result<Seq<char>, AddressError> {
    if a.len() > 0 && a[0] == '[' {
        let rest = a.drop_first();
        match first_index(rest, ']') {
            None => Err(AddressError::BadBracket),
            Some(e) => if e + 1 < rest.len() && rest[e + 1int] == ':' {
                Ok(rest.take(e as int))
            } else {
                Err(AddressError::NoPort)
            },
        }
    } else {
        match last_index(a, ':') {
            None => Err(AddressError::NoPort),
            Some(i) => if i == 0 || i + 1 == a.len() {
                Err(AddressError::Invalid)
            } else {
                Ok(a.take(i as int))
            },
        }
    }
}

/// The host of a server address `host:port` or `[ipv6]:port`.
pub fn server_host(server_addr: &str) -> (r: Result<String, AddressError>)
    ensures
        match host_of(server_addr@) {
            Ok(h) => r matches Ok(s) && s@ == h,
            Err(e) => r == Err::<String, AddressError>(e),
        },
{
    let c = chars_of(server_addr);
    let n = c.len();
    if n > 0 && c[0] == '[' {
        proof {
            assert(c@.subrange(1, n as int) == c@.drop_first());
        }
        match find_char(c.as_slice(), 1, n, ']') {
            None => Err(AddressError::BadBracket),
            Some(e) => {
                if 1 + e + 1 < n && c[1 + e + 1] == ':' {
                    proof {
                        assert(c@.subrange(1, 1 + e) == c@.drop_first().take(e as int));
                    }
                    Ok(sub_string(c.as_slice(), 1, 1 + e))
                } else {
                    Err(AddressError::NoPort)
                }
            },
        }
    } else {
        proof {
            assert(c@.subrange(0, n as int) == c@);
        }
        match rfind_char(c.as_slice(), 0, n, ':') {
            None => Err(AddressError::NoPort),
            Some(i) => {
                if i == 0 || i + 1 == n {
                    Err(AddressError::Invalid)
                } else {
                    proof {
                        assert(c@.subrange(0, i as int) == c@.take(i as int));
                    }
                    Ok(sub_string(c.as_slice(), 0, i))
                }
            },
        }
    }
}

/// The host to resolve for a QCP tunnel, or why there is none.
pub fn tunnel_host(server_addr: &str, qcp_tunnel_port: u16) -> (r: Result<String, AddressError>)
    ensures
        qcp_tunnel_port == 0 ==> r == Err::<String, AddressError>(AddressError::TunnelDisabled),
        qcp_tunnel_port != 0 ==> match host_of(server_addr@) {
            Ok(h) => r matches Ok(s) && s@ == h,
            Err(e) => r == Err::<String, AddressError>(e),
        },
{
    if qcp_tunnel_port == 0 {
        return Err(AddressError::TunnelDisabled);
    }
    server_host(server_addr)
}

} // verus!
