//! The public QCP front end: a visitor names a `qcp` service (and gives its
//! secret, when it has one) before its stream is relayed to the client.
//! Reading, writing and relaying are the application's.

use super::service::ServiceEntry;
use crate::text::str_eq;
use vstd::prelude::*;

verus! {

broadcast use vstd::string::group_string_axioms;

/// Service names and secrets may be at most this many bytes long.
pub const MAX_NAME_BYTES: u16 = 256;

/// Whether a service name of `len` bytes is accepted.
pub fn name_length_ok(len: u16) -> (b: bool)
    ensures
        b == (0 < len && len <= MAX_NAME_BYTES),
{
    0 < len && len <= MAX_NAME_BYTES
}

/// Whether a secret of `len` bytes is accepted.
pub fn secret_length_ok(len: u16) -> (b: bool)
    ensures
        b == (len <= MAX_NAME_BYTES),
{
    len <= MAX_NAME_BYTES
}

/// Why a public QCP visitor is turned away.
#[derive(Debug, Clone, Copy, PartialEq, Eq, Structural)]
pub enum QcpRefusal {
    NotFound,
    NotQcp,
    Unavailable,
}

impl QcpRefusal {
    pub fn message(self) -> (m: &'static str)
        ensures
            m@ == (match self {
                QcpRefusal::NotFound => "service not found"@,
                QcpRefusal::NotQcp => "service is not configured for public QCP"@,
                QcpRefusal::Unavailable => "service not available"@,
            }),
    {
        match self {
            QcpRefusal::NotFound => "service not found",
            QcpRefusal::NotQcp => "service is not configured for public QCP",
            QcpRefusal::Unavailable => "service not available",
        }
    }
}

/// Whether the named service takes public QCP visitors: it must exist, be
/// of type `qcp`, and be enabled and healthy.  When it does, whether the
/// visitor must give its secret.
pub fn admit_visitor(entry: Option<&ServiceEntry>) -> (r: Result<bool, QcpRefusal>)
    ensures
        match entry {
            None => r == Err::<bool, QcpRefusal>(QcpRefusal::NotFound),
            Some(e) => if e.config.spec_type() != "qcp"@ {
                r == Err::<bool, QcpRefusal>(QcpRefusal::NotQcp)
            } else if !(e.enabled && e.healthy) {
                r == Err::<bool, QcpRefusal>(QcpRefusal::Unavailable)
            } else {
                r == Ok::<bool, QcpRefusal>(e.config.secret is Some)
            },
        },
{
    match entry {
        None => Err(QcpRefusal::NotFound),
        Some(e) => {
            if !e.config.is_qcp() {
                Err(QcpRefusal::NotQcp)
            } else if !(e.enabled && e.healthy) {
                Err(QcpRefusal::Unavailable)
            } else {
                Ok(e.config.secret.is_some())
            }
        },
    }
}

/// The three bytes that answer a visitor: `00 01 00` when it may go on,
/// `00 01 01` when its secret is wrong.
pub fn visitor_reply(accepted: bool) -> (b: [u8; 3])
    ensures
        b@ == (if accepted { seq![0u8, 1u8, 0u8] } else { seq![0u8, 1u8, 1u8] }),
{
    if accepted {
        let r = [0u8, 1u8, 0u8];
        proof {
            assert(r@ =~= seq![0u8, 1u8, 0u8]);
        }
        r
    } else {
        let r = [0u8, 1u8, 1u8];
        proof {
            assert(r@ =~= seq![0u8, 1u8, 1u8]);
        }
        r
    }
}

/// Whether the secret a visitor gave is the service's.
pub fn secret_accepted(entry: &ServiceEntry, provided: &str) -> (b: bool)
    ensures
        b == (match entry.config.secret {
            Some(s) => s@ == provided@,
            None => true,
        }),
{
    match &entry.config.secret {
        Some(s) => str_eq(s.as_str(), provided),
        None => true,
    }
}

} // verus!
