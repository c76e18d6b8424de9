//! Errors of the QCP transport.

use vstd::prelude::*;

verus! {

/// Why a QCP operation failed.
#[derive(Debug, PartialEq, Eq)]
pub enum QcpError {
    /// A socket error, with its message.
    Io(String),
    /// Nothing arrived within the wait.
    Timeout,
    /// The connection was closed.
    Closed,
    /// The handshake did not complete.
    Handshake(String),
    /// A message longer than the transport carries: its length and the limit.
    TooLarge(usize, usize),
    /// The link was declared dead, with the reason.
    ConnectionFailed(String),
}

} // verus!
