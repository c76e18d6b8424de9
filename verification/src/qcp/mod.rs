//! QCP: a message-oriented reliable-UDP transport.
//!
//! `wire` is the packet format, `buf` the byte buffers it is written into,
//! `link` the per-connection state machine (fragmentation, reassembly,
//! acknowledgement, congestion window, liveness) and `stream` the buffering
//! of the byte-stream adapter.  Sockets, timers and tasks are driven by the
//! application, which feeds events to these functions and performs the
//! actions they return.

pub mod buf;
pub mod error;
pub mod exchange;
pub mod laws;
pub mod link;
pub mod stream;
pub mod wire;
