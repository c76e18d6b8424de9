//! cross233: the verified core of a reverse-proxy tunnel (client, server,
//! wire protocol and the QCP reliable-UDP transport).

pub mod text;
pub mod client;
pub mod protocol;
pub mod qcp;
pub mod server;
