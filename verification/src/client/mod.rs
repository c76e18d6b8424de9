//! The client: its configuration, the choice of transport, and the
//! decisions of its sessions.

pub mod config;
pub mod health_check;
pub mod proxy_protocol;
pub mod qcp;
pub mod session;
pub mod static_files;
pub mod transport;
pub mod web;
