//! The server: its configuration, its key, the routing of virtual hosts and
//! the registry of services.

pub mod api_access;
pub mod auth;
pub mod config;
pub mod control;
pub mod crypto;
pub mod headers;
pub mod http_vhost;
pub mod https_vhost;
pub mod metrics;
pub mod proxy_protocol;
pub mod qcp_front;
pub mod registry_laws;
pub mod registry_spec;
pub mod service;
pub mod tcpmux;
pub mod udp;
pub mod web;
