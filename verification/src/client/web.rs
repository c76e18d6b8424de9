//! What the client's status page shows.  Serving it is the application's.

use crate::protocol::msg::Service;
use vstd::prelude::*;

verus! {

/// The client's state as its status page shows it.
#[derive(Debug)]
pub struct WebStateData {
    pub connected: bool,
    pub server_addr: String,
    pub client_id: String,
    pub services: Vec<Service>,
    pub bytes_in: u64,
    pub bytes_out: u64,
    pub tunnels_active: u32,
    pub qcp_port: u16,
    pub qcp_tunnel_port: u16,
    pub transport: String,
    pub active_tunnel_transport: String,
    pub transport_cache_file: String,
}

impl Default for WebStateData {
    fn default() -> (d: WebStateData)
        ensures
            !d.connected,
            d.server_addr@.len() == 0 && d.client_id@.len() == 0,
            d.services@.len() == 0,
            d.bytes_in == 0 && d.bytes_out == 0 && d.tunnels_active == 0,
            d.qcp_port == 0 && d.qcp_tunnel_port == 0,
            d.transport@.len() == 0 && d.active_tunnel_transport@.len() == 0,
            d.transport_cache_file@.len() == 0,
    {
        WebStateData {
            connected: false,
            server_addr: String::new(),
            client_id: String::new(),
            services: Vec::new(),
            bytes_in: 0,
            bytes_out: 0,
            tunnels_active: 0,
            qcp_port: 0,
            qcp_tunnel_port: 0,
            transport: String::new(),
            active_tunnel_transport: String::new(),
            transport_cache_file: String::new(),
        }
    }
}

} // verus!
