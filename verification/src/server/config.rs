//! The server's settings and the addresses its listeners bind.  Reading the
//! configuration file is the application's.

use crate::text::{decimal, decimal_of, extend_chars, push_str, string_from_chars};
use vstd::prelude::*;

verus! {

broadcast use vstd::string::group_string_axioms;

/// The server's settings.
#[derive(Debug)]
pub struct ServerConfig {
    pub bind: String,
    pub proxy_bind: String,
    pub auth_key: String,
    pub auth_key_file: String,
    pub cert_file: String,
    pub key_file: String,
    pub control_port: u16,
    pub web_port: u16,
    pub http_vhost_port: u16,
    pub https_vhost_port: u16,
    /// 0 disables the TCP multiplexer.
    pub tcpmux_port: u16,
    pub qcp_port: u16,
    /// TLS-over-QCP tunnel listener; 0 disables it.
    pub qcp_tunnel_port: u16,
    pub subdomain_host: String,
    pub port_min: u16,
    pub port_max: u16,
    pub max_connections: u32,
    pub handshake_timeout: u32,
    pub web_user: String,
    pub web_password: String,
    pub api_token: String,
}

/// `host:port`.
pub open spec fn host_port(host: Seq<char>, port: u16) -> Seq<char> {
    host + ":"@ + decimal(port as nat)
}

fn join_port(host: &str, port: u16) -> (s: String)
    ensures
        s@ == host_port(host@, port),
{
    let mut c: Vec<char> = Vec::new();
    push_str(&mut c, host);
    push_str(&mut c, ":");
    let d = decimal_of(port as u64);
    extend_chars(&mut c, d.as_slice());
    string_from_chars(c.as_slice())
}

impl Default for ServerConfig {
    fn default() -> (c: ServerConfig)
        ensures
            c.bind@ == "0.0.0.0"@,
            c.proxy_bind@.len() == 0 && c.auth_key@.len() == 0,
            c.auth_key_file@ == "cross233-auth.key"@,
            c.cert_file@ == "cross233-cert.pem"@,
            c.key_file@ == "cross233-key.pem"@,
            c.control_port == 7710 && c.web_port == 7711,
            c.http_vhost_port == 80 && c.https_vhost_port == 443,
            c.tcpmux_port == 0 && c.qcp_port == 7713 && c.qcp_tunnel_port == 0,
            c.subdomain_host@.len() == 0,
            c.port_min == 7712 && c.port_max == 7720,
            c.max_connections == 256 && c.handshake_timeout == 10,
            c.web_user@.len() == 0 && c.web_password@.len() == 0 && c.api_token@.len() == 0,
    {
        ServerConfig {
            bind: "0.0.0.0".to_string(),
            proxy_bind: String::new(),
            auth_key: String::new(),
            auth_key_file: "cross233-auth.key".to_string(),
            cert_file: "cross233-cert.pem".to_string(),
            key_file: "cross233-key.pem".to_string(),
            control_port: 7710,
            web_port: 7711,
            http_vhost_port: 80,
            https_vhost_port: 443,
            tcpmux_port: 0,
            qcp_port: 7713,
            qcp_tunnel_port: 0,
            subdomain_host: String::new(),
            port_min: 7712,
            port_max: 7720,
            max_connections: 256,
            handshake_timeout: 10,
            web_user: String::new(),
            web_password: String::new(),
            api_token: String::new(),
        }
    }
}

impl ServerConfig {
    pub fn control_addr(&self) -> (s: String)
        ensures
            s@ == host_port(self.bind@, self.control_port),
    {
        join_port(self.bind.as_str(), self.control_port)
    }

    pub fn web_addr(&self) -> (s: String)
        ensures
            s@ == host_port(self.bind@, self.web_port),
    {
        join_port(self.bind.as_str(), self.web_port)
    }

    pub fn http_vhost_addr(&self) -> (s: String)
        ensures
            s@ == host_port(self.bind@, self.http_vhost_port),
    {
        join_port(self.bind.as_str(), self.http_vhost_port)
    }

    pub fn https_vhost_addr(&self) -> (s: String)
        ensures
            s@ == host_port(self.bind@, self.https_vhost_port),
    {
        join_port(self.bind.as_str(), self.https_vhost_port)
    }

    /// The multiplexer's address, when it is enabled.
    pub fn tcpmux_addr(&self) -> (s: Option<String>)
        ensures
            self.tcpmux_port == 0 ==> s is None,
            self.tcpmux_port > 0 ==> (s matches Some(a) && a@ == host_port(self.bind@, self.tcpmux_port)),
    {
        if self.tcpmux_port > 0 {
            Some(join_port(self.bind.as_str(), self.tcpmux_port))
        } else {
            None
        }
    }

    pub fn qcp_addr(&self) -> (s: String)
        ensures
            s@ == host_port(self.bind@, self.qcp_port),
    {
        join_port(self.bind.as_str(), self.qcp_port)
    }

    /// The QCP tunnel listener's address, when it is enabled.
    pub fn qcp_tunnel_addr(&self) -> (s: Option<String>)
        ensures
            self.qcp_tunnel_port == 0 ==> s is None,
            self.qcp_tunnel_port > 0 ==> (s matches Some(a) && a@ == host_port(self.bind@, self.qcp_tunnel_port)),
    {
        if self.qcp_tunnel_port == 0 {
            None
        } else {
            Some(join_port(self.bind.as_str(), self.qcp_tunnel_port))
        }
    }
}

/// The configuration file formats, by file extension.
#[derive(Debug, Clone, Copy, PartialEq, Eq, Structural)]
pub enum ConfigFormat {
    Toml,
    Json,
    Yaml,
}

/// The format of a configuration file with extension `ext`, if supported.
pub fn config_format(ext: Option<&str>) -> (f: Option<ConfigFormat>)
    ensures
        f == match ext {
            Some(e) => if e@ == "toml"@ {
                Some(ConfigFormat::Toml)
            } else if e@ == "json"@ {
                Some(ConfigFormat::Json)
            } else if e@ == "yaml"@ || e@ == "yml"@ {
                Some(ConfigFormat::Yaml)
            } else {
                None
            },
            None => None,
        },
{
    match ext {
        Some(e) => {
            if crate::text::str_eq(e, "toml") {
                Some(ConfigFormat::Toml)
            } else if crate::text::str_eq(e, "json") {
                Some(ConfigFormat::Json)
            } else if crate::text::str_eq(e, "yaml") || crate::text::str_eq(e, "yml") {
                Some(ConfigFormat::Yaml)
            } else {
                None
            }
        },
        None => None,
    }
}

} // verus!
