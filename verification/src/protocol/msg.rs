//! The control-channel message and the description of an exposed service.
//!
//! Text fields are compared and specified by their characters; the header
//! maps of a service are lists of name/value pairs.

use crate::text::str_eq;
use vstd::prelude::*;

verus! {

broadcast use vstd::string::group_string_axioms;

/// A service a client exposes through the server.
#[derive(Debug, Clone)]
pub struct Service {
    pub name: String,
    pub ty: Option<String>,
    pub local_addr: String,
    pub remote_port: u16,
    pub host: Option<String>,
    pub subdomain: Option<String>,
    pub route_by_http_user: Option<String>,
    pub locations: Vec<String>,
    pub group: Option<String>,
    pub group_key: Option<String>,
    pub http_user: Option<String>,
    pub http_password: Option<String>,
    pub secret: Option<String>,
    pub bandwidth_limit_kbps: u64,
    pub max_connections: u32,
    pub compression: bool,
    pub proxy_protocol: bool,
    pub proxy_protocol_version: Option<String>,
    pub allow_cidrs: Vec<String>,
    pub deny_cidrs: Vec<String>,
    pub host_header_rewrite: Option<String>,
    pub request_headers: Vec<(String, String)>,
    pub response_headers: Vec<(String, String)>,
    pub health_check: Option<String>,
    pub health_interval: u32,
    pub health_timeout: u32,
    pub health_max_failed: u32,
    pub health_path: Option<String>,
    pub health_headers: Vec<(String, String)>,
    pub annotations: Vec<(String, String)>,
    pub enabled: Option<bool>,
}

/// The characters of an optional string.
pub open spec fn opt_chars(o: Option<String>) -> Option<Seq<char>> {
    match o {
        Some(s) => Some(s@),
        None => None,
    }
}

/// Whether every field of `s` but its name, type, local address and remote
/// port has its empty value.
pub open spec fn service_rest_blank(s: Service) -> bool {
    &&& s.host is None
    &&& s.subdomain is None
    &&& s.route_by_http_user is None
    &&& s.locations@.len() == 0
    &&& s.group is None
    &&& s.group_key is None
    &&& s.http_user is None
    &&& s.http_password is None
    &&& s.secret is None
    &&& s.bandwidth_limit_kbps == 0
    &&& s.max_connections == 0
    &&& !s.compression
    &&& !s.proxy_protocol
    &&& s.proxy_protocol_version is None
    &&& s.allow_cidrs@.len() == 0
    &&& s.deny_cidrs@.len() == 0
    &&& s.host_header_rewrite is None
    &&& s.request_headers@.len() == 0
    &&& s.response_headers@.len() == 0
    &&& s.health_check is None
    &&& s.health_interval == 0
    &&& s.health_timeout == 0
    &&& s.health_max_failed == 0
    &&& s.health_path is None
    &&& s.health_headers@.len() == 0
    &&& s.annotations@.len() == 0
    &&& s.enabled is None
}

/// Whether every field of `s` has its empty value.
pub open spec fn service_is_blank(s: Service) -> bool {
    &&& s.name@.len() == 0
    &&& s.ty is None
    &&& s.local_addr@.len() == 0
    &&& s.remote_port == 0
    &&& service_rest_blank(s)
}

impl Default for Service {
    fn default() -> (s: Service)
        ensures
            service_is_blank(s),
    {
        Service {
            name: String::new(),
            ty: None,
            local_addr: String::new(),
            remote_port: 0,
            host: None,
            subdomain: None,
            route_by_http_user: None,
            locations: Vec::new(),
            group: None,
            group_key: None,
            http_user: None,
            http_password: None,
            secret: None,
            bandwidth_limit_kbps: 0,
            max_connections: 0,
            compression: false,
            proxy_protocol: false,
            proxy_protocol_version: None,
            allow_cidrs: Vec::new(),
            deny_cidrs: Vec::new(),
            host_header_rewrite: None,
            request_headers: Vec::new(),
            response_headers: Vec::new(),
            health_check: None,
            health_interval: 0,
            health_timeout: 0,
            health_max_failed: 0,
            health_path: None,
            health_headers: Vec::new(),
            annotations: Vec::new(),
            enabled: None,
        }
    }
}

/// The type a service declares, `tcp` when it declares none.
pub open spec fn effective_type_of(ty: Option<Seq<char>>) -> Seq<char> {
    match ty {
        Some(t) => t,
        None => "tcp"@,
    }
}

pub open spec fn type_is_vhost(t: Seq<char>) -> bool {
    t == "http"@ || t == "https"@ || t == "tcpmux"@
}

pub open spec fn type_is_private(t: Seq<char>) -> bool {
    t == "stcp"@ || t == "sudp"@
}

pub open spec fn type_is_udp(t: Seq<char>) -> bool {
    t == "udp"@ || t == "sudp"@
}

pub open spec fn type_is_tcp(t: Seq<char>) -> bool {
    ||| t == ""@
    ||| t == "tcp"@
    ||| t == "static"@
    ||| t == "http"@
    ||| t == "https"@
    ||| t == "tcpmux"@
    ||| t == "stcp"@
    ||| t == "qcp"@
}

/// The types whose public port the server picks when none is given.
pub open spec fn type_takes_auto_port(t: Seq<char>) -> bool {
    ||| t == ""@
    ||| t == "tcp"@
    ||| t == "static"@
    ||| t == "udp"@
    ||| t == "qcp"@
}

impl Service {
    pub open spec fn spec_type(&self) -> Seq<char> {
        effective_type_of(opt_chars(self.ty))
    }

    /// The declared type, `tcp` by default.
    pub fn effective_type(&self) -> (t: &str)
        ensures
            t@ == self.spec_type(),
    {
        match &self.ty {
            Some(t) => t.as_str(),
            None => "tcp",
        }
    }

    /// HTTP, HTTPS and TCP-multiplexed services are routed by name.
    pub fn is_vhost(&self) -> (b: bool)
        ensures
            b == type_is_vhost(self.spec_type()),
    {
        let t = self.effective_type();
        str_eq(t, "http") || str_eq(t, "https") || str_eq(t, "tcpmux")
    }

    /// Secret services are reached only through a visitor.
    pub fn is_private(&self) -> (b: bool)
        ensures
            b == type_is_private(self.spec_type()),
    {
        let t = self.effective_type();
        str_eq(t, "stcp") || str_eq(t, "sudp")
    }

    pub fn is_udp(&self) -> (b: bool)
        ensures
            b == type_is_udp(self.spec_type()),
    {
        let t = self.effective_type();
        str_eq(t, "udp") || str_eq(t, "sudp")
    }

    pub fn is_tcp(&self) -> (b: bool)
        ensures
            b == type_is_tcp(self.spec_type()),
    {
        let t = self.effective_type();
        str_eq(t, "") || str_eq(t, "tcp") || str_eq(t, "static") || str_eq(t, "http") || str_eq(
            t,
            "https",
        ) || str_eq(t, "tcpmux") || str_eq(t, "stcp") || str_eq(t, "qcp")
    }

    pub fn is_qcp(&self) -> (b: bool)
        ensures
            b == (self.spec_type() == "qcp"@),
    {
        str_eq(self.effective_type(), "qcp")
    }

    /// Whether the server assigns the public port: none was asked for and the
    /// type listens on a plain port.
    pub fn uses_auto_port(&self) -> (b: bool)
        ensures
            b == (self.remote_port == 0 && type_takes_auto_port(self.spec_type())),
    {
        if self.remote_port != 0 {
            return false;
        }
        let t = self.effective_type();
        str_eq(t, "") || str_eq(t, "tcp") || str_eq(t, "static") || str_eq(t, "udp") || str_eq(
            t,
            "qcp",
        )
    }

    /// A service is enabled unless it says otherwise.
    pub fn is_enabled(&self) -> (b: bool)
        ensures
            b == (match self.enabled {
                Some(e) => e,
                None => true,
            }),
    {
        match self.enabled {
            Some(e) => e,
            None => true,
        }
    }
}

/// A control-channel message; `ty` names its kind and the fields it uses.
#[derive(Debug, Clone)]
pub struct Message {
    pub ty: String,
    pub client_id: Option<String>,
    pub id: Option<String>,
    pub nonce: Option<String>,
    pub proof: Option<String>,
    pub error: Option<String>,
    pub service_name: Option<String>,
    pub address: Option<String>,
    pub local_address: Option<String>,
    pub remote_port: Option<u16>,
    pub healthy: Option<bool>,
    pub qcp_port: Option<u16>,
    pub qcp_tunnel_port: Option<u16>,
    pub services: Vec<Service>,
    pub service: Option<Service>,
    pub data: Option<Vec<u8>>,
}

pub struct MessageView {
    pub ty: Seq<char>,
    pub client_id: Option<Seq<char>>,
    pub id: Option<Seq<char>>,
    pub nonce: Option<Seq<char>>,
    pub proof: Option<Seq<char>>,
    pub error: Option<Seq<char>>,
    pub service_name: Option<Seq<char>>,
    pub address: Option<Seq<char>>,
    pub local_address: Option<Seq<char>>,
    pub remote_port: Option<u16>,
    pub healthy: Option<bool>,
    pub qcp_port: Option<u16>,
    pub qcp_tunnel_port: Option<u16>,
    pub services: Seq<Service>,
    pub service: Option<Service>,
    pub data: Option<Seq<u8>>,
}

impl View for Message {
    type V = MessageView;

    open spec fn view(&self) -> MessageView {
        MessageView {
            ty: self.ty@,
            client_id: opt_chars(self.client_id),
            id: opt_chars(self.id),
            nonce: opt_chars(self.nonce),
            proof: opt_chars(self.proof),
            error: opt_chars(self.error),
            service_name: opt_chars(self.service_name),
            address: opt_chars(self.address),
            local_address: opt_chars(self.local_address),
            remote_port: self.remote_port,
            healthy: self.healthy,
            qcp_port: self.qcp_port,
            qcp_tunnel_port: self.qcp_tunnel_port,
            services: self.services@,
            service: self.service,
            data: match self.data {
                Some(d) => Some(d@),
                None => None,
            },
        }
    }
}

/// A message of kind `ty` with every other field empty.
pub open spec fn blank_message(ty: Seq<char>) -> MessageView {
    MessageView {
        ty,
        client_id: None,
        id: None,
        nonce: None,
        proof: None,
        error: None,
        service_name: None,
        address: None,
        local_address: None,
        remote_port: None,
        healthy: None,
        qcp_port: None,
        qcp_tunnel_port: None,
        services: Seq::empty(),
        service: None,
        data: None,
    }
}

fn blank(ty: &str) -> (m: Message)
    ensures
        m@ == blank_message(ty@),
{
    Message {
        ty: ty.to_string(),
        client_id: None,
        id: None,
        nonce: None,
        proof: None,
        error: None,
        service_name: None,
        address: None,
        local_address: None,
        remote_port: None,
        healthy: None,
        qcp_port: None,
        qcp_tunnel_port: None,
        services: Vec::new(),
        service: None,
        data: None,
    }
}

impl Default for Message {
    fn default() -> (m: Message)
        ensures
            m@ == blank_message(Seq::empty()),
    {
        proof {
            reveal_strlit("");
            assert(""@ =~= Seq::<char>::empty());
        }
        blank("")
    }
}

impl Message {
    /// The first message of a client's control connection.
    pub fn new_client_hello(client_id: &str, services: Vec<Service>) -> (m: Message)
        ensures
            m@ == (MessageView {
                client_id: Some(client_id@),
                services: services@,
                ..blank_message("client"@)
            }),
    {
        let mut m = blank("client");
        m.client_id = Some(client_id.to_string());
        m.services = services;
        m
    }

    /// The first message of a tunnel connection for request `id`.
    pub fn new_tunnel_hello(id: &str) -> (m: Message)
        ensures
            m@ == (MessageView { id: Some(id@), ..blank_message("tunnel"@) }),
    {
        let mut m = blank("tunnel");
        m.id = Some(id.to_string());
        m
    }

    /// The first message of a visitor connection to a secret service.
    pub fn new_visitor_hello(client_id: &str, service_name: &str, id: Option<&str>) -> (m: Message)
        ensures
            m@ == (MessageView {
                client_id: Some(client_id@),
                service_name: Some(service_name@),
                id: match id {
                    Some(i) => Some(i@),
                    None => None,
                },
                ..blank_message("visitor"@)
            }),
    {
        let mut m = blank("visitor");
        m.client_id = Some(client_id.to_string());
        m.service_name = Some(service_name.to_string());
        m.id = match id {
            Some(i) => Some(i.to_string()),
            None => None,
        };
        m
    }

    pub fn new_challenge(nonce: &str) -> (m: Message)
        ensures
            m@ == (MessageView { nonce: Some(nonce@), ..blank_message("challenge"@) }),
    {
        let mut m = blank("challenge");
        m.nonce = Some(nonce.to_string());
        m
    }

    pub fn new_auth(proof: &str) -> (m: Message)
        ensures
            m@ == (MessageView { proof: Some(proof@), ..blank_message("auth"@) }),
    {
        let mut m = blank("auth");
        m.proof = Some(proof.to_string());
        m
    }

    pub fn new_ready(services: Vec<Service>, qcp_port: u16, qcp_tunnel_port: u16) -> (m: Message)
        ensures
            m@ == (MessageView {
                services: services@,
                qcp_port: Some(qcp_port),
                qcp_tunnel_port: Some(qcp_tunnel_port),
                ..blank_message("ready"@)
            }),
    {
        let mut m = blank("ready");
        m.services = services;
        m.qcp_port = Some(qcp_port);
        m.qcp_tunnel_port = Some(qcp_tunnel_port);
        m
    }

    pub fn new_error(msg: &str) -> (m: Message)
        ensures
            m@ == (MessageView { error: Some(msg@), ..blank_message("error"@) }),
    {
        let mut m = blank("error");
        m.error = Some(msg.to_string());
        m
    }

    /// Asks the client to open tunnel `id` for a connection from `address`
    /// to its service's `local_address`.
    pub fn new_open(id: &str, address: &str, local_address: &str, service: Service) -> (m: Message)
        ensures
            m@ == (MessageView {
                id: Some(id@),
                address: Some(address@),
                local_address: Some(local_address@),
                service: Some(service),
                ..blank_message("open"@)
            }),
    {
        let mut m = blank("open");
        m.id = Some(id.to_string());
        m.address = Some(address.to_string());
        m.local_address = Some(local_address.to_string());
        m.service = Some(service);
        m
    }

    pub fn new_reject(id: &str, err: &str) -> (m: Message)
        ensures
            m@ == (MessageView { id: Some(id@), error: Some(err@), ..blank_message("reject"@) }),
    {
        let mut m = blank("reject");
        m.id = Some(id.to_string());
        m.error = Some(err.to_string());
        m
    }

    pub fn new_ping() -> (m: Message)
        ensures
            m@ == blank_message("ping"@),
    {
        blank("ping")
    }

    pub fn new_pong() -> (m: Message)
        ensures
            m@ == blank_message("pong"@),
    {
        blank("pong")
    }

    /// A datagram for a UDP service, from `address` to public port
    /// `remote_port`.
    pub fn new_udp(remote_port: u16, address: &str, data: Vec<u8>, service: Service) -> (m: Message)
        ensures
            m@ == (MessageView {
                remote_port: Some(remote_port),
                address: Some(address@),
                data: Some(data@),
                service: Some(service),
                ..blank_message("udp"@)
            }),
    {
        let mut m = blank("udp");
        m.remote_port = Some(remote_port);
        m.address = Some(address.to_string());
        m.data = Some(data);
        m.service = Some(service);
        m
    }

    pub fn new_udp_response(remote_port: u16, address: &str, data: Vec<u8>) -> (m: Message)
        ensures
            m@ == (MessageView {
                remote_port: Some(remote_port),
                address: Some(address@),
                data: Some(data@),
                ..blank_message("udp_response"@)
            }),
    {
        let mut m = blank("udp_response");
        m.remote_port = Some(remote_port);
        m.address = Some(address.to_string());
        m.data = Some(data);
        m
    }

    pub fn new_visitor_udp(id: &str, data: Vec<u8>) -> (m: Message)
        ensures
            m@ == (MessageView { id: Some(id@), data: Some(data@), ..blank_message("visitor_udp"@) }),
    {
        let mut m = blank("visitor_udp");
        m.id = Some(id.to_string());
        m.data = Some(data);
        m
    }

    pub fn new_visitor_udp_response(id: &str, data: Vec<u8>) -> (m: Message)
        ensures
            m@ == (MessageView {
                id: Some(id@),
                data: Some(data@),
                ..blank_message("visitor_udp_response"@)
            }),
    {
        let mut m = blank("visitor_udp_response");
        m.id = Some(id.to_string());
        m.data = Some(data);
        m
    }

    pub fn new_health(service_name: &str, healthy: bool) -> (m: Message)
        ensures
            m@ == (MessageView {
                service_name: Some(service_name@),
                healthy: Some(healthy),
                ..blank_message("health"@)
            }),
    {
        let mut m = blank("health");
        m.service_name = Some(service_name.to_string());
        m.healthy = Some(healthy);
        m
    }

    pub fn new_close(reason: &str) -> (m: Message)
        ensures
            m@ == (MessageView { error: Some(reason@), ..blank_message("close"@) }),
    {
        let mut m = blank("close");
        m.error = Some(reason.to_string());
        m
    }
}

/// The characters of each string.
pub open spec fn strs(v: Seq<String>) -> Seq<Seq<char>> {
    v.map_values(|x: String| x@)
}

/// The characters of each name/value pair.
pub open spec fn pairs(v: Seq<(String, String)>) -> Seq<(Seq<char>, Seq<char>)> {
    v.map_values(|x: (String, String)| (x.0@, x.1@))
}

/// Whether two services hold the same values, field by field.
pub open spec fn same_service(a: Service, b: Service) -> bool {
    &&& a.name@ == b.name@
    &&& opt_chars(a.ty) == opt_chars(b.ty)
    &&& a.local_addr@ == b.local_addr@
    &&& a.remote_port == b.remote_port
    &&& opt_chars(a.host) == opt_chars(b.host)
    &&& opt_chars(a.subdomain) == opt_chars(b.subdomain)
    &&& opt_chars(a.route_by_http_user) == opt_chars(b.route_by_http_user)
    &&& strs(a.locations@) == strs(b.locations@)
    &&& opt_chars(a.group) == opt_chars(b.group)
    &&& opt_chars(a.group_key) == opt_chars(b.group_key)
    &&& opt_chars(a.http_user) == opt_chars(b.http_user)
    &&& opt_chars(a.http_password) == opt_chars(b.http_password)
    &&& opt_chars(a.secret) == opt_chars(b.secret)
    &&& a.bandwidth_limit_kbps == b.bandwidth_limit_kbps
    &&& a.max_connections == b.max_connections
    &&& a.compression == b.compression
    &&& a.proxy_protocol == b.proxy_protocol
    &&& opt_chars(a.proxy_protocol_version) == opt_chars(b.proxy_protocol_version)
    &&& strs(a.allow_cidrs@) == strs(b.allow_cidrs@)
    &&& strs(a.deny_cidrs@) == strs(b.deny_cidrs@)
    &&& opt_chars(a.host_header_rewrite) == opt_chars(b.host_header_rewrite)
    &&& pairs(a.request_headers@) == pairs(b.request_headers@)
    &&& pairs(a.response_headers@) == pairs(b.response_headers@)
    &&& opt_chars(a.health_check) == opt_chars(b.health_check)
    &&& a.health_interval == b.health_interval
    &&& a.health_timeout == b.health_timeout
    &&& a.health_max_failed == b.health_max_failed
    &&& opt_chars(a.health_path) == opt_chars(b.health_path)
    &&& pairs(a.health_headers@) == pairs(b.health_headers@)
    &&& pairs(a.annotations@) == pairs(b.annotations@)
    &&& a.enabled == b.enabled
}

pub fn copy_opt(o: &Option<String>) -> (r: Option<String>)
    ensures
        opt_chars(r) == opt_chars(*o),
{
    match o {
        Some(s) => Some(s.clone()),
        None => None,
    }
}

pub fn copy_strings(v: &Vec<String>) -> (r: Vec<String>)
    ensures
        strs(r@) == strs(v@),
{
    let mut r: Vec<String> = Vec::new();
    let mut i: usize = 0;
    while i < v.len()
        invariant
            0 <= i <= v@.len(),
            strs(r@) == strs(v@.take(i as int)),
        decreases v@.len() - i,
    {
        let c = v[i].clone();
        let ghost r0 = r@;
        r.push(c);
        proof {
            assert(v@.take(i + 1) == v@.take(i as int).push(v@[i as int]));
            assert(r@ == r0.push(c));
            assert(strs(r@) =~= strs(r0).push(c@));
            assert(strs(v@.take(i + 1)) =~= strs(v@.take(i as int)).push(v@[i as int]@));
        }
        i = i + 1;
    }
    proof {
        assert(v@.take(v@.len() as int) == v@);
    }
    r
}

pub fn copy_pairs(v: &Vec<(String, String)>) -> (r: Vec<(String, String)>)
    ensures
        pairs(r@) == pairs(v@),
{
    let mut r: Vec<(String, String)> = Vec::new();
    let mut i: usize = 0;
    while i < v.len()
        invariant
            0 <= i <= v@.len(),
            pairs(r@) == pairs(v@.take(i as int)),
        decreases v@.len() - i,
    {
        let c = (v[i].0.clone(), v[i].1.clone());
        let ghost r0 = r@;
        r.push(c);
        proof {
            assert(v@.take(i + 1) == v@.take(i as int).push(v@[i as int]));
            assert(r@ == r0.push(c));
            assert(pairs(r@) =~= pairs(r0).push((c.0@, c.1@)));
            assert(pairs(v@.take(i + 1)) =~= pairs(v@.take(i as int)).push(
                (v@[i as int].0@, v@[i as int].1@),
            ));
        }
        i = i + 1;
    }
    proof {
        assert(v@.take(v@.len() as int) == v@);
    }
    r
}

/// A copy of `s`, field by field.
pub fn copy_service(s: &Service) -> (r: Service)
    ensures
        same_service(r, *s),
{
    Service {
        name: s.name.clone(),
        ty: copy_opt(&s.ty),
        local_addr: s.local_addr.clone(),
        remote_port: s.remote_port,
        host: copy_opt(&s.host),
        subdomain: copy_opt(&s.subdomain),
        route_by_http_user: copy_opt(&s.route_by_http_user),
        locations: copy_strings(&s.locations),
        group: copy_opt(&s.group),
        group_key: copy_opt(&s.group_key),
        http_user: copy_opt(&s.http_user),
        http_password: copy_opt(&s.http_password),
        secret: copy_opt(&s.secret),
        bandwidth_limit_kbps: s.bandwidth_limit_kbps,
        max_connections: s.max_connections,
        compression: s.compression,
        proxy_protocol: s.proxy_protocol,
        proxy_protocol_version: copy_opt(&s.proxy_protocol_version),
        allow_cidrs: copy_strings(&s.allow_cidrs),
        deny_cidrs: copy_strings(&s.deny_cidrs),
        host_header_rewrite: copy_opt(&s.host_header_rewrite),
        request_headers: copy_pairs(&s.request_headers),
        response_headers: copy_pairs(&s.response_headers),
        health_check: copy_opt(&s.health_check),
        health_interval: s.health_interval,
        health_timeout: s.health_timeout,
        health_max_failed: s.health_max_failed,
        health_path: copy_opt(&s.health_path),
        health_headers: copy_pairs(&s.health_headers),
        annotations: copy_pairs(&s.annotations),
        enabled: s.enabled,
    }
}

} // verus!
