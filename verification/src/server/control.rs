//! The decisions of the server's control connections: what a first message
//! opens, the client's authentication, which listeners a registered service
//! needs, what each message of a running session asks for, and the tunnel
//! and visitor handshakes.  Reading, writing and waiting are the
//! application's.

use crate::protocol::msg::{opt_chars, Message, MessageView, Service};
use crate::text::{push_str, str_eq, string_from_chars};
use vstd::prelude::*;

verus! {

broadcast use vstd::string::group_string_axioms;

/// The first line of a connection may hold at most this many bytes.
pub const MAX_INITIAL_MESSAGE_BYTES: usize = 16384;

/// A session that has been silent this long (ms) is closed.
pub const CONTROL_IDLE_LIMIT_MS: u64 = 60_000;

/// What a connection is, by its first message.
#[derive(Debug, Clone, Copy, PartialEq, Eq, Structural)]
pub enum FirstKind {
    Client,
    Tunnel,
    Visitor,
    Unknown,
}

pub open spec fn first_kind_of(ty: Seq<char>) -> FirstKind {
    if ty == "client"@ {
        FirstKind::Client
    } else if ty == "tunnel"@ {
        FirstKind::Tunnel
    } else if ty == "visitor"@ {
        FirstKind::Visitor
    } else {
        FirstKind::Unknown
    }
}

/// The kind of connection a first message of type `ty` opens.
pub fn first_kind(ty: &str) -> (k: FirstKind)
    ensures
        k == first_kind_of(ty@),
{
    if str_eq(ty, "client") {
        FirstKind::Client
    } else if str_eq(ty, "tunnel") {
        FirstKind::Tunnel
    } else if str_eq(ty, "visitor") {
        FirstKind::Visitor
    } else {
        FirstKind::Unknown
    }
}

/// Where the reading of a first line stands after one more byte.
#[derive(Debug, Clone, Copy, PartialEq, Eq, Structural)]
pub enum LineStep {
    /// The line is complete (the byte was its newline).
    Done,
    /// Keep the byte and read on.
    Push,
    /// The line is too long.
    TooLong,
}

/// What to do with byte `b` when `len` bytes of the line are held.
pub fn initial_line_step(len: usize, b: u8) -> (s: LineStep)
    ensures
        b == 0x0A ==> s == LineStep::Done,
        b != 0x0A && len >= MAX_INITIAL_MESSAGE_BYTES ==> s == LineStep::TooLong,
        b != 0x0A && len < MAX_INITIAL_MESSAGE_BYTES ==> s == LineStep::Push,
{
    if b == 0x0A {
        LineStep::Done
    } else if len >= MAX_INITIAL_MESSAGE_BYTES {
        LineStep::TooLong
    } else {
        LineStep::Push
    }
}

/// Why a control connection is dropped.
#[derive(Debug)]
pub enum ControlError {
    EmptyClientId,
    /// A message other than `auth` came; its type.
    ExpectedAuth(String),
    MissingProof,
    AuthFailed,
    EmptyTunnelId,
    TunnelAuthFailed,
    NoPendingWork(String),
    VisitorAuthFailed,
}

pub open spec fn control_error_text(e: ControlError) -> Seq<char> {
    match e {
        ControlError::EmptyClientId => "empty client_id"@,
        ControlError::ExpectedAuth(t) => "expected auth, got "@ + t@,
        ControlError::MissingProof => "missing proof"@,
        ControlError::AuthFailed => "auth failed"@,
        ControlError::EmptyTunnelId => "empty tunnel id"@,
        ControlError::TunnelAuthFailed => "tunnel auth failed"@,
        ControlError::NoPendingWork(t) => "no pending work for tunnel "@ + t@,
        ControlError::VisitorAuthFailed => "visitor auth failed"@,
    }
}

impl ControlError {
    /// The text the connection is ended with.
    pub fn message(&self) -> (m: String)
        ensures
            m@ == control_error_text(*self),
    {
        let mut v: Vec<char> = Vec::new();
        match self {
            ControlError::EmptyClientId => push_str(&mut v, "empty client_id"),
            ControlError::ExpectedAuth(t) => {
                push_str(&mut v, "expected auth, got ");
                push_str(&mut v, t.as_str());
            },
            ControlError::MissingProof => push_str(&mut v, "missing proof"),
            ControlError::AuthFailed => push_str(&mut v, "auth failed"),
            ControlError::EmptyTunnelId => push_str(&mut v, "empty tunnel id"),
            ControlError::TunnelAuthFailed => push_str(&mut v, "tunnel auth failed"),
            ControlError::NoPendingWork(t) => {
                push_str(&mut v, "no pending work for tunnel ");
                push_str(&mut v, t.as_str());
            },
            ControlError::VisitorAuthFailed => push_str(&mut v, "visitor auth failed"),
        }
        string_from_chars(v.as_slice())
    }
}

/// The id of the client a hello comes from; an empty one is refused.
pub fn client_id_of(hello: &Message) -> (r: Result<String, ControlError>)
    ensures
        match opt_chars(hello.client_id) {
            Some(c) if c.len() > 0 => r matches Ok(s) && s@ == c,
            _ => r matches Err(ControlError::EmptyClientId),
        },
{
    match &hello.client_id {
        Some(c) => {
            if c.as_str().is_empty() {
                Err(ControlError::EmptyClientId)
            } else {
                Ok(c.clone())
            }
        },
        None => Err(ControlError::EmptyClientId),
    }
}

/// The proof an `auth` message carries.  Any other message is refused (and
/// answered with an `expected auth` error message).
pub fn auth_proof(msg: &Message) -> (r: Result<String, ControlError>)
    ensures
        msg.ty@ != "auth"@ ==> (r matches Err(ControlError::ExpectedAuth(t)) && t@ == msg.ty@),
        msg.ty@ == "auth"@ ==> match opt_chars(msg.proof) {
            Some(p) => r matches Ok(s) && s@ == p,
            None => r matches Err(ControlError::MissingProof),
        },
{
    if !str_eq(msg.ty.as_str(), "auth") {
        return Err(ControlError::ExpectedAuth(msg.ty.clone()));
    }
    match &msg.proof {
        Some(p) => Ok(p.clone()),
        None => Err(ControlError::MissingProof),
    }
}

/// What a registered service needs from the server.
#[derive(Debug, Clone, Copy, PartialEq, Eq, Structural)]
pub enum ListenerAction {
    /// Start a TCP listener on this port (and mark it active).
    StartTcp(u16),
    /// Start the UDP relay of this port.
    StartUdp(u16),
    Nothing,
}

pub open spec fn listener_action_of(t: Seq<char>, vhost: bool, port: u16, listener_active: bool, udp_enabled: bool) -> ListenerAction {
    if t == "tcp"@ || t == "static"@ || t == ""@ {
        if !vhost && port != 0 && !listener_active {
            ListenerAction::StartTcp(port)
        } else {
            ListenerAction::Nothing
        }
    } else if t == "udp"@ {
        if udp_enabled && port != 0 {
            ListenerAction::StartUdp(port)
        } else {
            ListenerAction::Nothing
        }
    } else {
        ListenerAction::Nothing
    }
}

/// What service `svc` needs, given whether a listener already runs on its
/// port and whether the UDP relay is enabled.
pub fn listener_action(svc: &Service, listener_active: bool, udp_enabled: bool) -> (a: ListenerAction)
    ensures
        a == listener_action_of(
            svc.spec_type(),
            crate::protocol::msg::type_is_vhost(svc.spec_type()),
            svc.remote_port,
            listener_active,
            udp_enabled,
        ),
{
    let t = svc.effective_type();
    if str_eq(t, "tcp") || str_eq(t, "static") || str_eq(t, "") {
        if !svc.is_vhost() && svc.remote_port != 0 && !listener_active {
            ListenerAction::StartTcp(svc.remote_port)
        } else {
            ListenerAction::Nothing
        }
    } else if str_eq(t, "udp") {
        if udp_enabled && svc.remote_port != 0 {
            ListenerAction::StartUdp(svc.remote_port)
        } else {
            ListenerAction::Nothing
        }
    } else {
        ListenerAction::Nothing
    }
}

/// What a message on a running control session asks for.
#[derive(Debug)]
pub enum ControlAction {
    Nothing,
    SendPong,
    /// Record the health of a service.
    ReportHealth(String, bool),
    /// Forward a UDP reply: public port, peer address, payload.
    UdpResponse(u16, String, Vec<u8>),
}

/// The action a message asks for on a running session.
pub fn control_action(msg: &Message) -> (a: ControlAction)
    ensures
        msg.ty@ == "ping"@ ==> a is SendPong,
        msg.ty@ == "health"@ ==> match (opt_chars(msg.service_name), msg.healthy) {
            (Some(n), Some(h)) => a matches ControlAction::ReportHealth(x, y) && x@ == n && y == h,
            _ => a is Nothing,
        },
        msg.ty@ == "udp_response"@ ==> match (msg.remote_port, opt_chars(msg.address), msg.data) {
            (Some(p), Some(ad), Some(d)) => a matches ControlAction::UdpResponse(x, y, z) && x == p && y@ == ad
                && z@ == d@,
            _ => a is Nothing,
        },
        msg.ty@ != "ping"@ && msg.ty@ != "health"@ && msg.ty@ != "udp_response"@ ==> a is Nothing,
{
    proof {
        reveal_strlit("ping");
        reveal_strlit("health");
        reveal_strlit("udp_response");
        assert("ping"@[0] != "health"@[0] && "ping"@[0] != "udp_response"@[0]);
        assert("health"@[0] != "udp_response"@[0]);
    }
    if str_eq(msg.ty.as_str(), "ping") {
        ControlAction::SendPong
    } else if str_eq(msg.ty.as_str(), "health") {
        match &msg.service_name {
            Some(n) => match msg.healthy {
                Some(h) => ControlAction::ReportHealth(n.clone(), h),
                None => ControlAction::Nothing,
            },
            None => ControlAction::Nothing,
        }
    } else if str_eq(msg.ty.as_str(), "udp_response") {
        match (msg.remote_port, &msg.address, &msg.data) {
            (Some(p), Some(ad), Some(d)) => {
                let mut v: Vec<u8> = Vec::new();
                crate::text::extend_bytes(&mut v, d.as_slice());
                ControlAction::UdpResponse(p, ad.clone(), v)
            },
            _ => ControlAction::Nothing,
        }
    } else {
        ControlAction::Nothing
    }
}

/// Whether a session whose read timed out ends: it has been silent longer
/// than the limit.
pub fn idle_session_ends(now_ms: u64, last_activity_ms: u64) -> (b: bool)
    ensures
        b == (now_ms >= last_activity_ms && now_ms - last_activity_ms > CONTROL_IDLE_LIMIT_MS),
{
    now_ms >= last_activity_ms && now_ms - last_activity_ms > CONTROL_IDLE_LIMIT_MS
}

/// The key a challenge is filed under: `kind:id`.
pub fn challenge_key(kind: &str, id: &str) -> (k: String)
    ensures
        k@ == kind@ + ":"@ + id@,
{
    let mut c: Vec<char> = Vec::new();
    push_str(&mut c, kind);
    push_str(&mut c, ":");
    push_str(&mut c, id);
    string_from_chars(c.as_slice())
}

/// The id of the tunnel a tunnel hello opens; an empty one is refused.
pub fn tunnel_id_of(hello: &Message) -> (r: Result<String, ControlError>)
    ensures
        match opt_chars(hello.id) {
            Some(c) if c.len() > 0 => r matches Ok(s) && s@ == c,
            _ => r matches Err(ControlError::EmptyTunnelId),
        },
{
    match &hello.id {
        Some(c) => {
            if c.as_str().is_empty() {
                Err(ControlError::EmptyTunnelId)
            } else {
                Ok(c.clone())
            }
        },
        None => Err(ControlError::EmptyTunnelId),
    }
}

/// How a tunnel handshake ends once its proof was checked: the message
/// sent back and what becomes of the waiting request.
#[derive(Debug)]
pub enum TunnelOutcome {
    /// Proof refused: answer with this reject and refuse the request.
    AuthFailed(Message),
    /// The request was waiting: answer with this ready and hand it the
    /// tunnel.
    Attach(Message),
    /// Nothing waits for it: answer with this reject.
    NoPendingWork(Message),
}

/// The end of a tunnel handshake for `tunnel_id`: whether its proof was
/// accepted and whether a request waited for it.
pub fn tunnel_outcome(tunnel_id: &str, proof_ok: bool, was_pending: bool) -> (o: TunnelOutcome)
    ensures
        !proof_ok ==> (o matches TunnelOutcome::AuthFailed(m) && m@ == (MessageView {
            id: Some(tunnel_id@),
            error: Some("auth failed"@),
            ..crate::protocol::msg::blank_message("reject"@)
        })),
        proof_ok && was_pending ==> (o matches TunnelOutcome::Attach(m) && m@ == (MessageView {
            services: Seq::empty(),
            qcp_port: Some(0),
            qcp_tunnel_port: Some(0),
            ..crate::protocol::msg::blank_message("ready"@)
        })),
        proof_ok && !was_pending ==> (o matches TunnelOutcome::NoPendingWork(m) && m@ == (MessageView {
            id: Some(tunnel_id@),
            error: Some("no pending work"@),
            ..crate::protocol::msg::blank_message("reject"@)
        })),
{
    if !proof_ok {
        TunnelOutcome::AuthFailed(Message::new_reject(tunnel_id, "auth failed"))
    } else if was_pending {
        TunnelOutcome::Attach(Message::new_ready(Vec::new(), 0, 0))
    } else {
        TunnelOutcome::NoPendingWork(Message::new_reject(tunnel_id, "no pending work"))
    }
}

/// A text, or `""` when it is left out.
pub open spec fn or_empty(o: Option<Seq<char>>) -> Seq<char> {
    match o {
        Some(t) => t,
        None => Seq::empty(),
    }
}

fn copy_or_empty(o: &Option<String>) -> (s: String)
    ensures
        s@ == or_empty(opt_chars(*o)),
{
    match o {
        Some(t) => t.clone(),
        None => String::new(),
    }
}

/// What a visitor hello names: the visiting client, the secret service and
/// the visit's id (each `""` when left out).  The challenge of the visit is
/// filed under `visitor:{id}`.
pub fn visitor_ids(hello: &Message) -> (r: (String, String, String))
    ensures
        r.0@ == or_empty(hello@.client_id),
        r.1@ == or_empty(hello@.service_name),
        r.2@ == or_empty(hello@.id),
{
    (copy_or_empty(&hello.client_id), copy_or_empty(&hello.service_name), copy_or_empty(&hello.id))
}


/// A service of a TCP kind that is not routed by host name (type `tcp`,
/// `static`, or none given) gets a TCP listener on its public port when the
/// port is set and no listener runs there yet, and nothing otherwise.
pub proof fn lemma_tcp_services_get_a_listener(svc: Service, listener_active: bool, udp_enabled: bool)
    requires
        svc.ty is None || svc.spec_type() == "tcp"@ || svc.spec_type() == "static"@ || svc.spec_type() == ""@,
    ensures
        listener_action_of(
            svc.spec_type(),
            crate::protocol::msg::type_is_vhost(svc.spec_type()),
            svc.remote_port,
            listener_active,
            udp_enabled,
        ) == (if svc.remote_port != 0 && !listener_active {
            ListenerAction::StartTcp(svc.remote_port)
        } else {
            ListenerAction::Nothing
        }),
{
    reveal_strlit("tcp");
    reveal_strlit("static");
    reveal_strlit("");
    reveal_strlit("http");
    reveal_strlit("https");
    reveal_strlit("tcpmux");
    assert("static"@ != "tcpmux"@) by {
        assert("static"@[0] != "tcpmux"@[0]);
    }
    assert("tcp"@.len() == 3 && "http"@.len() == 4 && "https"@.len() == 5 && ""@.len() == 0);
}

/// A UDP service gets its relay started when the relay is enabled and its
/// port is set; a service routed by host name (`http`, `https`, `tcpmux`)
/// never gets a listener of its own.
pub proof fn lemma_udp_and_routed_services(svc: Service, listener_active: bool, udp_enabled: bool)
    ensures
        svc.spec_type() == "udp"@ ==> listener_action_of(
            svc.spec_type(),
            crate::protocol::msg::type_is_vhost(svc.spec_type()),
            svc.remote_port,
            listener_active,
            udp_enabled,
        ) == (if udp_enabled && svc.remote_port != 0 {
            ListenerAction::StartUdp(svc.remote_port)
        } else {
            ListenerAction::Nothing
        }),
        crate::protocol::msg::type_is_vhost(svc.spec_type()) ==> listener_action_of(
            svc.spec_type(),
            crate::protocol::msg::type_is_vhost(svc.spec_type()),
            svc.remote_port,
            listener_active,
            udp_enabled,
        ) == ListenerAction::Nothing,
{
    reveal_strlit("tcp");
    reveal_strlit("static");
    reveal_strlit("");
    reveal_strlit("udp");
    reveal_strlit("http");
    reveal_strlit("https");
    reveal_strlit("tcpmux");
    assert("udp"@ != "tcp"@) by {
        assert("udp"@[0] != "tcp"@[0]);
    }
    assert("static"@.len() == 6 && "udp"@.len() == 3 && ""@.len() == 0 && "tcp"@.len() == 3);
    assert("http"@.len() == 4 && "https"@.len() == 5 && "tcpmux"@.len() == 6);
    assert("tcpmux"@ != "static"@) by {
        assert("tcpmux"@[0] != "static"@[0]);
    }
}

} // verus!
