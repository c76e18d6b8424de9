//! The decisions of a client's sessions: the authentication handshakes of
//! control, tunnel and visitor connections, what each message of a running
//! control session asks for, the keepalive, the reconnect delay, and the
//! error texts of tunnel attempts.  Connecting, reading, writing and waiting
//! are the application's: it performs what a step returns and hands back
//! what came.

use crate::client::transport::{kind_name, TransportKind};
use crate::protocol::crypto::{compute_proof, expected_proof};
use crate::protocol::msg::{opt_chars, type_is_private, type_is_udp, Message, MessageView, Service};
use crate::text::{
    decimal, decimal_of, has_substring, join_texts, joined, push_str, str_contains, str_eq,
    string_from_chars,
};
use vstd::prelude::*;

verus! {

broadcast use vstd::string::group_string_axioms;

/// The reconnect delay after a clean end of a session, in seconds.
pub const INITIAL_BACKOFF_SECS: u64 = 3;

/// The reconnect delay never grows past this many seconds.
pub const MAX_BACKOFF_SECS: u64 = 6;

/// A session that has heard nothing for this long (ns) is given up.
pub const PONG_TIMEOUT_NANOS: u128 = 60_000_000_000;

/// A plain TCP tunnel is tried this many times before it counts as failed.
pub const TCP_TUNNEL_ATTEMPTS: u8 = 3;

/// Each TCP tunnel attempt may take this long (ms).
pub const TCP_TUNNEL_ATTEMPT_TIMEOUT_MS: u64 = 2000;

/// A QCP probe is given at least this long (ms).
pub const MIN_QCP_PROBE_TIMEOUT_MS: u64 = 250;

/// `min(2 * b, 6)`: the backoff that follows a wait of `b` seconds.
pub open spec fn doubled_backoff(b: int) -> int {
    if 2 * b < MAX_BACKOFF_SECS {
        2 * b
    } else {
        MAX_BACKOFF_SECS as int
    }
}

/// After a session ended: how long to wait before reconnecting, and the
/// backoff to keep.  A clean end starts again from 3 s; each wait doubles
/// the next, up to 6 s.
pub fn reconnect_delay(clean: bool, backoff: u64) -> (r: (u64, u64))
    requires
        clean || backoff <= u64::MAX / 2,
    ensures
        r.0 == (if clean { INITIAL_BACKOFF_SECS } else { backoff }),
        r.1 == doubled_backoff(r.0 as int),
        INITIAL_BACKOFF_SECS <= backoff <= MAX_BACKOFF_SECS ==> INITIAL_BACKOFF_SECS <= r.0
            <= MAX_BACKOFF_SECS && INITIAL_BACKOFF_SECS <= r.1 <= MAX_BACKOFF_SECS,
{
    let wait = if clean {
        INITIAL_BACKOFF_SECS
    } else {
        backoff
    };
    let doubled = wait * 2;
    let next = if doubled < MAX_BACKOFF_SECS {
        doubled
    } else {
        MAX_BACKOFF_SECS
    };
    (wait, next)
}

/// The time a QCP probe is given: the configured time, at least 250 ms.
pub fn probe_timeout_ms(configured_ms: u64) -> (t: u64)
    ensures
        t == (if configured_ms < MIN_QCP_PROBE_TIMEOUT_MS { MIN_QCP_PROBE_TIMEOUT_MS } else { configured_ms }),
{
    if configured_ms < MIN_QCP_PROBE_TIMEOUT_MS {
        MIN_QCP_PROBE_TIMEOUT_MS
    } else {
        configured_ms
    }
}

/// The three authenticated connections a client opens.
#[derive(Debug, Clone, Copy, PartialEq, Eq, Structural)]
pub enum HandshakeKind {
    /// The control connection.
    Client,
    /// A tunnel for one request.
    Tunnel,
    /// A visitor of a secret service.
    Visitor,
}

pub open spec fn handshake_name(k: HandshakeKind) -> Seq<char> {
    match k {
        HandshakeKind::Client => "client"@,
        HandshakeKind::Tunnel => "tunnel"@,
        HandshakeKind::Visitor => "visitor"@,
    }
}

/// The reply type that completes a handshake besides `ready`.
pub open spec fn alternate_ready(k: HandshakeKind) -> Option<Seq<char>> {
    match k {
        HandshakeKind::Client => None,
        HandshakeKind::Tunnel => Some("tunnel_ok"@),
        HandshakeKind::Visitor => Some("visitor_ok"@),
    }
}

/// Why a session or a handshake ended.
#[derive(Debug)]
pub enum SessionError {
    /// The server did not send a challenge; what it sent instead.
    ExpectedChallenge(HandshakeKind, String),
    /// The server refused the proof; its error text.
    Rejected(HandshakeKind, String),
    /// The server answered the proof with something else; its type.
    ExpectedReady(HandshakeKind, String),
    /// A server error that ends the session.
    ServerError(String),
    /// Nothing was heard from the server for too long.
    KeepaliveTimeout,
}

pub open spec fn session_error_text(e: SessionError) -> Seq<char> {
    match e {
        SessionError::ExpectedChallenge(k, t) => if k == HandshakeKind::Visitor {
            "expected challenge"@
        } else {
            "expected challenge, got "@ + t@
        },
        SessionError::Rejected(k, t) => match k {
            HandshakeKind::Client => "auth rejected: "@ + t@,
            HandshakeKind::Tunnel => "tunnel auth rejected: "@ + t@,
            HandshakeKind::Visitor => "visitor auth failed: "@ + t@,
        },
        SessionError::ExpectedReady(k, t) => if k == HandshakeKind::Visitor {
            "expected ready after visitor auth"@
        } else {
            "expected ready, got "@ + t@
        },
        SessionError::ServerError(t) => "server error: "@ + t@,
        SessionError::KeepaliveTimeout => "keepalive timeout"@,
    }
}

fn text_of(parts: &Vec<char>) -> (s: String)
    ensures
        s@ == parts@,
{
    string_from_chars(parts.as_slice())
}

impl SessionError {
    /// The text the error is reported with.
    pub fn message(&self) -> (m: String)
        ensures
            m@ == session_error_text(*self),
    {
        let mut v: Vec<char> = Vec::new();
        match self {
            SessionError::ExpectedChallenge(k, t) => {
                match k {
                    HandshakeKind::Visitor => push_str(&mut v, "expected challenge"),
                    _ => {
                        push_str(&mut v, "expected challenge, got ");
                        push_str(&mut v, t.as_str());
                    },
                }
            },
            SessionError::Rejected(k, t) => {
                match k {
                    HandshakeKind::Client => push_str(&mut v, "auth rejected: "),
                    HandshakeKind::Tunnel => push_str(&mut v, "tunnel auth rejected: "),
                    HandshakeKind::Visitor => push_str(&mut v, "visitor auth failed: "),
                }
                push_str(&mut v, t.as_str());
            },
            SessionError::ExpectedReady(k, t) => {
                match k {
                    HandshakeKind::Visitor => push_str(&mut v, "expected ready after visitor auth"),
                    _ => {
                        push_str(&mut v, "expected ready, got ");
                        push_str(&mut v, t.as_str());
                    },
                }
            },
            SessionError::ServerError(t) => {
                push_str(&mut v, "server error: ");
                push_str(&mut v, t.as_str());
            },
            SessionError::KeepaliveTimeout => push_str(&mut v, "keepalive timeout"),
        }
        text_of(&v)
    }
}

/// The nonce of a challenge, or `""` when it carries none.
pub open spec fn nonce_of(m: MessageView) -> Seq<char> {
    match m.nonce {
        Some(n) => n,
        None => Seq::empty(),
    }
}

/// The answer to the server's first reply on a connection of kind `kind`:
/// the `auth` message that proves `auth_key` for `client_id` and `id`.
/// Anything but a challenge ends the handshake.
pub fn answer_challenge(
    kind: HandshakeKind,
    auth_key: &str,
    client_id: &str,
    id: &str,
    challenge: &Message,
) -> (r: Result<Message, SessionError>)
    ensures
        challenge.ty@ != "challenge"@ ==> (r matches Err(SessionError::ExpectedChallenge(k, t)) && k
            == kind && t@ == challenge.ty@),
        challenge.ty@ == "challenge"@ ==> (r matches Ok(m) && m@ == (MessageView {
            proof: Some(
                expected_proof(auth_key@, handshake_name(kind), client_id@, id@, nonce_of(challenge@)),
            ),
            ..crate::protocol::msg::blank_message("auth"@)
        })),
{
    if !str_eq(challenge.ty.as_str(), "challenge") {
        return Err(SessionError::ExpectedChallenge(kind, challenge.ty.clone()));
    }
    let nonce: &str = match &challenge.nonce {
        Some(n) => n.as_str(),
        None => "",
    };
    proof {
        reveal_strlit("");
    }
    let name: &str = match kind {
        HandshakeKind::Client => "client",
        HandshakeKind::Tunnel => "tunnel",
        HandshakeKind::Visitor => "visitor",
    };
    let p = compute_proof(auth_key, name, client_id, id, nonce);
    Ok(Message::new_auth(p.as_str()))
}

/// The error text of a refusal, or `default` when it carries none.
pub open spec fn error_or(m: MessageView, default: Seq<char>) -> Seq<char> {
    match m.error {
        Some(e) => e,
        None => default,
    }
}

/// What a refusal without a text is reported as.
pub open spec fn missing_error_text(k: HandshakeKind) -> Seq<char> {
    if k == HandshakeKind::Visitor {
        Seq::empty()
    } else {
        "unknown"@
    }
}

/// Whether the server's answer to a proof completes a handshake of kind
/// `kind`: `ready` (or, for tunnels and visitors, their own `_ok`) does; an
/// `error` is a refusal; anything else ends the handshake too.
pub fn check_reply(kind: HandshakeKind, reply: &Message) -> (r: Result<(), SessionError>)
    ensures
        reply.ty@ == "error"@ ==> (r matches Err(SessionError::Rejected(k, t)) && k == kind && t@
            == error_or(reply@, missing_error_text(kind))),
        reply.ty@ != "error"@ && (reply.ty@ == "ready"@ || Some(reply.ty@) == alternate_ready(kind))
            ==> r is Ok,
        reply.ty@ != "error"@ && reply.ty@ != "ready"@ && Some(reply.ty@) != alternate_ready(kind)
            ==> (r matches Err(SessionError::ExpectedReady(k, t)) && k == kind && t@ == reply.ty@),
{
    proof {
        reveal_strlit("error");
        reveal_strlit("ready");
        reveal_strlit("tunnel_ok");
        reveal_strlit("visitor_ok");
        reveal_strlit("unknown");
        reveal_strlit("");
        assert("error"@[0] != "ready"@[0] && "error"@[0] != "tunnel_ok"@[0] && "error"@[0]
            != "visitor_ok"@[0]);
    }
    if str_eq(reply.ty.as_str(), "error") {
        let text = match &reply.error {
            Some(e) => e.clone(),
            None => match kind {
                HandshakeKind::Visitor => "".to_string(),
                _ => "unknown".to_string(),
            },
        };
        return Err(SessionError::Rejected(kind, text));
    }
    if str_eq(reply.ty.as_str(), "ready") {
        return Ok(());
    }
    let alternate = match kind {
        HandshakeKind::Client => false,
        HandshakeKind::Tunnel => str_eq(reply.ty.as_str(), "tunnel_ok"),
        HandshakeKind::Visitor => str_eq(reply.ty.as_str(), "visitor_ok"),
    };
    if alternate {
        Ok(())
    } else {
        Err(SessionError::ExpectedReady(kind, reply.ty.clone()))
    }
}

/// What the server assigned when it accepted a control session.
#[derive(Debug)]
pub struct Registration {
    /// The services as registered, ports filled in.
    pub services: Vec<Service>,
    pub qcp_port: u16,
    pub qcp_tunnel_port: u16,
}

/// The registration a `ready` reply carries; a port the reply leaves out is
/// the configured one.
pub fn registration(ready: Message, qcp_port_cfg: u16, qcp_tunnel_port_cfg: u16) -> (r: Registration)
    ensures
        r.services@ == ready.services@,
        r.qcp_port == (match ready.qcp_port {
            Some(p) => p,
            None => qcp_port_cfg,
        }),
        r.qcp_tunnel_port == (match ready.qcp_tunnel_port {
            Some(p) => p,
            None => qcp_tunnel_port_cfg,
        }),
{
    let qcp_port = match ready.qcp_port {
        Some(p) => p,
        None => qcp_port_cfg,
    };
    let qcp_tunnel_port = match ready.qcp_tunnel_port {
        Some(p) => p,
        None => qcp_tunnel_port_cfg,
    };
    Registration { services: ready.services, qcp_port, qcp_tunnel_port }
}

/// The work a registered service starts on the client.
#[derive(Debug, Clone, Copy, PartialEq, Eq, Structural)]
pub struct ServiceTasks {
    /// Relay its UDP datagrams to the local address.
    pub udp_forwarder: bool,
    /// Report whether its static root is available, every 20 s.
    pub static_health: bool,
    /// Run the active health check its settings ask for.
    pub health_check: bool,
}

/// The work a registered service starts: a UDP relay for a public UDP
/// service with a port; for a static service the root check, for any other
/// the health check it configures.
pub fn service_tasks(svc: &Service) -> (t: ServiceTasks)
    ensures
        t.udp_forwarder == (type_is_udp(svc.spec_type()) && !type_is_private(svc.spec_type())
            && svc.remote_port > 0),
        t.static_health == (svc.spec_type() == "static"@),
        t.health_check == (svc.spec_type() != "static"@ && match opt_chars(svc.health_check) {
            Some(c) => c.len() > 0,
            None => false,
        }),
{
    let udp_forwarder = svc.is_udp() && !svc.is_private() && svc.remote_port > 0;
    let is_static = str_eq(svc.effective_type(), "static");
    let health_check = if is_static {
        false
    } else {
        match &svc.health_check {
            Some(c) => !c.as_str().is_empty(),
            None => false,
        }
    };
    ServiceTasks { udp_forwarder, static_health: is_static, health_check }
}

/// How a tunnel request for a service is served.
#[derive(Debug, Clone, Copy, PartialEq, Eq, Structural)]
pub enum OpenPlan {
    /// Serve the files under the service's root over the tunnel.
    ServeStatic,
    /// Connect the local address and copy both ways; first send a proxy
    /// protocol header when the flag is set.
    Forward(bool),
}

/// How a tunnel request for `svc` is served.
pub fn open_plan(svc: &Service) -> (p: OpenPlan)
    ensures
        p == (if svc.spec_type() == "static"@ {
            OpenPlan::ServeStatic
        } else {
            OpenPlan::Forward(svc.proxy_protocol)
        }),
{
    if str_eq(svc.effective_type(), "static") {
        OpenPlan::ServeStatic
    } else {
        OpenPlan::Forward(svc.proxy_protocol)
    }
}

/// What a message on a running control session asks of the client.
#[derive(Debug)]
pub enum SessionStep {
    SendPong,
    Ignore,
    /// A server error that does not end the session: report it.
    Warn(String),
    /// End the session with this error.
    Fail(SessionError),
    /// Open a tunnel for request `id`, from the visitor's address, to the
    /// service.
    Open(String, String, Service),
    /// Hand a UDP reply to the relay of this port: peer address, payload.
    UdpResponse(u16, String, Vec<u8>),
    /// The server said goodbye: end the session cleanly.
    Bye,
    /// The server closed the session: end it cleanly; the reason.
    Closed(String),
}

/// Whether a server error ends the session: it speaks of `auth` or is
/// `fatal`.
pub open spec fn error_is_fatal(e: Seq<char>) -> bool {
    has_substring(e, "auth"@) || has_substring(e, "fatal"@)
}

/// What message `msg` asks of a running control session.
pub fn session_step(msg: Message) -> (s: SessionStep)
    ensures
        msg.ty@ == "ping"@ ==> s is SendPong,
        msg.ty@ == "error"@ ==> ({
            let e = error_or(msg@, "unknown"@);
            if error_is_fatal(e) {
                s matches SessionStep::Fail(SessionError::ServerError(t)) && t@ == e
            } else {
                s matches SessionStep::Warn(t) && t@ == e
            }
        }),
        msg.ty@ == "open"@ ==> match msg.service {
            Some(svc) => s matches SessionStep::Open(id, addr, sv) && id@ == error_or(
                MessageView { error: msg@.id, ..msg@ },
                Seq::empty(),
            ) && addr@ == error_or(MessageView { error: msg@.address, ..msg@ }, Seq::empty())
                && sv == svc,
            None => s is Ignore,
        },
        msg.ty@ == "udp_response"@ ==> match (msg.remote_port, opt_chars(msg.address), msg.data) {
            (Some(p), Some(a), Some(d)) => s matches SessionStep::UdpResponse(x, y, z) && x == p
                && y@ == a && z@ == d@,
            _ => s is Ignore,
        },
        msg.ty@ == "bye"@ ==> s is Bye,
        msg.ty@ == "close"@ ==> (s matches SessionStep::Closed(r) && r@ == error_or(
            msg@,
            "server closed connection"@,
        )),
        msg.ty@ != "ping"@ && msg.ty@ != "error"@ && msg.ty@ != "open"@ && msg.ty@
            != "udp_response"@ && msg.ty@ != "bye"@ && msg.ty@ != "close"@ ==> s is Ignore,
{
    proof {
        reveal_strlit("ping");
        reveal_strlit("error");
        reveal_strlit("open");
        reveal_strlit("udp_response");
        reveal_strlit("bye");
        reveal_strlit("close");
        reveal_strlit("");
        assert("ping"@[0] != "error"@[0] && "ping"@[0] != "open"@[0] && "ping"@[0]
            != "udp_response"@[0] && "ping"@[0] != "bye"@[0] && "ping"@[0] != "close"@[0]);
        assert("error"@[0] != "open"@[0] && "error"@[0] != "udp_response"@[0] && "error"@[0]
            != "bye"@[0] && "error"@[0] != "close"@[0]);
        assert("open"@[0] != "udp_response"@[0] && "open"@[0] != "bye"@[0] && "open"@[0]
            != "close"@[0]);
        assert("udp_response"@[0] != "bye"@[0] && "udp_response"@[0] != "close"@[0]);
        assert("bye"@[0] != "close"@[0]);
    }
    let ty = msg.ty;
    if str_eq(ty.as_str(), "ping") {
        SessionStep::SendPong
    } else if str_eq(ty.as_str(), "error") {
        let e = match msg.error {
            Some(e) => e,
            None => "unknown".to_string(),
        };
        if str_contains(e.as_str(), "auth") || str_contains(e.as_str(), "fatal") {
            SessionStep::Fail(SessionError::ServerError(e))
        } else {
            SessionStep::Warn(e)
        }
    } else if str_eq(ty.as_str(), "open") {
        match msg.service {
            Some(svc) => {
                let id = match msg.id {
                    Some(i) => i,
                    None => String::new(),
                };
                let addr = match msg.address {
                    Some(a) => a,
                    None => String::new(),
                };
                SessionStep::Open(id, addr, svc)
            },
            None => SessionStep::Ignore,
        }
    } else if str_eq(ty.as_str(), "udp_response") {
        match (msg.remote_port, msg.address, msg.data) {
            (Some(p), Some(a), Some(d)) => SessionStep::UdpResponse(p, a, d),
            _ => SessionStep::Ignore,
        }
    } else if str_eq(ty.as_str(), "bye") {
        SessionStep::Bye
    } else if str_eq(ty.as_str(), "close") {
        let r = match msg.error {
            Some(e) => e,
            None => "server closed connection".to_string(),
        };
        SessionStep::Closed(r)
    } else {
        SessionStep::Ignore
    }
}

/// What the keepalive timer asks for.
#[derive(Debug, Clone, Copy, PartialEq, Eq, Structural)]
pub enum KeepaliveStep {
    SendPing,
    /// Nothing came for too long: end the session.
    TimedOut,
}

/// At a keepalive tick, `elapsed_nanos` after the last message came.
pub fn keepalive_step(elapsed_nanos: u128) -> (k: KeepaliveStep)
    ensures
        k == (if elapsed_nanos > PONG_TIMEOUT_NANOS {
            KeepaliveStep::TimedOut
        } else {
            KeepaliveStep::SendPing
        }),
{
    if elapsed_nanos > PONG_TIMEOUT_NANOS {
        KeepaliveStep::TimedOut
    } else {
        KeepaliveStep::SendPing
    }
}

/// Whether another TCP tunnel attempt follows a failed attempt `attempt`.
pub fn retry_tcp_tunnel(attempt: u8) -> (b: bool)
    ensures
        b == (attempt < TCP_TUNNEL_ATTEMPTS),
{
    attempt < TCP_TUNNEL_ATTEMPTS
}

/// `attempt {n}: {error}`: one failed TCP tunnel attempt.
pub fn attempt_error_text(attempt: u8, error: &str) -> (t: String)
    ensures
        t@ == "attempt "@ + decimal(attempt as nat) + ": "@ + error@,
{
    let mut v: Vec<char> = Vec::new();
    push_str(&mut v, "attempt ");
    let d = decimal_of(attempt as u64);
    crate::text::extend_chars(&mut v, d.as_slice());
    push_str(&mut v, ": ");
    push_str(&mut v, error);
    text_of(&v)
}

/// `attempt {n}: setup exceeded 2000 ms`: a TCP tunnel attempt that took
/// too long.
pub fn attempt_timeout_text(attempt: u8) -> (t: String)
    ensures
        t@ == "attempt "@ + decimal(attempt as nat) + ": setup exceeded "@ + decimal(
            TCP_TUNNEL_ATTEMPT_TIMEOUT_MS as nat,
        ) + " ms"@,
{
    let mut v: Vec<char> = Vec::new();
    push_str(&mut v, "attempt ");
    let d = decimal_of(attempt as u64);
    crate::text::extend_chars(&mut v, d.as_slice());
    push_str(&mut v, ": setup exceeded ");
    let ms = decimal_of(TCP_TUNNEL_ATTEMPT_TIMEOUT_MS);
    crate::text::extend_chars(&mut v, ms.as_slice());
    push_str(&mut v, " ms");
    text_of(&v)
}

/// The texts of the failed attempts, each as given, joined with `; `.
pub open spec fn error_list(errors: Seq<String>) -> Seq<char> {
    joined(errors.map_values(|e: String| e@), "; "@)
}

fn push_error_list(v: &mut Vec<char>, errors: &Vec<String>)
    ensures
        final(v)@ == old(v)@ + error_list(errors@),
{
    let j = join_texts(errors, "; ");
    crate::text::extend_chars(v, j.as_slice());
}

/// The error of a TCP tunnel whose every attempt failed.
pub fn tcp_attempts_failed_text(errors: &Vec<String>) -> (t: String)
    ensures
        t@ == "TCP tunnel setup failed after "@ + decimal(TCP_TUNNEL_ATTEMPTS as nat) + " attempts ("@
            + error_list(errors@) + ")"@,
{
    let mut v: Vec<char> = Vec::new();
    push_str(&mut v, "TCP tunnel setup failed after ");
    let d = decimal_of(TCP_TUNNEL_ATTEMPTS as u64);
    crate::text::extend_chars(&mut v, d.as_slice());
    push_str(&mut v, " attempts (");
    push_error_list(&mut v, errors);
    push_str(&mut v, ")");
    text_of(&v)
}

/// The error of a QCP probe that took longer than `ms`.
pub fn qcp_timeout_text(ms: u64) -> (t: String)
    ensures
        t@ == "QCP tunnel setup exceeded "@ + decimal(ms as nat) + " ms"@,
{
    let mut v: Vec<char> = Vec::new();
    push_str(&mut v, "QCP tunnel setup exceeded ");
    let d = decimal_of(ms);
    crate::text::extend_chars(&mut v, d.as_slice());
    push_str(&mut v, " ms");
    text_of(&v)
}

/// `{kind}: {error}`: how the failure of one transport is recorded.
pub fn transport_error_text(kind: TransportKind, error: &str) -> (t: String)
    ensures
        t@ == kind_name(kind) + ": "@ + error@,
{
    let mut v: Vec<char> = Vec::new();
    push_str(&mut v, kind.as_str());
    push_str(&mut v, ": ");
    push_str(&mut v, error);
    text_of(&v)
}

/// The error of a tunnel request for which every transport failed.
pub fn all_transports_failed_text(errors: &Vec<String>) -> (t: String)
    ensures
        t@ == "all tunnel transports failed ("@ + error_list(errors@) + ")"@,
{
    let mut v: Vec<char> = Vec::new();
    push_str(&mut v, "all tunnel transports failed (");
    push_error_list(&mut v, errors);
    push_str(&mut v, ")");
    text_of(&v)
}

} // verus!
