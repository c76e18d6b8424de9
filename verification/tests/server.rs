use base64::Engine;
use cross233::protocol::crypto::compute_proof;
use cross233::protocol::msg::{Message, Service};
use cross233::protocol::net::{IpAddress, SocketAddress};
use cross233::server::api_access::request_authorized;
use cross233::server::auth::AuthState;
use cross233::server::config::{config_format, ConfigFormat, ServerConfig};
use cross233::server::control::{
    auth_proof, challenge_key, client_id_of, control_action, first_kind, idle_session_ends,
    initial_line_step, listener_action, tunnel_id_of, tunnel_outcome, visitor_ids, ControlAction,
    ControlError, FirstKind, LineStep, ListenerAction, TunnelOutcome,
};
use cross233::server::crypto::load_or_create_auth_key;
use cross233::server::http_vhost::{
    check_basic_auth, extract_host, forwarded_head, head_step, rewrite_head, route_http, HeadStep,
    VhostRoute,
};
use cross233::server::https_vhost::{parse_sni, sni_read_step, SniRead};
use cross233::server::metrics::{
    collect_totals, counter_delta, MetricPoint, MetricsHistory, ServiceMetricPoint,
};
use cross233::server::proxy_protocol::{build_header, build_v1_header, build_v2_header};
use cross233::server::service::{InboundPlan, InboundRefusal, Registry};
use cross233::server::tcpmux::{connect_host, connect_host_of_bytes, line_read_step, LineRead};
use cross233::server::web::{
    check_api_token, login_allowed, session_token, token_in_query, Sessions,
};

fn test_service() -> Service {
    Service {
        name: "session-test".to_string(),
        ty: Some("tcp".to_string()),
        local_addr: "127.0.0.1:1".to_string(),
        remote_port: 60080,
        ..Default::default()
    }
}

#[test]
fn stale_session_cannot_unregister_new_session_services() {
    let mut state = Registry::new(60080, 60080, 0);
    state.register_services("client", 1, vec![test_service()], 0);
    state.register_services("client", 2, vec![test_service()], 0);

    assert!(!state.unregister_client_if_current("client", 1));
    assert!(state.get_service_by_name("session-test").is_some());
    assert!(state.is_current_control("client", 2));

    assert!(state.unregister_client_if_current("client", 2));
    assert!(state.get_service_by_name("session-test").is_none());
}

#[test]
fn tunnel_timeout_removes_pending_work() {
    let mut state = Registry::new(60080, 60080, 0);
    state.register_services("client", 1, vec![test_service()], 0);
    assert!(state.get_service_by_name("session-test").is_some());
    state.begin_tunnel("t1");
    assert_eq!(state.pending, vec!["t1".to_string()]);
    state.cancel_pending_tunnel("t1");
    assert!(state.pending.is_empty());
    // A tunnel that arrives after the timeout finds no pending work.
    assert!(!state.complete_tunnel("t1"));
}

#[test]
fn pending_tunnel_is_completed_once() {
    let mut state = Registry::new(60000, 60010, 0);
    state.begin_tunnel("a");
    state.begin_tunnel("b");
    assert!(state.complete_tunnel("a"));
    assert!(!state.complete_tunnel("a"));
    assert!(state.reject_tunnel("b"));
    assert!(state.pending.is_empty());
}

#[test]
fn registration_allocates_ports_and_finds_services() {
    let mut state = Registry::new(61000, 61001, 7713);
    let auto = Service { remote_port: 0, ..test_service() };
    let web = Service {
        name: "site".to_string(),
        ty: Some("http".to_string()),
        host: Some("Example.COM".to_string()),
        remote_port: 0,
        ..Default::default()
    };
    let out = state.register_services("c1", 7, vec![auto, web], 5);
    assert_eq!(out.len(), 2);
    assert_eq!(out[0].remote_port, 61000);
    assert_eq!(state.get_service_name_by_port(61000).as_deref(), Some("session-test"));
    assert!(state.get_service_name_by_port(61001).is_none());
    let site = state.get_service_by_host("example.com").expect("vhost by host");
    assert_eq!(site.config.name, "site");
    assert!(state.get_service_by_host("other.org").is_none());
    let clients = state.get_clients();
    assert_eq!(clients.len(), 1);
    assert_eq!(clients[0].0, "c1");
    assert_eq!(clients[0].1, vec!["session-test".to_string(), "site".to_string()]);
    assert_eq!(state.qcp_port(), 7713);
}

#[test]
fn disabled_and_unhealthy_services_refuse_inbound_connections() {
    let mut state = Registry::new(60000, 60010, 0);
    let limited = Service { max_connections: 1, ..test_service() };
    state.register_services("c", 1, vec![limited], 0);
    assert_eq!(state.admit_inbound("nope"), Err(InboundRefusal::NotFound));
    assert_eq!(state.admit_inbound("session-test"), Ok(InboundPlan::Relay));
    assert_eq!(state.admit_inbound("session-test"), Err(InboundRefusal::MaxConnections));
    state.release_inbound("session-test");
    assert_eq!(state.get_service_by_name("session-test").unwrap().current_conns, 0);
    state.report_health("session-test", false, 9);
    assert_eq!(state.admit_inbound("session-test"), Err(InboundRefusal::Unavailable));
    state.report_health("session-test", true, 10);
    assert!(state.toggle_service("session-test", false));
    assert_eq!(state.admit_inbound("session-test"), Err(InboundRefusal::Unavailable));
    assert!(!state.toggle_service("missing", true));
    assert_eq!(InboundRefusal::MaxConnections.message(), "max connections reached");

    let mut st = Registry::new(60000, 60010, 0);
    let stat = Service { ty: Some("static".to_string()), name: "files".to_string(), ..test_service() };
    st.register_services("c", 1, vec![stat], 0);
    assert_eq!(st.admit_inbound("files"), Ok(InboundPlan::Static));
}

#[test]
fn traffic_is_recorded_and_groups_rotate() {
    let mut state = Registry::new(60000, 60010, 0);
    let a = Service { name: "a".to_string(), group: Some("g".to_string()), remote_port: 0, ..test_service() };
    let b = Service { name: "b".to_string(), group: Some("g".to_string()), remote_port: 0, ..test_service() };
    state.register_services("c", 3, vec![a, b], 0);
    state.record_traffic("a", 10, 20);
    state.record_traffic("a", 1, 2);
    let e = state.get_service_by_name("a").unwrap();
    assert_eq!((e.traffic_tx, e.traffic_rx), (11, 22));
    assert_eq!(state.get_group_service("g").map(|m| m.0), Some("a".to_string()));
    assert_eq!(state.get_group_service("g").map(|m| m.0), Some("b".to_string()));
    assert_eq!(state.get_group_service("g").map(|m| m.0), Some("a".to_string()));
    assert!(state.get_group_service("none").is_none());
}

#[test]
fn challenge_is_created_without_deadlocking_and_is_single_use() {
    let mut auth = AuthState::new("test-key".to_string());
    let nonce = auth.create_challenge("client-1", 100);
    let proof = compute_proof("test-key", "client", "client-1", "client-1", &nonce);
    assert!(auth.verify("client-1", "client", "client-1", "client-1", &proof));
    assert!(!auth.verify("client-1", "client", "client-1", "client-1", &proof));
}

#[test]
fn a_wrong_proof_uses_up_the_challenge() {
    let mut auth = AuthState::new("k".to_string());
    let nonce = auth.create_challenge("c", 0);
    assert!(!auth.verify("c", "client", "c", "c", "bogus"));
    let proof = compute_proof("k", "client", "c", "c", &nonce);
    assert!(!auth.verify("c", "client", "c", "c", &proof));
    assert_eq!(auth.compute_proof("client", "c", "c", &nonce), proof);
}

#[test]
fn auth_key_selection() {
    let k = load_or_create_auth_key("given", false, "");
    assert_eq!((k.key.as_str(), k.write), ("given", true));
    let k = load_or_create_auth_key("given", true, "other");
    assert_eq!((k.key.as_str(), k.write), ("given", false));
    let k = load_or_create_auth_key("", true, "  from-file \n");
    assert_eq!((k.key.as_str(), k.write), ("from-file", false));
    let k = load_or_create_auth_key("", true, "  \n");
    assert_eq!(k.key.len(), 64);
    assert!(k.write);
}

#[test]
fn listen_addresses() {
    let cfg = ServerConfig::default();
    assert_eq!(cfg.control_addr(), "0.0.0.0:7710");
    assert!(cfg.web_addr().ends_with(&format!(":{}", cfg.web_port)));
    let mut c = ServerConfig::default();
    c.tcpmux_port = 0;
    assert!(c.tcpmux_addr().is_none());
    c.tcpmux_port = 1337;
    assert_eq!(c.tcpmux_addr(), Some("0.0.0.0:1337".to_string()));
    assert_eq!(config_format(Some("toml")), Some(ConfigFormat::Toml));
    assert_eq!(config_format(Some("yml")), Some(ConfigFormat::Yaml));
    assert_eq!(config_format(Some("json")), Some(ConfigFormat::Json));
}

fn client_hello(name: &[u8]) -> Vec<u8> {
    let mut ext = Vec::new();
    ext.extend_from_slice(&[0, 0]);
    let list_len = 3 + name.len();
    ext.extend_from_slice(&((list_len + 2) as u16).to_be_bytes());
    ext.extend_from_slice(&(list_len as u16).to_be_bytes());
    ext.push(0);
    ext.extend_from_slice(&(name.len() as u16).to_be_bytes());
    ext.extend_from_slice(name);

    let mut hs = vec![0x01, 0, 0, 0, 0x03, 0x03];
    hs.extend_from_slice(&[7u8; 32]);
    hs.push(0);
    hs.extend_from_slice(&[0, 2, 0x13, 0x01]);
    hs.extend_from_slice(&[1, 0]);
    hs.extend_from_slice(&((ext.len()) as u16).to_be_bytes());
    hs.extend_from_slice(&ext);

    let mut rec = vec![0x16, 0x03, 0x01];
    rec.extend_from_slice(&(hs.len() as u16).to_be_bytes());
    rec.extend_from_slice(&hs);
    rec
}

#[test]
fn server_name_of_a_client_hello() {
    let hello = client_hello(b"example.com");
    assert_eq!(parse_sni(&hello).as_deref(), Some("example.com"));
    assert!(parse_sni(&hello[..43]).is_none());
    let mut not_tls = hello.clone();
    not_tls[0] = 0x17;
    assert!(parse_sni(&not_tls).is_none());
    assert!(parse_sni(&client_hello(&[0xff, 0xfe])).is_none());
    match sni_read_step(&hello) {
        SniRead::Found(n) => assert_eq!(n, "example.com"),
        _ => panic!("the name is found"),
    }
    assert!(matches!(sni_read_step(&hello[..20]), SniRead::More));
    assert!(matches!(sni_read_step(&vec![0u8; 4096]), SniRead::GiveUp));
}

#[test]
fn host_of_an_http_request() {
    let req = b"GET / HTTP/1.1\r\nUser-Agent: x\r\nHOST: Example.com:8080\r\n\r\n";
    assert_eq!(extract_host(req).as_deref(), Some("Example.com"));
    assert_eq!(extract_host(b"GET / HTTP/1.1\r\nHost:   a.b  \r\n\r\n").as_deref(), Some("a.b"));
    assert!(extract_host(b"GET / HTTP/1.1\r\nAccept: */*\r\n\r\n").is_none());
    assert!(extract_host(b"GET / HTTP/1.1\r\nHost: a\r\n").is_none());
}

#[test]
fn basic_credentials_of_an_http_request() {
    // "user:pass"
    let req = b"GET / HTTP/1.1\r\nProxy-Authorization: Basic dXNlcjpwYXNz\r\n\r\n";
    assert!(check_basic_auth(req, "user", "pass"));
    assert!(!check_basic_auth(req, "user", "other"));
    let lower = b"GET / HTTP/1.1\r\nauthorization: basic dXNlcjpwYXNz\r\n\r\n";
    assert!(check_basic_auth(lower, "user", "pass"));
    // "user" without a colon: the password is empty.
    let no_colon = b"GET / HTTP/1.1\r\nAuthorization: Basic dXNlcg==\r\n\r\n";
    assert!(check_basic_auth(no_colon, "user", ""));
    // An undecodable token is skipped; a later line decides.
    let two = b"GET / HTTP/1.1\r\nAuthorization: Basic !!!\r\nAuthorization: Basic dXNlcjpwYXNz\r\n\r\n";
    assert!(check_basic_auth(two, "user", "pass"));
    assert!(!check_basic_auth(b"GET / HTTP/1.1\r\nHost: a\r\n\r\n", "user", "pass"));
}

#[test]
fn head_rewrite_replaces_the_host_and_appends_headers() {
    let head = b"GET /x HTTP/1.1\r\nhost: old\r\nAccept: */*\r\n\r\n";
    let extra = vec![("X-A".to_string(), "1".to_string())];
    let out = rewrite_head(head, "new.example", &extra);
    assert_eq!(
        out,
        b"GET /x HTTP/1.1\r\nHost: new.example\r\nAccept: */*\r\n\r\n\r\nX-A: 1\r\n".to_vec()
    );
    assert_eq!(forwarded_head(head, &None, &extra), head.to_vec());
    let bad = [0xffu8, b'\r', b'\n'];
    assert_eq!(rewrite_head(&bad, "h", &extra), bad.to_vec());
}

#[test]
fn vhost_routing_and_head_reading() {
    let mut state = Registry::new(60000, 60010, 0);
    let svc = Service {
        name: "site".to_string(),
        ty: Some("http".to_string()),
        host: Some("a.example".to_string()),
        http_user: Some("user".to_string()),
        http_password: Some("pass".to_string()),
        ..Default::default()
    };
    state.register_services("c", 1, vec![svc], 0);
    let ok = b"GET / HTTP/1.1\r\nHost: a.example\r\nAuthorization: Basic dXNlcjpwYXNz\r\n\r\n";
    let bare = b"GET / HTTP/1.1\r\nHost: a.example\r\n\r\n";
    assert_eq!(route_http(state.get_service_by_host("a.example"), ok), VhostRoute::Forward);
    assert_eq!(route_http(state.get_service_by_host("a.example"), bare), VhostRoute::AuthRequired);
    assert_eq!(route_http(None, ok), VhostRoute::NotFound);
    assert_eq!(head_step(&b"GET / HTTP/1.1\r\n\r\n".to_vec()), HeadStep::Complete);
    assert_eq!(head_step(&b"GET".to_vec()), HeadStep::More);
    assert_eq!(head_step(&vec![b'a'; 65537]), HeadStep::TooLarge);
}

#[test]
fn tcpmux_connect_requests() {
    assert_eq!(connect_host("CONNECT a.example:443 HTTP/1.1\r\n").as_deref(), Some("a.example"));
    assert_eq!(connect_host("connect  b.example HTTP/1.1").as_deref(), Some("b.example"));
    assert_eq!(connect_host("CONNECT").as_deref(), Some(""));
    assert!(connect_host("GET / HTTP/1.1").is_none());
    assert!(connect_host("").is_none());
    assert_eq!(connect_host_of_bytes(b"CONNECT h:1 HTTP/1.1\r\n").as_deref(), Some("h"));
    assert_eq!(line_read_step(&b"CONNECT x\r\n".to_vec()), LineRead::Complete);
    assert_eq!(line_read_step(&b"CONNECT x".to_vec()), LineRead::More);
    assert_eq!(line_read_step(&vec![b'a'; 8193]), LineRead::TooLarge);
}

fn v4(a: [u8; 4], port: u16) -> SocketAddress {
    SocketAddress { ip: IpAddress::V4(a), port }
}

#[test]
fn proxy_protocol_headers() {
    let src = v4([192, 168, 0, 1], 56324);
    let dst = v4([10, 0, 0, 2], 443);
    let v1 = build_v1_header(&src, &dst, "192.168.0.1", "10.0.0.2");
    assert_eq!(v1, b"PROXY TCP4 192.168.0.1 10.0.0.2 56324 443\r\n".to_vec());
    let v2 = build_v2_header(&src, &dst);
    assert_eq!(
        &v2[..12],
        &[0x0D, 0x0A, 0x0D, 0x0A, 0x00, 0x0D, 0x0A, 0x51, 0x55, 0x49, 0x54, 0x0A]
    );
    assert_eq!(v2[12], 0x21);
    assert_eq!(v2[13], 0x11);
    assert_eq!(&v2[14..16], &[0, 12]);
    // Both addresses, then both ports.
    assert_eq!(&v2[16..20], &[192, 168, 0, 1]);
    assert_eq!(&v2[20..24], &[10, 0, 0, 2]);
    assert_eq!(&v2[24..26], &56324u16.to_be_bytes());
    assert_eq!(&v2[26..28], &443u16.to_be_bytes());
    assert_eq!(v2.len(), 28);
    assert_eq!(build_header("v2", &src, &dst, "192.168.0.1", "10.0.0.2"), v2);
    assert_eq!(build_header("v1", &src, &dst, "192.168.0.1", "10.0.0.2"), v1);
}

#[test]
fn control_session_decisions() {
    assert_eq!(first_kind("client"), FirstKind::Client);
    assert_eq!(first_kind("tunnel"), FirstKind::Tunnel);
    assert_eq!(first_kind("visitor"), FirstKind::Visitor);
    assert_eq!(first_kind("other"), FirstKind::Unknown);
    assert_eq!(initial_line_step(10, b'\n'), LineStep::Done);
    assert_eq!(initial_line_step(16384, b'a'), LineStep::TooLong);
    assert_eq!(initial_line_step(10, b'a'), LineStep::Push);

    let hello = Message::new_client_hello("c1", Vec::new());
    assert_eq!(client_id_of(&hello).unwrap(), "c1");
    assert!(matches!(
        client_id_of(&Message::new_client_hello("", Vec::new())),
        Err(ControlError::EmptyClientId)
    ));
    assert_eq!(auth_proof(&Message::new_auth("p")).unwrap(), "p");
    assert!(matches!(auth_proof(&Message::new_ping()), Err(ControlError::ExpectedAuth(t)) if t == "ping"));
    let mut no_proof = Message::new_auth("p");
    no_proof.proof = None;
    assert!(matches!(auth_proof(&no_proof), Err(ControlError::MissingProof)));

    assert!(matches!(control_action(&Message::new_ping()), ControlAction::SendPong));
    match control_action(&Message::new_health("web", false)) {
        ControlAction::ReportHealth(n, h) => assert_eq!((n.as_str(), h), ("web", false)),
        _ => panic!("a health message is recorded"),
    }
    match control_action(&Message::new_udp_response(53, "1.1.1.1:53", vec![9])) {
        ControlAction::UdpResponse(p, a, d) => assert_eq!((p, a.as_str(), d), (53, "1.1.1.1:53", vec![9])),
        _ => panic!("a udp reply is forwarded"),
    }
    assert!(matches!(control_action(&Message::new_pong()), ControlAction::Nothing));

    assert!(!idle_session_ends(60_000, 0));
    assert!(idle_session_ends(60_001, 0));
    assert!(!idle_session_ends(5, 10));
    assert_eq!(challenge_key("visitor", "v1"), "visitor:v1");
    assert_eq!(tunnel_id_of(&Message::new_tunnel_hello("t")).unwrap(), "t");
    assert!(tunnel_id_of(&Message::new_tunnel_hello("")).is_err());
    let (c, s, i) = visitor_ids(&Message::new_visitor_hello("c", "svc", None));
    assert_eq!((c.as_str(), s.as_str(), i.as_str()), ("c", "svc", ""));

    match tunnel_outcome("t9", false, true) {
        TunnelOutcome::AuthFailed(m) => {
            assert_eq!(m.ty, "reject");
            assert_eq!(m.error.as_deref(), Some("auth failed"));
        },
        _ => panic!("a bad proof is refused"),
    }
    assert!(matches!(tunnel_outcome("t9", true, true), TunnelOutcome::Attach(m) if m.ty == "ready"));
    assert!(matches!(tunnel_outcome("t9", true, false), TunnelOutcome::NoPendingWork(m) if m.error.as_deref() == Some("no pending work")));
}

#[test]
fn listeners_a_service_needs() {
    let tcp = Service { remote_port: 6000, ..test_service() };
    assert_eq!(listener_action(&tcp, false, true), ListenerAction::StartTcp(6000));
    assert_eq!(listener_action(&tcp, true, true), ListenerAction::Nothing);
    let udp = Service { ty: Some("udp".to_string()), remote_port: 53, ..test_service() };
    assert_eq!(listener_action(&udp, false, true), ListenerAction::StartUdp(53));
    assert_eq!(listener_action(&udp, false, false), ListenerAction::Nothing);
    let http = Service { ty: Some("http".to_string()), remote_port: 80, ..test_service() };
    assert_eq!(listener_action(&http, false, true), ListenerAction::Nothing);
}

#[test]
fn metric_histories_keep_the_latest_points() {
    let mut m = MetricsHistory::new();
    for ts in 0..605u64 {
        m.push(MetricPoint {
            ts,
            total_tx: 0,
            total_rx: 0,
            total_conns: 0,
            active_clients: 0,
            active_services: 0,
            bandwidth_tx: 0,
            bandwidth_rx: 0,
        });
    }
    assert_eq!(m.history.len(), 600);
    assert_eq!(m.history[0].ts, 5);
    let last = m.get_history(Some(2));
    assert_eq!(last.iter().map(|p| p.ts).collect::<Vec<_>>(), vec![603, 604]);
    assert_eq!(m.get_history(None).len(), 600);

    let p = |ts: u64, tx: u64| ServiceMetricPoint { ts, conns: 1, tx, rx: 2 * tx, bw_tx: 0, bw_rx: 0 };
    m.push_service("a", p(1, 10));
    m.push_service("b", p(1, 5));
    m.push_service("a", p(2, 30));
    assert_eq!(m.last_counters("a"), Some((30, 60)));
    assert_eq!(m.get_service_history("a", None).len(), 2);
    assert_eq!(m.get_service_history("a", Some(1))[0].ts, 2);
    assert!(m.get_service_history("zzz", None).is_empty());
    m.retain_services(&vec!["b".to_string()]);
    assert!(m.last_counters("a").is_none());
    assert_eq!(m.last_counters("b"), Some((5, 10)));
    assert_eq!(counter_delta(10, 4), 6);
    assert_eq!(counter_delta(4, 10), 0);
}

#[test]
fn totals_over_services() {
    let mut state = Registry::new(60000, 60010, 0);
    let a = Service { name: "a".to_string(), remote_port: 0, ..test_service() };
    let b = Service { name: "b".to_string(), remote_port: 0, ..test_service() };
    state.register_services("c", 1, vec![a, b], 0);
    state.record_traffic("a", 5, 6);
    state.record_traffic("b", 7, 8);
    state.admit_inbound("b").unwrap();
    assert_eq!(collect_totals(&state.services), (12, 14, 1));
}

#[test]
fn api_access_rules() {
    assert!(check_api_token(Some("Bearer tok"), None, "tok"));
    assert!(!check_api_token(Some("Bearer bad"), None, "tok"));
    assert!(check_api_token(None, Some("a=1&token=tok"), "tok"));
    assert!(!check_api_token(None, Some("a=1"), "tok"));
    assert!(!check_api_token(None, None, ""));
    assert_eq!(token_in_query("x=2&token=abc&token=def").as_deref(), Some("abc"));
    assert_eq!(session_token("a=1; session=xyz; b=2").as_deref(), Some("xyz"));
    assert_eq!(session_token("session=one; session=two").as_deref(), Some("two"));
    assert!(session_token("a=1").is_none());
    assert!(login_allowed("", "", "anyone", "x"));
    assert!(login_allowed("u", "p", "u", "p"));
    assert!(!login_allowed("u", "p", "u", "q"));

    let mut sessions = Sessions::new();
    sessions.insert("tok1".to_string(), 1000);
    assert!(sessions.is_valid("tok1", 1000));
    assert!(sessions.is_valid("tok1", 1000 + 86_399));
    assert!(!sessions.is_valid("tok1", 1000 + 86_400));
    sessions.insert("tok1".to_string(), 200_000);
    assert!(sessions.is_valid("tok1", 200_000));
    assert_eq!(sessions.entries.len(), 1);
    sessions.cleanup(200_000 + 86_400);
    assert!(sessions.entries.is_empty());

    let mut s = Sessions::new();
    s.insert("abc".to_string(), 50);
    assert!(request_authorized(&s, "", "admin", None, None, "session=abc", 60));
    assert!(!request_authorized(&s, "", "admin", None, None, "session=nope", 60));
    assert!(request_authorized(&s, "", "", None, None, "", 60));
    assert!(request_authorized(&s, "t", "admin", Some("Bearer t"), None, "", 60));
}

#[test]
fn basic_credentials_written_with_base64_are_read_back() {
    for (user, pass) in [("admin", "s3cret:with:colons"), ("ünï", "pässwörd"), ("u", "")] {
        let token = base64::engine::general_purpose::STANDARD.encode(format!("{user}:{pass}").as_bytes());
        let req = format!("GET / HTTP/1.1\r\nHost: a\r\nAuthorization: Basic {token}\r\n\r\n");
        assert!(check_basic_auth(req.as_bytes(), user, pass));
        assert!(!check_basic_auth(req.as_bytes(), user, "nope"));
        assert!(!check_basic_auth(req.as_bytes(), "someone", pass));
    }
}

#[test]
fn v2_header_carries_the_peer() {
    let src = SocketAddress { ip: IpAddress::V4([203, 0, 113, 7]), port: 51234 };
    let dst = SocketAddress { ip: IpAddress::V4([10, 0, 0, 2]), port: 7712 };
    let h = build_v2_header(&src, &dst);
    assert_eq!(h.len(), 28);
    assert_eq!(&h[16..20], &[203, 0, 113, 7]);
    assert_eq!(&h[20..24], &[10, 0, 0, 2]);
    assert_eq!(&h[24..26], &51234u16.to_be_bytes());
    assert_eq!(&h[26..28], &7712u16.to_be_bytes());
    let example = build_v2_header(
        &SocketAddress { ip: IpAddress::V4([1, 2, 3, 4]), port: 5678 },
        &SocketAddress { ip: IpAddress::V4([10, 0, 0, 1]), port: 80 },
    );
    assert_eq!(&example[12..], &[0x21, 0x11, 0x00, 0x0c, 1, 2, 3, 4, 10, 0, 0, 1, 0x16, 0x2e, 0x00, 0x50]);
    let mut a = [0u8; 16];
    a[15] = 1;
    let src6 = SocketAddress { ip: IpAddress::V6(a), port: 1 };
    let dst6 = SocketAddress { ip: IpAddress::V6([0xfe; 16]), port: 2 };
    let h6 = build_v2_header(&src6, &dst6);
    assert_eq!(h6.len(), 52);
    assert_eq!(&h6[16..32], &a);
    assert_eq!(&h6[32..48], &[0xfe; 16]);
    assert_eq!(&h6[48..52], &[0, 1, 0, 2]);
    let mixed = build_v2_header(&src, &dst6);
    assert_eq!(&mixed[12..], &[0x20, 0x00, 0x00, 0x00]);
}

#[test]
fn each_way_of_presenting_credentials_opens_the_api() {
    let mut s = Sessions::new();
    let token = cross233::protocol::encoding::random_id();
    s.insert(token.clone(), 1_000);
    let cookie = format!("session={token}");
    assert!(request_authorized(&s, "apitok", "admin", None, None, &cookie, 1_001));
    assert!(request_authorized(&s, "apitok", "admin", Some("Bearer apitok"), None, "", 1_001));
    assert!(request_authorized(&s, "apitok", "admin", None, Some("token=apitok"), "", 1_001));
    assert!(!request_authorized(&s, "apitok", "admin", Some("Bearer wrong"), None, "", 1_001));
    assert!(!request_authorized(&s, "apitok", "admin", None, Some("token=wrong"), "", 1_001));
    assert!(!request_authorized(&s, "apitok", "admin", None, None, &cookie, 1_000 + 86_400));
    assert!(!request_authorized(&s, "", "admin", Some("Bearer "), Some("token="), "", 1_001));
}

#[test]
fn subdomain_matches_the_whole_first_label() {
    let mut state = Registry::new(60000, 60010, 0);
    let web = Service {
        name: "web".to_string(),
        ty: Some("http".to_string()),
        local_addr: "127.0.0.1:8080".to_string(),
        subdomain: Some("myapp".to_string()),
        ..Default::default()
    };
    state.register_services("c", 1, vec![web], 0);
    assert_eq!(state.get_service_by_host("myapp.example.com").map(|e| e.config.name.clone()).as_deref(), Some("web"));
    assert_eq!(state.get_service_by_host("MyApp.example.com").map(|e| e.config.name.clone()).as_deref(), Some("web"));
    assert_eq!(state.get_service_by_host("myapp").map(|e| e.config.name.clone()).as_deref(), Some("web"));
    assert!(state.get_service_by_host("myapp2.example.com").is_none());
    assert!(state.get_service_by_host("myappexample.com").is_none());
}

fn tcp(name: &str, port: u16) -> Service {
    Service {
        name: name.to_string(),
        ty: Some("tcp".to_string()),
        local_addr: "127.0.0.1:1".to_string(),
        remote_port: port,
        ..Default::default()
    }
}

#[test]
fn protected_and_taken_ports_are_refused() {
    let mut state = Registry::new(7712, 7720, 7713);
    let first = state.register_services("A", 1, vec![tcp("a", 7000)], 0);
    assert_eq!(first.len(), 1);
    let second = state.register_services("B", 2, vec![tcp("ssh", 22), tcp("b", 7000), tcp("c", 7001)], 0);
    assert_eq!(second.len(), 1);
    assert_eq!(second[0].name, "c");
    assert!(state.get_service_by_name("ssh").is_none());
    assert!(state.get_service_by_name("b").is_none());
    assert_eq!(state.get_service_name_by_port(7000).as_deref(), Some("a"));
    // The holder itself may register its port again.
    assert_eq!(state.register_services("A", 3, vec![tcp("a", 7000)], 0).len(), 1);
    // Port 22 is never allocated automatically either.
    let mut low = Registry::new(22, 23, 0);
    let out = low.register_services("A", 1, vec![tcp("x", 0), tcp("y", 0)], 0);
    assert_eq!(out[0].remote_port, 23);
    assert_eq!(out[1].remote_port, 0);
}

#[test]
fn automatic_port_is_reused_on_reconnect() {
    let mut state = Registry::new(7712, 7720, 7713);
    let r1 = state.register_services("A", 1, vec![tcp("x", 0)], 0);
    let first = r1[0].remote_port;
    assert!((7712..=7720).contains(&first));
    let r2 = state.register_services("A", 2, vec![tcp("x", 0)], 0);
    assert_eq!(r2[0].remote_port, first);
    assert_eq!(state.ports.len(), 1);
    assert_eq!(state.services.len(), 1);
}

#[test]
fn listener_survives_client_reconnect() {
    let mut state = Registry::new(60080, 60080, 0);
    let out = state.register_services("client", 1, vec![test_service()], 0);
    assert_eq!(out.len(), 1);
    state.mark_listener_active(60080);
    state.unregister_client("client");
    assert!(state.is_listener_active(60080));
    assert!(state.get_service_by_name("session-test").is_none());
    let out = state.register_services("client", 2, vec![test_service()], 0);
    assert_eq!(out.len(), 1);
    assert!(state.is_listener_active(60080));
    assert_eq!(state.get_service_name_by_port(60080), Some("session-test".to_string()));
    let entry = state.get_service_by_name("session-test").unwrap();
    assert_eq!(entry.session, 2);
    assert_eq!(entry.client_id, "client");
}

#[test]
fn empty_port_range_gives_no_automatic_port() {
    let mut state = Registry::new(7720, 7712, 0);
    let out = state.register_services("A", 1, vec![tcp("x", 0)], 0);
    assert_eq!(out.len(), 1);
    assert_eq!(out[0].remote_port, 0);
    assert!(state.ports.is_empty());
    // A port asked for is still given.
    let out = state.register_services("A", 1, vec![tcp("y", 7000)], 0);
    assert_eq!(out[0].remote_port, 7000);
}

#[test]
fn widest_port_range_allocates_from_its_start() {
    // The counter starts at the range's start, so the first port is
    // start + (start mod size).
    let mut state = Registry::new(1, 65535, 0);
    let out = state.register_services("A", 1, vec![tcp("x", 0), tcp("y", 0)], 0);
    assert_eq!(out[0].remote_port, 2);
    assert_eq!(out[1].remote_port, 3);
}
