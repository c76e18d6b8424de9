use cross233::client::qcp::{server_host, tunnel_host, AddressError};
use cross233::client::static_files::{hex_value, percent_decode, plan_path, PathError};
use cross233::client::transport::{
    CacheFile, ChoiceSource, TransportCache, TransportKind, TransportMode,
};

#[test]
fn extracts_ipv4_hostname_and_ipv6_hosts() {
    assert_eq!(server_host("127.0.0.1:7710").unwrap(), "127.0.0.1");
    assert_eq!(server_host("server.example:7710").unwrap(), "server.example");
    assert_eq!(server_host("[2001:db8::1]:7710").unwrap(), "2001:db8::1");
    assert!(server_host("bad-address").is_err());
}

#[test]
fn server_host_errors_name_their_cause() {
    assert_eq!(server_host("[::1"), Err(AddressError::BadBracket));
    assert_eq!(server_host("[::1]7710"), Err(AddressError::NoPort));
    assert_eq!(server_host(":7710"), Err(AddressError::Invalid));
    assert_eq!(server_host("host:"), Err(AddressError::Invalid));
    assert_eq!(
        AddressError::NoPort.message("bad-address"),
        "server address must include a port: bad-address"
    );
    assert_eq!(tunnel_host("127.0.0.1:7710", 0), Err(AddressError::TunnelDisabled));
    assert_eq!(tunnel_host("127.0.0.1:7710", 7714).unwrap(), "127.0.0.1");
}

#[test]
fn decodes_url_paths() {
    assert_eq!(
        percent_decode("/hello%20world.txt"),
        Some("/hello world.txt".to_string())
    );
    assert_eq!(percent_decode("/%ZZ"), None);
}

#[test]
fn percent_decoding_edge_cases() {
    assert_eq!(percent_decode("/a%2"), None);
    assert_eq!(percent_decode("/%C3%A9"), Some("/\u{e9}".to_string()));
    assert_eq!(percent_decode("/%ff"), None);
    assert_eq!(hex_value(b'7'), Some(7));
    assert_eq!(hex_value(b'b'), Some(11));
    assert_eq!(hex_value(b'F'), Some(15));
    assert_eq!(hex_value(b'g'), None);
}

#[test]
fn rejects_path_traversal_before_file_lookup() {
    assert_eq!(plan_path("/../secret"), Err(PathError::BadRequest));
    assert_eq!(plan_path("/%2e%2e/secret"), Err(PathError::BadRequest));
    assert_eq!(plan_path("/C:%5cWindows"), Err(PathError::BadRequest));
    assert_eq!(plan_path("relative"), Err(PathError::BadRequest));
    let (parts, index) = plan_path("/docs/./a%20b/?q=1").unwrap();
    assert_eq!(parts, vec!["docs".to_string(), "a b".to_string()]);
    assert!(index);
    let (parts, index) = plan_path("/index.html").unwrap();
    assert_eq!(parts, vec!["index.html".to_string()]);
    assert!(!index);
}

#[test]
fn parses_transport_modes() {
    assert_eq!(TransportMode::parse("auto").unwrap(), TransportMode::Auto);
    assert_eq!(TransportMode::parse("TCP").unwrap(), TransportMode::Tcp);
    assert!(TransportMode::parse("udp").is_err());
}

#[test]
fn transport_mode_edge_cases() {
    assert_eq!(TransportMode::parse("  Qcp ").unwrap(), TransportMode::Qcp);
    assert_eq!(TransportMode::parse("").unwrap(), TransportMode::Tcp);
    let e = TransportMode::parse(" UDP ").unwrap_err();
    assert_eq!(e.value, "udp");
    assert_eq!(
        e.message(),
        "invalid transport 'udp': expected auto, tcp, or qcp"
    );
}

#[test]
fn auto_prefers_qcp_then_tcp_without_cache() {
    let cache = TransportCache::new("/nonexistent/cross233-no-such-cache.json", 60);
    let choices = cache.choices(TransportMode::Auto, None, "test", 1000);
    assert_eq!(choices[0].kind, TransportKind::Qcp);
    assert_eq!(choices[0].source, ChoiceSource::Probe);
    assert_eq!(choices[1].kind, TransportKind::Tcp);
}

#[test]
fn cached_success_is_reused_and_does_not_include_credentials() {
    let cache = TransportCache::new(".cross233/transport-cache.json", 60);
    let key = TransportCache::key("127.0.0.1:7710", "cross233", 7714);
    assert_eq!(key, "v1|server=127.0.0.1:7710|server_name=cross233|qcp_tunnel_port=7714");
    let file = cache.note_success(None, &key, TransportKind::Qcp, 5000);
    let choices = cache.choices(TransportMode::Auto, Some(&file), &key, 5030);
    assert_eq!(choices[0].kind, TransportKind::Qcp);
    assert_eq!(choices[0].source, ChoiceSource::Cache);
    assert_eq!(choices[1].kind, TransportKind::Tcp);
    assert_eq!(choices[1].source, ChoiceSource::Fallback);
    assert!(!key.contains("auth_key"));
    assert!(!key.contains("secret"));
    // Too old: probe again.
    let choices = cache.choices(TransportMode::Auto, Some(&file), &key, 5061);
    assert_eq!(choices[0].source, ChoiceSource::Probe);
}

#[test]
fn expired_cache_reprobes_qcp() {
    let cache = TransportCache::new("transport-cache.json", 0);
    let file = cache.note_success(None, "key", TransportKind::Tcp, 10);
    let choices = cache.choices(TransportMode::Auto, Some(&file), "key", 10);
    assert_eq!(choices[0].kind, TransportKind::Qcp);
    assert_eq!(choices[0].source, ChoiceSource::Probe);
}

#[test]
fn forced_modes_and_failures() {
    let cache = TransportCache::new("c.json", 60);
    let c = cache.choices(TransportMode::Tcp, None, "k", 0);
    assert_eq!(c.len(), 1);
    assert_eq!(c[0].source, ChoiceSource::Forced);
    let long = "x".repeat(300);
    let file = cache.note_failure(None, "k", TransportKind::Qcp, &long);
    assert_eq!(file.version, 1);
    assert_eq!(file.entries.len(), 1);
    assert_eq!(file.entries[0].1.qcp_error.as_ref().unwrap().len(), 240);
    let file = cache.note_success(Some(file), "k", TransportKind::Qcp, 7);
    assert_eq!(file.entries.len(), 1);
    assert!(file.entries[0].1.qcp_error.is_none());
    assert_eq!(file.entries[0].1.selected, "qcp");
    let stale = CacheFile { version: 0, entries: Vec::new() };
    assert_eq!(cache.preferred(Some(&stale), "k", 7), None);
    assert_eq!(TransportKind::Qcp.alternate(), TransportKind::Tcp);
    assert_eq!(TransportKind::Tcp.as_str(), "tcp");
    assert_eq!(ChoiceSource::Fallback.as_str(), "fallback");
}
