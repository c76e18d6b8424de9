use cross233::protocol::tls::{
    cert_fingerprint, client_identity, client_trust, load_cert, load_cert_key_der, load_trusted_cert_der,
    CertError, IdentityError, KeyFormat, Trust,
};
use sha2::Digest;
use base64::Engine;
use cross233::protocol::crypto::{compute_proof, generate_nonce, proof_from_tag, verify_proof};
use cross233::protocol::encoding::{random_bytes, random_id};
use cross233::protocol::msg::{Message, Service};
use cross233::protocol::net::{cidr_contains, push_octets, push_port, IpAddress, SocketAddress};
use hmac::Mac;

#[test]
fn proofs_are_standard_padded_base64() {
    assert_eq!(proof_from_tag(b""), "");
    assert_eq!(proof_from_tag(b"f"), "Zg==");
    assert_eq!(proof_from_tag(b"fo"), "Zm8=");
    assert_eq!(proof_from_tag(b"foo"), "Zm9v");
    assert_eq!(proof_from_tag(b"foobar"), "Zm9vYmFy");
    let data: Vec<u8> = (0..=255u8).collect();
    assert_eq!(proof_from_tag(&data), base64::engine::general_purpose::STANDARD.encode(&data));
}

fn reference_proof(key: &str, ty: &str, client_id: &str, id: &str, nonce: &str) -> String {
    let mut msg = b"cross233/v1".to_vec();
    for part in [ty, client_id, id, nonce] {
        msg.push(0);
        msg.extend_from_slice(part.as_bytes());
    }
    let mut mac = hmac::Hmac::<sha2::Sha256>::new_from_slice(key.as_bytes()).unwrap();
    mac.update(&msg);
    base64::engine::general_purpose::STANDARD.encode(mac.finalize().into_bytes())
}

#[test]
fn proof_is_the_base64_hmac_of_the_hello_fields() {
    let p = compute_proof("test-key", "client", "client-1", "client-1", "nonce");
    assert_eq!(p, reference_proof("test-key", "client", "client-1", "client-1", "nonce"));
    assert_eq!(p.len(), 44);
    assert!(verify_proof("test-key", "client", "client-1", "client-1", "nonce", &p));
    assert!(!verify_proof("other-key", "client", "client-1", "client-1", "nonce", &p));
    assert!(!verify_proof("test-key", "tunnel", "client-1", "client-1", "nonce", &p));
    assert!(!verify_proof("test-key", "client", "client-1", "client-1", "nonce2", &p));
    assert_eq!(proof_from_tag(&[0, 0, 0]), "AAAA");
}

#[test]
fn random_values_have_their_shape() {
    assert_eq!(random_bytes(7).len(), 7);
    let id = random_id();
    assert_eq!(id.len(), 32);
    assert!(id.chars().all(|c| c.is_ascii_hexdigit() && !c.is_ascii_uppercase()));
    let n = generate_nonce();
    assert_eq!(n.len(), 32);
    assert_ne!(random_id(), random_id());
}

#[test]
fn message_constructors_fill_their_fields() {
    let svc = Service {
        name: "web".to_string(),
        ty: Some("tcp".to_string()),
        local_addr: "127.0.0.1:80".to_string(),
        remote_port: 60080,
        ..Default::default()
    };
    let hello = Message::new_client_hello("c1", vec![svc.clone()]);
    assert_eq!(hello.ty, "client");
    assert_eq!(hello.client_id.as_deref(), Some("c1"));
    assert_eq!(hello.services.len(), 1);
    assert_eq!(hello.services[0].remote_port, 60080);
    assert!(hello.nonce.is_none() && hello.proof.is_none());

    let ch = Message::new_challenge("n");
    assert_eq!((ch.ty.as_str(), ch.nonce.as_deref()), ("challenge", Some("n")));
    let auth = Message::new_auth("p");
    assert_eq!((auth.ty.as_str(), auth.proof.as_deref()), ("auth", Some("p")));
    let ready = Message::new_ready(Vec::new(), 7713, 7714);
    assert_eq!(ready.ty, "ready");
    assert_eq!(ready.qcp_port, Some(7713));
    assert_eq!(ready.qcp_tunnel_port, Some(7714));
    let reject = Message::new_reject("t1", "no pending work");
    assert_eq!(reject.ty, "reject");
    assert_eq!(reject.id.as_deref(), Some("t1"));
    assert_eq!(reject.error.as_deref(), Some("no pending work"));
    let open = Message::new_open("t2", "1.2.3.4:5", "127.0.0.1:80", svc.clone());
    assert_eq!(open.ty, "open");
    assert_eq!(open.address.as_deref(), Some("1.2.3.4:5"));
    assert_eq!(open.local_address.as_deref(), Some("127.0.0.1:80"));
    assert_eq!(open.service.as_ref().map(|s| s.name.as_str()), Some("web"));
    let h = Message::new_health("web", false);
    assert_eq!((h.ty.as_str(), h.healthy), ("health", Some(false)));
    let u = Message::new_udp_response(53, "8.8.8.8:53", vec![1, 2]);
    assert_eq!(u.ty, "udp_response");
    assert_eq!(u.remote_port, Some(53));
    assert_eq!(u.data, Some(vec![1, 2]));
    assert_eq!(Message::new_ping().ty, "ping");
    assert_eq!(Message::new_pong().ty, "pong");
    assert_eq!(Message::new_close("bye").error.as_deref(), Some("bye"));
    let t = Message::new_tunnel_hello("t3");
    assert_eq!((t.ty.as_str(), t.id.as_deref()), ("tunnel", Some("t3")));
    let v = Message::new_visitor_hello("c", "secret", Some("v1"));
    assert_eq!(v.ty, "visitor");
    assert_eq!(v.service_name.as_deref(), Some("secret"));
    assert_eq!(v.id.as_deref(), Some("v1"));
}

#[test]
fn service_type_predicates() {
    let mut s = Service::default();
    assert_eq!(s.effective_type(), "tcp");
    assert!(s.is_tcp() && !s.is_udp() && !s.is_vhost());
    s.ty = Some("udp".to_string());
    assert!(s.is_udp());
    s.ty = Some("http".to_string());
    assert!(s.is_vhost() && s.is_tcp());
    s.ty = Some("stcp".to_string());
    assert!(s.is_private());
    assert!(s.is_enabled());
    s.enabled = Some(false);
    assert!(!s.is_enabled());
}

#[test]
fn socket_address_bytes() {
    let a = SocketAddress { ip: IpAddress::V4([10, 0, 0, 1]), port: 0x1f90 };
    let mut buf = Vec::new();
    push_octets(&mut buf, &a);
    push_port(&mut buf, a.port);
    assert_eq!(buf, vec![10, 0, 0, 1, 0x1f, 0x90]);
    let b = SocketAddress { ip: IpAddress::V6([0; 16]), port: 1 };
    let mut buf = Vec::new();
    push_octets(&mut buf, &b);
    assert_eq!(buf.len(), 16);
}

fn nets(v: &[&str]) -> Vec<String> {
    v.iter().map(|s| s.to_string()).collect()
}

#[test]
fn cidr_contains_matches_the_network_prefix() {
    let ip = IpAddress::V4([10, 1, 2, 3]);
    assert!(cidr_contains(&nets(&["10.0.0.0/8"]), ip));
    // The host bits of the written address do not matter.
    assert!(cidr_contains(&nets(&["10.200.0.1/8"]), ip));
    assert!(!cidr_contains(&nets(&["192.168.1.0/24"]), IpAddress::V4([192, 168, 2, 1])));
    assert!(cidr_contains(&nets(&["192.168.0.0/23"]), IpAddress::V4([192, 168, 1, 200])));
    assert!(!cidr_contains(&nets(&["192.168.0.0/23"]), IpAddress::V4([192, 168, 2, 0])));
    assert!(cidr_contains(&nets(&["0.0.0.0/0"]), IpAddress::V4([8, 8, 8, 8])));
    assert!(cidr_contains(&nets(&["8.8.8.8/32"]), IpAddress::V4([8, 8, 8, 8])));
    assert!(!cidr_contains(&nets(&["8.8.8.8/32"]), IpAddress::V4([8, 8, 8, 9])));
}

#[test]
fn cidr_contains_skips_bad_entries_and_other_families() {
    let ip = IpAddress::V4([10, 1, 2, 3]);
    assert!(!cidr_contains(&[], ip));
    assert!(!cidr_contains(&nets(&["not a net", "10.0.0.0/33", "10.0.0.0"]), ip));
    assert!(cidr_contains(&nets(&["garbage", "10.0.0.0/8"]), ip));
    assert!(!cidr_contains(&nets(&["::/0"]), ip));
    let mut v6 = [0u8; 16];
    v6[0] = 0xfd;
    v6[15] = 1;
    assert!(cidr_contains(&nets(&["fd00::/8"]), IpAddress::V6(v6)));
    assert!(!cidr_contains(&nets(&["fe80::/10"]), IpAddress::V6(v6)));
    assert!(!cidr_contains(&nets(&["10.0.0.0/8"]), IpAddress::V6(v6)));
}

#[test]
fn certificate_fingerprint_is_hex_sha256() {
    assert_eq!(
        cert_fingerprint(b"abc"),
        "ba7816bf8f01cfea414140de5dae2223b00361a396177a9cb410ff61f20015ad"
    );
}

#[test]
fn certificate_material_from_pem() {
    let generated = rcgen::generate_simple_self_signed(vec!["cross233".to_string()]).unwrap();
    let cert_pem = generated.cert.pem();
    let key_pem = generated.key_pair.serialize_pem();
    let cert_der = generated.cert.der().as_ref().to_vec();
    let key_der = generated.key_pair.serialize_der();

    let m = load_cert(cert_pem.as_bytes(), key_pem.as_bytes()).unwrap();
    assert_eq!(m.certs, vec![cert_der.clone()]);
    assert_eq!(m.key_format, KeyFormat::Pkcs8);
    assert_eq!(m.key, key_der);
    assert_eq!(m.fingerprint, hex::encode(sha2::Sha256::digest(cert_pem.as_bytes())));
    assert!(matches!(load_cert(cert_pem.as_bytes(), b""), Err(CertError::NoPrivateKey)));
    assert!(matches!(load_cert(b"", key_pem.as_bytes()), Err(CertError::NoCertificates)));
    let bad = b"-----BEGIN CERTIFICATE-----\n!!!!\n-----END CERTIFICATE-----\n";
    assert!(matches!(load_cert(bad, key_pem.as_bytes()), Err(CertError::BadCertificates)));

    assert_eq!(load_trusted_cert_der(cert_pem.as_bytes()), Some(cert_der.clone()));
    assert_eq!(load_trusted_cert_der(key_pem.as_bytes()), None);
    assert_eq!(load_cert_key_der(cert_pem.as_bytes(), key_pem.as_bytes()), Some((cert_der.clone(), key_der.clone())));
    assert_eq!(load_cert_key_der(cert_pem.as_bytes(), cert_pem.as_bytes()), None);

    let both = format!("{cert_pem}{key_pem}");
    let (certs, format, key) = client_identity(both.as_bytes()).unwrap();
    assert_eq!((certs, format, key), (vec![cert_der], KeyFormat::Pkcs8, key_der));
    assert_eq!(client_identity(key_pem.as_bytes()).unwrap_err(), IdentityError::NoCertificate);
    assert_eq!(client_identity(cert_pem.as_bytes()).unwrap_err(), IdentityError::NoPrivateKey);

    assert_eq!(client_trust(false, "").unwrap_err().message(), "ca_file is required unless insecure=true");
    assert!(matches!(client_trust(true, ""), Ok(Trust::AnyServer)));
    assert!(matches!(client_trust(false, "ca.pem"), Ok(Trust::CaFile(f)) if f == "ca.pem"));
}
