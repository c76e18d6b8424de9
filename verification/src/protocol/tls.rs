//! Certificate material for TLS: the certificates and private key read from
//! PEM text (with `rustls_pemfile`), the fingerprint of a certificate file
//! (SHA-256 with `sha2`, in hex), and what the client trusts.  Reading the
//! files and building the `rustls` configurations is the application's.

use super::encoding::{hex_encode, hex_text};
use crate::client::config::ConfigError;
use sha2::Digest;
use vstd::prelude::*;

verus! {

/// The SHA-256 digest of `b`.
pub uninterp spec fn sha256(b: Seq<u8>) -> Seq<u8>;

/// `sha2::Sha256::digest`: the 32-byte digest of `b`.
#[verifier::external_body]
fn sha256_digest(b: &[u8]) -> (d: Vec<u8>)
    ensures
        d@ == sha256(b@),
        d@.len() == 32,
{
    sha2::Sha256::digest(b).to_vec()
}

/// The fingerprint of a certificate file: the SHA-256 digest of its bytes
/// in lowercase hex.
pub fn cert_fingerprint(cert_pem: &[u8]) -> (f: String)
    ensures
        f@ == hex_text(sha256(cert_pem@)),
{
    let d = sha256_digest(cert_pem);
    hex_encode(d.as_slice())
}

/// What `rustls_pemfile::certs` reads from `pem`: the DER of each
/// certificate in order, or `None` when a PEM section is malformed.
pub uninterp spec fn pem_certs(pem: Seq<u8>) -> Option<Seq<Seq<u8>>>;

/// The encodings a private key comes in.
#[derive(Debug, Clone, Copy, PartialEq, Eq, Structural)]
pub enum KeyFormat {
    Pkcs1,
    Pkcs8,
    Sec1,
}

/// What `rustls_pemfile::private_key` reads from `pem`: the first private
/// key, its format and DER; `None` when there is none or a PEM section is
/// malformed.
pub uninterp spec fn pem_key(pem: Seq<u8>) -> Option<(KeyFormat, Seq<u8>)>;

pub open spec fn ders(v: Seq<Vec<u8>>) -> Seq<Seq<u8>> {
    v.map_values(|c: Vec<u8>| c@)
}

/// `rustls_pemfile::certs` over `pem`, each certificate as its DER bytes.
#[verifier::external_body]
fn pem_cert_ders(pem: &[u8]) -> (r: Option<Vec<Vec<u8>>>)
    ensures
        match r {
            Some(v) => pem_certs(pem@) == Some(ders(v@)),
            None => pem_certs(pem@) is None,
        },
{
    let mut reader = pem;
    rustls_pemfile::certs(&mut reader).map(|c| c.map(|d| d.as_ref().to_vec())).collect::<Result<Vec<_>, _>>().ok()
}

/// `rustls_pemfile::private_key` over `pem`, the key as its format and DER.
#[verifier::external_body]
fn pem_key_der(pem: &[u8]) -> (r: Option<(KeyFormat, Vec<u8>)>)
    ensures
        match r {
            Some(k) => pem_key(pem@) == Some((k.0, k.1@)),
            None => pem_key(pem@) is None,
        },
{
    let mut reader = pem;
    match rustls_pemfile::private_key(&mut reader) {
        Ok(Some(rustls::pki_types::PrivateKeyDer::Pkcs1(k))) => Some((KeyFormat::Pkcs1, k.secret_pkcs1_der().to_vec())),
        Ok(Some(rustls::pki_types::PrivateKeyDer::Pkcs8(k))) => Some((KeyFormat::Pkcs8, k.secret_pkcs8_der().to_vec())),
        Ok(Some(rustls::pki_types::PrivateKeyDer::Sec1(k))) => Some((KeyFormat::Sec1, k.secret_sec1_der().to_vec())),
        _ => None,
    }
}

/// The first certificate of a PEM trust file, when it holds one.
pub fn load_trusted_cert_der(pem: &[u8]) -> (r: Option<Vec<u8>>)
    ensures
        match pem_certs(pem@) {
            Some(cs) if cs.len() > 0 => r matches Some(c) && c@ == cs[0],
            _ => r is None,
        },
{
    match pem_cert_ders(pem) {
        Some(v) => {
            if v.len() > 0 {
                let mut c: Vec<u8> = Vec::new();
                crate::text::extend_bytes(&mut c, v[0].as_slice());
                proof {
                    assert(ders(v@)[0] == v@[0]@);
                }
                Some(c)
            } else {
                None
            }
        },
        None => None,
    }
}

/// The first certificate of `cert_pem` and the DER of the private key of
/// `key_pem`, when both are there.
pub fn load_cert_key_der(cert_pem: &[u8], key_pem: &[u8]) -> (r: Option<(Vec<u8>, Vec<u8>)>)
    ensures
        match (pem_certs(cert_pem@), pem_key(key_pem@)) {
            (Some(cs), Some(k)) if cs.len() > 0 => r matches Some(p) && p.0@ == cs[0] && p.1@ == k.1,
            _ => r is None,
        },
{
    match load_trusted_cert_der(cert_pem) {
        Some(c) => match pem_key_der(key_pem) {
            Some(k) => Some((c, k.1)),
            None => None,
        },
        None => None,
    }
}

/// The server's certificate chain (DER), private key and fingerprint.
#[derive(Debug)]
pub struct ServerCert {
    pub certs: Vec<Vec<u8>>,
    pub key_format: KeyFormat,
    pub key: Vec<u8>,
    pub fingerprint: String,
}

/// Why certificate material is refused.
#[derive(Debug, Clone, Copy, PartialEq, Eq, Structural)]
pub enum CertError {
    /// A PEM section of the certificate file is malformed.
    BadCertificates,
    /// The certificate file holds no certificate.
    NoCertificates,
    /// The key file holds no readable private key.
    NoPrivateKey,
}

impl CertError {
    pub fn message(self) -> (m: &'static str)
        ensures
            m@ == (match self {
                CertError::BadCertificates => "malformed certificate"@,
                CertError::NoCertificates => "no certificates found"@,
                CertError::NoPrivateKey => "no private key found"@,
            }),
    {
        match self {
            CertError::BadCertificates => "malformed certificate",
            CertError::NoCertificates => "no certificates found",
            CertError::NoPrivateKey => "no private key found",
        }
    }
}

/// The server's certificate material from the certificate file and the key
/// file: every certificate (at least one), the key, and the fingerprint of
/// the certificate file.
pub fn load_cert(cert_pem: &[u8], key_pem: &[u8]) -> (r: Result<ServerCert, CertError>)
    ensures
        match pem_certs(cert_pem@) {
            None => r == Err::<ServerCert, CertError>(CertError::BadCertificates),
            Some(cs) => if cs.len() == 0 {
                r == Err::<ServerCert, CertError>(CertError::NoCertificates)
            } else {
                match pem_key(key_pem@) {
                    None => r == Err::<ServerCert, CertError>(CertError::NoPrivateKey),
                    Some(k) => r matches Ok(s) && {
                        &&& ders(s.certs@) == cs
                        &&& s.key_format == k.0
                        &&& s.key@ == k.1
                        &&& s.fingerprint@ == hex_text(sha256(cert_pem@))
                    },
                }
            },
        },
{
    let certs = match pem_cert_ders(cert_pem) {
        Some(v) => v,
        None => {
            return Err(CertError::BadCertificates);
        },
    };
    if certs.len() == 0 {
        return Err(CertError::NoCertificates);
    }
    match pem_key_der(key_pem) {
        Some(k) => Ok(ServerCert { certs, key_format: k.0, key: k.1, fingerprint: cert_fingerprint(cert_pem) }),
        None => Err(CertError::NoPrivateKey),
    }
}

/// How the client checks the server's certificate.
#[derive(Debug)]
pub enum Trust {
    /// Any certificate (`insecure = true`).
    AnyServer,
    /// Certificates signed by the CA of this file.
    CaFile(String),
}

/// What the client trusts: anything when `insecure`, else the CA file,
/// which is then required.
pub fn client_trust(insecure: bool, ca_file: &str) -> (r: Result<Trust, ConfigError>)
    ensures
        r is Err <==> (!insecure && ca_file@.len() == 0),
        (r matches Err(e) ==> e is CaFileRequired),
        insecure ==> (r matches Ok(t) && t is AnyServer),
        !insecure && ca_file@.len() > 0 ==> (r matches Ok(Trust::CaFile(f)) && f@ == ca_file@),
{
    if insecure {
        Ok(Trust::AnyServer)
    } else if ca_file.is_empty() {
        Err(ConfigError::CaFileRequired)
    } else {
        Ok(Trust::CaFile(ca_file.to_string()))
    }
}

/// The roots of a CA file: every certificate in it.
pub fn ca_roots(pem: &[u8]) -> (r: Option<Vec<Vec<u8>>>)
    ensures
        match r {
            Some(v) => pem_certs(pem@) == Some(ders(v@)),
            None => pem_certs(pem@) is None,
        },
{
    pem_cert_ders(pem)
}

/// Why the client's own certificate file is refused.
#[derive(Debug, Clone, Copy, PartialEq, Eq, Structural)]
pub enum IdentityError {
    /// A certificate section is malformed.
    BadCertificates,
    /// The file holds no readable private key.
    NoPrivateKey,
    /// The file holds no certificate.
    NoCertificate,
}

/// The client's certificate chain and private key, both read from one PEM
/// file: certificates are checked first, then the key, then that there is
/// a certificate.
pub fn client_identity(pem: &[u8]) -> (r: Result<(Vec<Vec<u8>>, KeyFormat, Vec<u8>), IdentityError>)
    ensures
        match pem_certs(pem@) {
            None => r == Err::<(Vec<Vec<u8>>, KeyFormat, Vec<u8>), IdentityError>(IdentityError::BadCertificates),
            Some(cs) => match pem_key(pem@) {
                None => r == Err::<(Vec<Vec<u8>>, KeyFormat, Vec<u8>), IdentityError>(IdentityError::NoPrivateKey),
                Some(k) => if cs.len() == 0 {
                    r == Err::<(Vec<Vec<u8>>, KeyFormat, Vec<u8>), IdentityError>(IdentityError::NoCertificate)
                } else {
                    r matches Ok(t) && ders(t.0@) == cs && t.1 == k.0 && t.2@ == k.1
                },
            },
        },
{
    let certs = match pem_cert_ders(pem) {
        Some(v) => v,
        None => {
            return Err(IdentityError::BadCertificates);
        },
    };
    let key = match pem_key_der(pem) {
        Some(k) => k,
        None => {
            return Err(IdentityError::NoPrivateKey);
        },
    };
    if certs.len() == 0 {
        return Err(IdentityError::NoCertificate);
    }
    Ok((certs, key.0, key.1))
}

} // verus!
