//! The client's configuration: its defaults, services given on the command
//! line, services merged from included files, and the shared key read from a
//! key file.  Reading files and parsing their formats is the application's.

use crate::protocol::encoding::{hex_text, random_id};
use crate::protocol::msg::{copy_service, opt_chars, same_service, Service};
use crate::text::{
    chars_of, parse_u16, parse_u16_range, push_str, range_starts_with, split, split_bounds, splitn,
    starts_with, string_from_chars, str_eq, sub_string, trim, trim_bounds,
};
use vstd::prelude::*;

verus! {

broadcast use vstd::string::group_string_axioms;

pub fn default_server() -> (s: String)
    ensures
        s@ == "x.x.x.x:7710"@,
{
    "x.x.x.x:7710".to_string()
}

pub fn default_server_name() -> (s: String)
    ensures
        s@ == "cross233"@,
{
    "cross233".to_string()
}

pub fn default_max_tunnels() -> (n: u32)
    ensures
        n == 64,
{
    64
}

pub fn default_qcp_port() -> (p: u16)
    ensures
        p == 7713,
{
    7713
}

pub fn default_qcp_tunnel_port() -> (p: u16)
    ensures
        p == 7714,
{
    7714
}

pub fn default_transport() -> (s: String)
    ensures
        s@ == "tcp"@,
{
    "tcp".to_string()
}

pub fn default_transport_cache_file() -> (s: String)
    ensures
        s@ == ".cross233/transport-cache.json"@,
{
    ".cross233/transport-cache.json".to_string()
}

pub fn default_transport_cache_ttl_secs() -> (n: u64)
    ensures
        n == 86_400,
{
    86_400
}

/// QCP retries its SYN for five seconds; a little more leaves room for TLS
/// and the tunnel hello before falling back to TCP.
pub fn default_transport_probe_timeout_ms() -> (n: u64)
    ensures
        n == 6_000,
{
    6_000
}

pub fn default_web_addr() -> (s: String)
    ensures
        s@ == "127.0.0.1:7721"@,
{
    "127.0.0.1:7721".to_string()
}

/// The client id when none is configured: the `COMPUTERNAME` variable, else
/// `HOSTNAME`, else `client-` and eight random hex digits.  The application
/// reads the two variables.
pub fn default_client_id(computer_name: Option<String>, host_name: Option<String>) -> (id: String)
    ensures
        computer_name is Some ==> id@ == computer_name->0@,
        computer_name is None && host_name is Some ==> id@ == host_name->0@,
        computer_name is None && host_name is None ==> exists|b: Seq<u8>|
            b.len() == 16 && id@ == "client-"@ + hex_text(b).take(8),
{
    match computer_name {
        Some(c) => c,
        None => match host_name {
            Some(h) => h,
            None => {
                let r = random_id();
                let rc = chars_of(r.as_str());
                proof {
                    let b = choose|b: Seq<u8>| b.len() == 16 && r@ == hex_text(b);
                    lemma_hex_text_len(b);
                }
                let mut c: Vec<char> = Vec::new();
                push_str(&mut c, "client-");
                let mut i: usize = 0;
                while i < 8
                    invariant
                        rc@.len() == 32,
                        0 <= i <= 8,
                        c@ == "client-"@ + rc@.take(i as int),
                    decreases 8 - i,
                {
                    c.push(rc[i]);
                    proof {
                        assert(rc@.take(i + 1) == rc@.take(i as int).push(rc@[i as int]));
                    }
                    i = i + 1;
                }
                string_from_chars(c.as_slice())
            },
        },
    }
}

pub proof fn lemma_hex_text_len(b: Seq<u8>)
    ensures
        hex_text(b).len() == 2 * b.len(),
    decreases b.len(),
{
    if b.len() > 0 {
        lemma_hex_text_len(b.drop_last());
    }
}

/// A visitor: a local listener that reaches another client's secret service.
#[derive(Debug)]
pub struct VisitorConfig {
    pub name: String,
    pub ty: String,
    pub server_name: String,
    pub secret_key: String,
    pub bind_addr: String,
    pub bind_port: u16,
}

/// The client's settings.
#[derive(Debug)]
pub struct ClientConfig {
    pub server: String,
    pub server_name: String,
    pub auth_key: String,
    pub auth_key_file: String,
    pub key_file: String,
    pub ca_file: String,
    pub insecure: bool,
    pub client_id: String,
    pub max_tunnels: u32,
    pub qcp_port: u16,
    pub qcp_tunnel_port: u16,
    /// `tcp`, `qcp` or `auto`.
    pub transport: String,
    pub transport_cache_file: String,
    pub transport_cache_ttl_secs: u64,
    pub transport_probe_timeout_ms: u64,
    pub web_addr: String,
    pub reload_interval: u32,
    pub includes: Vec<String>,
    pub services: Vec<Service>,
    pub visitors: Vec<VisitorConfig>,
}

/// Why the configuration is refused.
#[derive(Debug)]
pub enum ConfigError {
    /// A command-line service that is not `name:type:host:port[:remote]`.
    InvalidServiceSpec(String),
    /// The key file named by the configuration holds no key.
    EmptyAuthKey(String),
    /// Neither a CA file nor `insecure = true` is configured.
    CaFileRequired,
}

impl ConfigError {
    pub open spec fn spec_message(&self) -> Seq<char> {
        match self {
            ConfigError::InvalidServiceSpec(item) => "invalid service spec '"@ + item@
                + "': expected name:type:localHost:localPort[:remotePort]"@,
            ConfigError::EmptyAuthKey(path) => "auth key file "@ + path@ + " is empty"@,
            ConfigError::CaFileRequired => "ca_file is required unless insecure=true"@,
        }
    }

    pub fn message(&self) -> (m: String)
        ensures
            m@ == self.spec_message(),
    {
        let mut c: Vec<char> = Vec::new();
        match self {
            ConfigError::InvalidServiceSpec(item) => {
                push_str(&mut c, "invalid service spec '");
                push_str(&mut c, item.as_str());
                push_str(&mut c, "': expected name:type:localHost:localPort[:remotePort]");
            },
            ConfigError::EmptyAuthKey(path) => {
                push_str(&mut c, "auth key file ");
                push_str(&mut c, path.as_str());
                push_str(&mut c, " is empty");
            },
            ConfigError::CaFileRequired => push_str(&mut c, "ca_file is required unless insecure=true"),
        }
        string_from_chars(c.as_slice())
    }
}

/// The fields of each service given on the command line, or the first item
/// that is not a service.
pub open spec fn cli_parts(items: Seq<Seq<char>>) -> Result<Seq<Seq<Seq<char>>>, Seq<char>>
    decreases items.len(),
{
    if items.len() == 0 {
        Ok(Seq::empty())
    } else {
        match cli_parts(items.drop_last()) {
            Err(e) => Err(e),
            Ok(ps) => {
                let it = trim(items.last());
                if it.len() == 0 {
                    Ok(ps)
                } else {
                    let parts = splitn(it, ':', 5);
                    if parts.len() < 4 {
                        Err(it)
                    } else {
                        Ok(ps.push(parts))
                    }
                }
            },
        }
    }
}

/// The remote port a command-line service asks for: its fifth field if that
/// is a port number, else 0 (picked by the server).
pub open spec fn cli_remote_port(parts: Seq<Seq<char>>) -> u16 {
    if parts.len() > 4 {
        match parse_u16(parts[4]) {
            Some(p) => p,
            None => 0,
        }
    } else {
        0
    }
}

/// Whether `s` is the service the fields `parts` describe: name, type,
/// `host:port` and remote port set, everything else empty.
pub open spec fn service_from_parts(s: Service, parts: Seq<Seq<char>>) -> bool {
    &&& s.name@ == parts[0]
    &&& opt_chars(s.ty) == Some(parts[1])
    &&& s.local_addr@ == parts[2] + ":"@ + parts[3]
    &&& s.remote_port == cli_remote_port(parts)
    &&& crate::protocol::msg::service_rest_blank(s)
}

/// Whether a service is switched on.
pub open spec fn enabled(s: Service) -> bool {
    match s.enabled {
        Some(e) => e,
        None => true,
    }
}

/// `base` followed by each included service whose name is not taken yet
/// (by `base` or by an earlier included service).
pub open spec fn merged(base: Seq<Service>, included: Seq<Service>) -> Seq<Service>
    decreases included.len(),
{
    if included.len() == 0 {
        base
    } else {
        let m = merged(base, included.drop_last());
        let s = included.last();
        if exists|i: int| 0 <= i < m.len() && (#[trigger] m[i]).name@ == s.name@ {
            m
        } else {
            m.push(s)
        }
    }
}

/// Which file to read the shared key from, when the configuration holds no
/// key: the `auth_key_file`, else a legacy `key_file` (`true`).
pub open spec fn key_source(auth_key: Seq<char>, auth_key_file: Seq<char>, key_file: Seq<char>) -> Option<(Seq<char>, bool)> {
    if auth_key.len() > 0 {
        None
    } else if auth_key_file.len() > 0 {
        Some((auth_key_file, false))
    } else if key_file.len() > 0 {
        Some((key_file, true))
    } else {
        None
    }
}

proof fn lemma_cli_parts_err_stays(items: Seq<Seq<char>>, k: int)
    requires
        0 <= k <= items.len(),
        cli_parts(items.take(k)) is Err,
    ensures
        cli_parts(items) == cli_parts(items.take(k)),
    decreases items.len() - k,
{
    if k < items.len() {
        assert(items.drop_last().take(k) == items.take(k));
        lemma_cli_parts_err_stays(items.drop_last(), k);
    } else {
        assert(items.take(k) == items);
    }
}

/// The service described by `c[ta..tb]`, a trimmed, non-blank item.
fn cli_service(c: &[char], ta: usize, tb: usize) -> (r: Result<Service, ConfigError>)
    requires
        ta <= tb <= c@.len(),
    ensures
        splitn(c@.subrange(ta as int, tb as int), ':', 5).len() < 4 ==> (r matches Err(
            ConfigError::InvalidServiceSpec(e),
        ) && e@ == c@.subrange(ta as int, tb as int)),
        splitn(c@.subrange(ta as int, tb as int), ':', 5).len() >= 4 ==> (r matches Ok(s)
            && service_from_parts(s, splitn(c@.subrange(ta as int, tb as int), ':', 5))),
{
    let parts = split_bounds(c, ta, tb, ':', 5);
    if parts.len() < 4 {
        return Err(ConfigError::InvalidServiceSpec(sub_string(c, ta, tb)));
    }
    let ghost ps = splitn(c@.subrange(ta as int, tb as int), ':', 5);
    let (n0, n1) = parts[0];
    let (t0, t1) = parts[1];
    let (h0, h1) = parts[2];
    let (p0, p1) = parts[3];
    let mut local: Vec<char> = Vec::new();
    let host = sub_string(c, h0, h1);
    let port = sub_string(c, p0, p1);
    push_str(&mut local, host.as_str());
    local.push(':');
    push_str(&mut local, port.as_str());
    let remote_port = if parts.len() > 4 {
        let (r0, r1) = parts[4];
        match parse_u16_range(c, r0, r1) {
            Some(p) => p,
            None => 0,
        }
    } else {
        0
    };
    let mut svc = Service::default();
    svc.name = sub_string(c, n0, n1);
    svc.ty = Some(sub_string(c, t0, t1));
    svc.local_addr = string_from_chars(local.as_slice());
    svc.remote_port = remote_port;
    proof {
        assert(local@ == ps[2] + ":"@ + ps[3]) by {
            reveal_strlit(":");
            assert(":"@ =~= seq![':']);
        }
        assert(svc.remote_port == cli_remote_port(ps));
    }
    Ok(svc)
}

impl ClientConfig {
    /// The configuration of a client called `client_id` with every other
    /// setting at its default.
    pub fn with_defaults(client_id: String) -> (c: ClientConfig)
        ensures
            c.server@ == "x.x.x.x:7710"@,
            c.server_name@ == "cross233"@,
            c.auth_key@.len() == 0 && c.auth_key_file@.len() == 0,
            c.key_file@.len() == 0 && c.ca_file@.len() == 0,
            !c.insecure,
            c.client_id == client_id,
            c.max_tunnels == 64,
            c.qcp_port == 7713,
            c.qcp_tunnel_port == 7714,
            c.transport@ == "tcp"@,
            c.transport_cache_file@ == ".cross233/transport-cache.json"@,
            c.transport_cache_ttl_secs == 86_400,
            c.transport_probe_timeout_ms == 6_000,
            c.web_addr@ == "127.0.0.1:7721"@,
            c.reload_interval == 0,
            c.includes@.len() == 0 && c.services@.len() == 0 && c.visitors@.len() == 0,
    {
        ClientConfig {
            server: default_server(),
            server_name: default_server_name(),
            auth_key: String::new(),
            auth_key_file: String::new(),
            key_file: String::new(),
            ca_file: String::new(),
            insecure: false,
            client_id,
            max_tunnels: default_max_tunnels(),
            qcp_port: default_qcp_port(),
            qcp_tunnel_port: default_qcp_tunnel_port(),
            transport: default_transport(),
            transport_cache_file: default_transport_cache_file(),
            transport_cache_ttl_secs: default_transport_cache_ttl_secs(),
            transport_probe_timeout_ms: default_transport_probe_timeout_ms(),
            web_addr: default_web_addr(),
            reload_interval: 0,
            includes: Vec::new(),
            services: Vec::new(),
            visitors: Vec::new(),
        }
    }

    /// Services from a command-line list `name:type:host:port[:remote]`,
    /// separated by commas; blank items are skipped.
    pub fn parse_services_cli(spec: &str) -> (r: Result<Vec<Service>, ConfigError>)
        ensures
            match cli_parts(split(spec@, ',')) {
                Ok(ps) => r matches Ok(v) && v@.len() == ps.len() && forall|i: int|
                    0 <= i < ps.len() ==> service_from_parts(#[trigger] v@[i], ps[i]),
                Err(item) => r matches Err(ConfigError::InvalidServiceSpec(e)) && e@ == item,
            },
    {
        let c = chars_of(spec);
        proof {
            assert(c@.subrange(0, c@.len() as int) == c@);
        }
        let items = split_bounds(c.as_slice(), 0, c.len(), ',', 0);
        let ghost its = split(c@, ',');
        let mut services: Vec<Service> = Vec::new();
        let mut k: usize = 0;
        while k < items.len()
            invariant
                its == split(c@, ','),
                c@ == spec@,
                items@.len() == its.len(),
                forall|j: int| 0 <= j < items@.len() ==> 0 <= (#[trigger] items@[j]).0 <= items@[j].1 <= c@.len(),
                forall|j: int|
                    0 <= j < items@.len() ==> c@.subrange((#[trigger] items@[j]).0 as int, items@[j].1 as int) == its[j],
                0 <= k <= items@.len(),
                cli_parts(its.take(k as int)) matches Ok(ps) && services@.len() == ps.len() && forall|i: int|
                    0 <= i < ps.len() ==> service_from_parts(#[trigger] services@[i], ps[i]),
            decreases items@.len() - k,
        {
            let (a, b) = items[k];
            proof {
                assert(its.take(k + 1).drop_last() == its.take(k as int));
                assert(its.take(k + 1).last() == its[k as int]);
            }
            let (ta, tb) = trim_bounds(c.as_slice(), a, b);
            if ta == tb {
                k = k + 1;
                continue;
            }
            let svc = match cli_service(c.as_slice(), ta, tb) {
                Ok(svc) => svc,
                Err(e) => {
                    proof {
                        lemma_cli_parts_err_stays(its, (k + 1) as int);
                    }
                    return Err(e);
                },
            };
            services.push(svc);
            k = k + 1;
        }
        proof {
            assert(its.take(its.len() as int) == its);
        }
        Ok(services)
    }

    /// The services that are switched on, in order.
    pub fn enabled_services(&self) -> (v: Vec<Service>)
        ensures
            v@.len() == self.services@.filter(|s: Service| enabled(s)).len(),
            forall|i: int|
                0 <= i < v@.len() ==> same_service(
                    #[trigger] v@[i],
                    self.services@.filter(|s: Service| enabled(s))[i],
                ),
    {
        let ghost f = |s: Service| enabled(s);
        let mut v: Vec<Service> = Vec::new();
        let mut i: usize = 0;
        while i < self.services.len()
            invariant
                0 <= i <= self.services@.len(),
                f == (|s: Service| enabled(s)),
                v@.len() == self.services@.take(i as int).filter(f).len(),
                forall|j: int|
                    0 <= j < v@.len() ==> same_service(
                        #[trigger] v@[j],
                        self.services@.take(i as int).filter(f)[j],
                    ),
            decreases self.services@.len() - i,
        {
            let ghost pre = self.services@.take(i as int);
            let ghost x = self.services@[i as int];
            proof {
                assert(self.services@.take(i + 1) == pre.push(x));
                pre.lemma_filter_push(x, f);
            }
            if self.services[i].is_enabled() {
                v.push(copy_service(&self.services[i]));
            }
            i = i + 1;
        }
        proof {
            assert(self.services@.take(self.services@.len() as int) == self.services@);
        }
        v
    }

    /// Adds each service read from an included file unless a service of its
    /// name is already configured (or was added before it).
    pub fn merge_included(&mut self, included: Vec<Service>)
        ensures
            final(self).services@ == merged(old(self).services@, included@),
    {
        let n = included.len();
        let mut rest = included;
        let mut k: usize = 0;
        while rest.len() > 0
            invariant
                0 <= k <= included@.len(),
                rest@ == included@.skip(k as int),
                k + rest@.len() == n,
                n == included@.len(),
                self.services@ == merged(old(self).services@, included@.take(k as int)),
            decreases rest@.len(),
        {
            let ghost m = self.services@;
            proof {
                assert(included@.take(k + 1).drop_last() == included@.take(k as int));
                assert(included@.take(k + 1).last() == included@[k as int]);
            }
            let s = rest.remove(0);
            proof {
                assert(s == included@[k as int]);
                assert(rest@ =~= included@.skip(k + 1));
            }
            let mut taken = false;
            let mut j: usize = 0;
            while j < self.services.len()
                invariant
                    self.services@ == m,
                    0 <= j <= m.len(),
                    taken == exists|i: int| 0 <= i < j && (#[trigger] m[i]).name@ == s.name@,
                decreases m.len() - j,
            {
                if str_eq(self.services[j].name.as_str(), s.name.as_str()) {
                    taken = true;
                }
                j = j + 1;
            }
            if !taken {
                self.services.push(s);
            }
            k = k + 1;
        }
        proof {
            assert(included@.take(included@.len() as int) == included@);
        }
    }

    /// Where to read the shared key from, when it must be read: the path
    /// and whether it is the legacy `key_file`.
    pub fn auth_key_source(&self) -> (r: Option<(String, bool)>)
        ensures
            match key_source(self.auth_key@, self.auth_key_file@, self.key_file@) {
                Some((p, legacy)) => r matches Some((q, l)) && q@ == p && l == legacy,
                None => r is None,
            },
    {
        if !self.auth_key.as_str().is_empty() {
            None
        } else if !self.auth_key_file.as_str().is_empty() {
            Some((self.auth_key_file.clone(), false))
        } else if !self.key_file.as_str().is_empty() {
            Some((self.key_file.clone(), true))
        } else {
            None
        }
    }

    /// Takes the shared key from the contents of the key file at `path`: the
    /// trimmed text.  A legacy key file holding a PEM block is not a key and
    /// is left alone; an empty key is an error.  A legacy key file, once
    /// used, is forgotten.
    pub fn apply_auth_key(&mut self, path: &str, contents: &str, legacy: bool) -> (r: Result<(), ConfigError>)
        ensures
            legacy && starts_with(trim(contents@), "-----BEGIN"@) ==> r
                is Ok && final(self).auth_key@ == old(self).auth_key@ && final(self).key_file@ == old(
                self,
            ).key_file@,
            !(legacy && starts_with(trim(contents@), "-----BEGIN"@))
                && trim(contents@).len() == 0 ==> (r matches Err(ConfigError::EmptyAuthKey(p)) && p@
                == path@ && final(self).auth_key@ == old(self).auth_key@),
            !(legacy && starts_with(trim(contents@), "-----BEGIN"@))
                && trim(contents@).len() > 0 ==> r is Ok && final(self).auth_key@ == trim(contents@)
                && (legacy ==> final(self).key_file@.len() == 0) && (!legacy ==> final(self).key_file@
                == old(self).key_file@),
            final(self).auth_key_file@ == old(self).auth_key_file@,
            final(self).services@ == old(self).services@,
    {
        let c = chars_of(contents);
        proof {
            assert(c@.subrange(0, c@.len() as int) == c@);
        }
        let (a, b) = trim_bounds(c.as_slice(), 0, c.len());
        let pem = chars_of("-----BEGIN");
        if legacy && range_starts_with(c.as_slice(), a, b, pem.as_slice()) {
            proof {
                assert(c@.subrange(a as int, b as int).take(pem@.len() as int) == c@.subrange(
                    a as int,
                    a + pem@.len(),
                ));
            }
            return Ok(());
        }
        proof {
            if legacy && starts_with(trim(contents@), "-----BEGIN"@) {
                assert(c@.subrange(a as int, b as int).take(pem@.len() as int) == c@.subrange(
                    a as int,
                    a + pem@.len(),
                ));
            }
        }
        if a == b {
            return Err(ConfigError::EmptyAuthKey(path.to_string()));
        }
        self.auth_key = sub_string(c.as_slice(), a, b);
        if legacy {
            self.key_file = String::new();
        }
        Ok(())
    }
}

/// `base` joined with the relative path `p`: a `/` between them unless
/// `base` is empty or already ends with one.
pub open spec fn join_path(base: Seq<char>, p: Seq<char>) -> Seq<char> {
    if base.len() == 0 || base.last() == '/' {
        base + p
    } else {
        base + "/"@ + p
    }
}

/// Where the transport cache lives: the configured file, taken below the
/// configuration's directory `base` unless it is absolute; the default file
/// below `base` when none is configured.
pub open spec fn cache_path(base: Seq<char>, configured: Seq<char>) -> Seq<char> {
    if configured.len() == 0 {
        join_path(base, ".cross233/transport-cache.json"@)
    } else if configured[0] == '/' {
        configured
    } else {
        join_path(base, configured)
    }
}

/// The transport cache file for a configuration in directory `base`.
pub fn resolve_cache_path(base: &str, configured: &str) -> (r: String)
    ensures
        r@ == cache_path(base@, configured@),
{
    let b = chars_of(base);
    let c = chars_of(configured);
    let rel = if c.len() == 0 {
        default_transport_cache_file()
    } else if c[0] == '/' {
        return configured.to_string();
    } else {
        configured.to_string()
    };
    let mut v: Vec<char> = Vec::new();
    push_str(&mut v, base);
    if !(b.len() == 0 || b[b.len() - 1] == '/') {
        push_str(&mut v, "/");
    }
    push_str(&mut v, rel.as_str());
    string_from_chars(v.as_slice())
}

} // verus!
