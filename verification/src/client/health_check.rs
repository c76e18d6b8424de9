//! Active health checks of a client's local services: their settings, and
//! when a result is reported to the server.  Connecting is the
//! application's.

use crate::protocol::msg::{copy_opt, copy_pairs, opt_chars, pairs, Service};
use crate::text::{push_str, range_starts_with, chars_of, string_from_chars, str_eq};
use vstd::prelude::*;

verus! {

broadcast use vstd::string::group_string_axioms;

/// How a service is checked.
#[derive(Debug)]
pub struct HealthCheckConfig {
    /// `http`, `https`, or anything else for a TCP connect.
    pub type_: String,
    /// Seconds between checks.
    pub interval: u32,
    /// Seconds a check may take.
    pub timeout_ms: u32,
    /// Failures in a row before an unhealthy result is reported.
    pub max_failed: u32,
    pub path: Option<String>,
    pub headers: Vec<(String, String)>,
}

/// `v`, or `d` when `v` is 0.
pub open spec fn or_default(v: u32, d: u32) -> u32 {
    if v > 0 {
        v
    } else {
        d
    }
}

/// The state of the checker after one result: the count of failures in a
/// row, and whether the result is reported (a success always; a failure once
/// `max_failed` failures have piled up).
pub open spec fn health_step(fails: u32, healthy: bool, max_failed: u32) -> (u32, bool) {
    let n = if healthy {
        0
    } else {
        (fails + 1) as u32
    };
    (n, healthy || n >= max_failed)
}

impl HealthCheckConfig {
    /// The checks a service asks for, if any: its `health_check` type, with
    /// an interval of 10 s, a timeout of 3 s and one allowed failure unless
    /// it sets them.
    pub fn from_service(svc: &Service) -> (r: Option<HealthCheckConfig>)
        ensures
            match opt_chars(svc.health_check) {
                Some(t) if t.len() > 0 => r matches Some(c) && {
                    &&& c.type_@ == t
                    &&& c.interval == or_default(svc.health_interval, 10)
                    &&& c.timeout_ms == or_default(svc.health_timeout, 3)
                    &&& c.max_failed == or_default(svc.health_max_failed, 1)
                    &&& opt_chars(c.path) == opt_chars(svc.health_path)
                    &&& pairs(c.headers@) == pairs(svc.health_headers@)
                },
                _ => r is None,
            },
    {
        let t = match &svc.health_check {
            Some(t) => t,
            None => {
                return None;
            },
        };
        if t.as_str().is_empty() {
            return None;
        }
        Some(
            HealthCheckConfig {
                type_: t.clone(),
                interval: if svc.health_interval > 0 {
                    svc.health_interval
                } else {
                    10
                },
                timeout_ms: if svc.health_timeout > 0 {
                    svc.health_timeout
                } else {
                    3
                },
                max_failed: if svc.health_max_failed > 0 {
                    svc.health_max_failed
                } else {
                    1
                },
                path: copy_opt(&svc.health_path),
                headers: copy_pairs(&svc.health_headers),
            },
        )
    }

    /// Whether the check is an HTTP request rather than a TCP connect.
    pub fn is_http(&self) -> (b: bool)
        ensures
            b == (self.type_@ == "http"@ || self.type_@ == "https"@),
    {
        str_eq(self.type_.as_str(), "http") || str_eq(self.type_.as_str(), "https")
    }

    /// The URL an HTTP check asks for at `addr`: its path (`/` by default)
    /// appended, with `http://` put in front unless `addr` has a scheme.
    pub fn url(&self, addr: &str) -> (u: String)
        ensures
            u@ == (if crate::text::starts_with(addr@, "http://"@) || crate::text::starts_with(
                addr@,
                "https://"@,
            ) {
                addr@
            } else {
                "http://"@ + addr@
            }) + match opt_chars(self.path) {
                Some(p) => p,
                None => "/"@,
            },
    {
        let a = chars_of(addr);
        proof {
            assert(a@.subrange(0, a@.len() as int) == a@);
        }
        let h1 = chars_of("http://");
        let h2 = chars_of("https://");
        let has_scheme = range_starts_with(a.as_slice(), 0, a.len(), h1.as_slice())
            || range_starts_with(a.as_slice(), 0, a.len(), h2.as_slice());
        proof {
            assert(a@.subrange(0, h1@.len() as int) == a@.take(h1@.len() as int));
            assert(a@.subrange(0, h2@.len() as int) == a@.take(h2@.len() as int));
        }
        let mut c: Vec<char> = Vec::new();
        if !has_scheme {
            push_str(&mut c, "http://");
        }
        push_str(&mut c, addr);
        match &self.path {
            Some(p) => push_str(&mut c, p.as_str()),
            None => push_str(&mut c, "/"),
        }
        string_from_chars(c.as_slice())
    }
}

/// Counts one check result: see [`health_step`].
pub fn note_health(fails: u32, healthy: bool, max_failed: u32) -> (r: (u32, bool))
    requires
        healthy || fails < u32::MAX,
    ensures
        r == health_step(fails, healthy, max_failed),
{
    let n = if healthy {
        0
    } else {
        fails + 1
    };
    (n, healthy || n >= max_failed)
}

} // verus!
