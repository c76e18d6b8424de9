//! The meaning of the service registry's operations, over plain values.

use crate::protocol::msg::{type_is_tcp, type_is_vhost, type_takes_auto_port, Service};
use vstd::prelude::*;

verus! {

/// The index of the first element of `s` that satisfies `p`.
pub open spec fn first_match<T>(s: Seq<T>, p: spec_fn(T) -> bool) -> Option<int>
    decreases s.len(),
{
    if s.len() == 0 {
        None
    } else if p(s[0]) {
        Some(0)
    } else {
        match first_match(s.drop_first(), p) {
            Some(i) => Some(i + 1),
            None => None,
        }
    }
}

pub proof fn lemma_first_match<T>(s: Seq<T>, p: spec_fn(T) -> bool, i: int)
    requires
        0 <= i <= s.len(),
        forall|j: int| 0 <= j < i ==> !p(#[trigger] s[j]),
        i == s.len() || p(s[i]),
    ensures
        first_match(s, p) == (if i < s.len() {
            Some(i)
        } else {
            None::<int>
        }),
    decreases i,
{
    if i > 0 {
        assert forall|j: int| 0 <= j < i - 1 implies !p(#[trigger] s.drop_first()[j]) by {
            assert(s.drop_first()[j] == s[j + 1]);
        }
        if i < s.len() {
            assert(s.drop_first()[i - 1] == s[i]);
        }
        lemma_first_match(s.drop_first(), p, i - 1);
    }
}

pub proof fn lemma_first_match_props<T>(s: Seq<T>, p: spec_fn(T) -> bool)
    ensures
        match first_match(s, p) {
            Some(i) => 0 <= i < s.len() && p(s[i]) && forall|j: int| 0 <= j < i ==> !p(#[trigger] s[j]),
            None => forall|j: int| 0 <= j < s.len() ==> !p(#[trigger] s[j]),
        },
    decreases s.len(),
{
    if s.len() > 0 {
        lemma_first_match_props(s.drop_first(), p);
        if !p(s[0]) {
            assert forall|j: int| 1 <= j < s.len() implies #[trigger] s[j] == s.drop_first()[j - 1] by {}
        }
    }
}

/// A registered service, as plain values.
pub struct EntryView {
    pub config: Service,
    pub client: Seq<char>,
    pub session: u64,
    pub healthy: bool,
    pub enabled: bool,
    pub conns: usize,
    pub tx: u64,
    pub rx: u64,
    pub started_at_ms: u64,
    pub last_health_check_ms: u64,
}

/// The registry as plain values.
#[verifier::ext_equal]
pub struct RegView {
    pub services: Seq<EntryView>,
    pub groups: Seq<(Seq<char>, Seq<(Seq<char>, u64)>, usize)>,
    /// Each client: its current control session and its services' names.
    pub clients: Seq<(Seq<char>, u64, Seq<Seq<char>>)>,
    pub ports: Seq<(u16, Seq<char>)>,
    pub listeners: Seq<u16>,
    pub next_port: usize,
    pub port_min: u16,
    pub port_max: u16,
    pub pending: Seq<Seq<char>>,
    pub qcp_port: u16,
}

pub open spec fn named(name: Seq<char>) -> spec_fn(EntryView) -> bool {
    |e: EntryView| e.config.name@ == name
}

pub open spec fn client_is(id: Seq<char>) -> spec_fn((Seq<char>, u64, Seq<Seq<char>>)) -> bool {
    |c: (Seq<char>, u64, Seq<Seq<char>>)| c.0 == id
}

pub open spec fn port_is(p: u16) -> spec_fn((u16, Seq<char>)) -> bool {
    |e: (u16, Seq<char>)| e.0 == p
}

pub open spec fn group_is(g: Seq<char>) -> spec_fn((Seq<char>, Seq<(Seq<char>, u64)>, usize)) -> bool {
    |e: (Seq<char>, Seq<(Seq<char>, u64)>, usize)| e.0 == g
}

pub open spec fn opt_str(o: Option<String>) -> Option<Seq<char>> {
    match o {
        Some(s) => Some(s@),
        None => None,
    }
}

/// The type of a service's configuration.
pub open spec fn svc_type(s: Service) -> Seq<char> {
    crate::protocol::msg::effective_type_of(opt_str(s.ty))
}

pub open spec fn svc_enabled(s: Service) -> bool {
    match s.enabled {
        Some(e) => e,
        None => true,
    }
}

pub open spec fn next_index(n: usize) -> usize {
    if n == usize::MAX {
        0
    } else {
        (n + 1) as usize
    }
}

/// The port no service may have: 22 (SSH) is never tunnelled.
pub const PROTECTED_PORT: u16 = 22;

/// Scans at most `tries` ports from counter `next` on for one that is
/// neither allocated nor protected: the port found, and the counter after
/// the scan.
pub open spec fn alloc_scan(ports: Seq<(u16, Seq<char>)>, next: usize, min: u16, size: nat, tries: nat) -> (Option<u16>, usize)
    decreases tries,
{
    if tries == 0 || size == 0 {
        (None, next)
    } else {
        let port = (min + (next as nat) % size) as u16;
        if port != PROTECTED_PORT && first_match(ports, port_is(port)) is None {
            (Some(port), next_index(next))
        } else {
            alloc_scan(ports, next_index(next), min, size, (tries - 1) as nat)
        }
    }
}

/// The port records of service `name`.
pub open spec fn held_by(name: Seq<char>) -> spec_fn((u16, Seq<char>)) -> bool {
    |e: (u16, Seq<char>)| e.1 == name
}

/// Whether port `p` may be given to service `name`: it is not the protected
/// port, and it is not recorded under another service (the first record of
/// the port, if any, is `name`'s).
pub open spec fn port_free_for(ports: Seq<(u16, Seq<char>)>, p: u16, name: Seq<char>) -> bool {
    &&& p != PROTECTED_PORT
    &&& match first_match(ports, port_is(p)) {
        Some(j) => ports[j].1 == name,
        None => true,
    }
}

/// The number of ports from `port_min` to `port_max`, both included (none
/// when `port_min` is above `port_max`).
pub open spec fn port_range(v: RegView) -> nat {
    if v.port_min <= v.port_max {
        (v.port_max - v.port_min + 1) as nat
    } else {
        0
    }
}

/// The registry with a control session `session` recorded for `client`
/// (the client's earlier service names are kept).
pub open spec fn with_control(v: RegView, client: Seq<char>, session: u64) -> RegView {
    RegView {
        clients: match first_match(v.clients, client_is(client)) {
            Some(i) => v.clients.update(i, (client, session, v.clients[i].2)),
            None => v.clients.push((client, session, Seq::empty())),
        },
        ..v
    }
}

/// The public port a service gets, or `None` when the service is refused.
/// A service that asks for no port and takes one gets the port already
/// recorded under its name (a reconnecting client keeps its port), else a
/// freshly allocated one.  A service that asks for a port is refused when
/// the port is protected or recorded under another service; a TCP port it
/// asks for is recorded if it is not yet.
pub open spec fn port_step(v: RegView, svc: Service) -> (RegView, Option<Service>) {
    let name = svc.name@;
    let t = svc_type(svc);
    if svc.remote_port == 0 && type_takes_auto_port(t) {
        match first_match(v.ports, held_by(name)) {
            Some(i) if port_free_for(v.ports, v.ports[i].0, name) => (v, Some(Service { remote_port: v.ports[i].0, ..svc })),
            _ => {
                let (found, next) = alloc_scan(v.ports, v.next_port, v.port_min, port_range(v), port_range(v));
                match found {
                    Some(p) => (
                        RegView { ports: v.ports.push((p, name)), next_port: next, ..v },
                        Some(Service { remote_port: p, ..svc }),
                    ),
                    None => (RegView { next_port: next, ..v }, Some(svc)),
                }
            },
        }
    } else if svc.remote_port != 0 && !port_free_for(v.ports, svc.remote_port, name) {
        (v, None)
    } else if type_is_tcp(t) && !type_is_vhost(t) && first_match(v.ports, port_is(svc.remote_port)) is None {
        (RegView { ports: v.ports.push((svc.remote_port, name)), ..v }, Some(svc))
    } else {
        (v, Some(svc))
    }
}

/// The registry with entry `e` in place of the one of the same name (added
/// when there is none).
pub open spec fn entry_step(v: RegView, e: EntryView) -> RegView {
    RegView {
        services: match first_match(v.services, named(e.config.name@)) {
            Some(i) => v.services.update(i, e),
            None => v.services.push(e),
        },
        ..v
    }
}

/// The registry with `(name, session)` added to group `g`.
pub open spec fn group_step(v: RegView, g: Option<Seq<char>>, name: Seq<char>, session: u64) -> RegView {
    match g {
        Some(g) => RegView {
            groups: match first_match(v.groups, group_is(g)) {
                Some(i) => v.groups.update(i, (g, v.groups[i].1.push((name, session)), v.groups[i].2)),
                None => v.groups.push((g, seq![(name, session)], 0)),
            },
            ..v
        },
        None => v,
    }
}

/// The registry with `name` listed among `client`'s services.
pub open spec fn client_step(v: RegView, client: Seq<char>, name: Seq<char>) -> RegView {
    match first_match(v.clients, client_is(client)) {
        Some(i) => if v.clients[i].2.contains(name) {
            v
        } else {
            RegView { clients: v.clients.update(i, (client, v.clients[i].1, v.clients[i].2.push(name))), ..v }
        },
        None => v,
    }
}

/// A fresh entry for service `svc` of `client`.
pub open spec fn new_entry(svc: Service, client: Seq<char>, session: u64, now: u64) -> EntryView {
    EntryView {
        config: svc,
        client,
        session,
        healthy: true,
        enabled: true,
        conns: 0,
        tx: 0,
        rx: 0,
        started_at_ms: now,
        last_health_check_ms: now,
    }
}

/// The registry after service `svc` of `client` is registered at `now`, and
/// the service as registered (its public port filled in), if it is enabled
/// and its port is not refused.
pub open spec fn register_one(v: RegView, client: Seq<char>, session: u64, svc: Service, now: u64) -> (RegView, Option<Service>) {
    if !svc_enabled(svc) {
        (v, None)
    } else {
        match port_step(v, svc) {
            (v1, Some(svc2)) => {
                let v2 = entry_step(v1, new_entry(svc2, client, session, now));
                let v3 = group_step(v2, opt_str(svc.group), svc.name@, session);
                (client_step(v3, client, svc.name@), Some(svc2))
            },
            (v1, None) => (v1, None),
        }
    }
}

/// Registers `svcs` in order; the registered services, in order.
pub open spec fn register_all(v: RegView, client: Seq<char>, session: u64, svcs: Seq<Service>, now: u64) -> (RegView, Seq<Service>)
    decreases svcs.len(),
{
    if svcs.len() == 0 {
        (v, Seq::empty())
    } else {
        let (v1, out) = register_all(v, client, session, svcs.drop_last(), now);
        let (v2, s) = register_one(v1, client, session, svcs.last(), now);
        (
            v2,
            match s {
                Some(x) => out.push(x),
                None => out,
            },
        )
    }
}

pub open spec fn port_not(p: u16) -> spec_fn((u16, Seq<char>)) -> bool {
    |e: (u16, Seq<char>)| e.0 != p
}

pub open spec fn member_not(name: Seq<char>) -> spec_fn((Seq<char>, u64)) -> bool {
    |m: (Seq<char>, u64)| m.0 != name
}

/// The registry without service `name`: its entry, its port (unless it is
/// routed by name or asked for none) and its group memberships go.
pub open spec fn remove_service(v: RegView, name: Seq<char>) -> RegView {
    match first_match(v.services, named(name)) {
        None => v,
        Some(i) => {
            let e = v.services[i];
            let ports = if e.config.remote_port != 0 && !type_is_vhost(svc_type(e.config)) {
                v.ports.filter(port_not(e.config.remote_port))
            } else {
                v.ports
            };
            let groups = match opt_str(e.config.group) {
                Some(g) => match first_match(v.groups, group_is(g)) {
                    Some(j) => {
                        let members = v.groups[j].1.filter(member_not(name));
                        if members.len() == 0 {
                            v.groups.remove(j)
                        } else {
                            v.groups.update(j, (g, members, v.groups[j].2))
                        }
                    },
                    None => v.groups,
                },
                None => v.groups,
            };
            RegView { services: v.services.remove(i), ports, groups, ..v }
        },
    }
}

pub open spec fn remove_services(v: RegView, names: Seq<Seq<char>>) -> RegView
    decreases names.len(),
{
    if names.len() == 0 {
        v
    } else {
        remove_service(remove_services(v, names.drop_last()), names.last())
    }
}

/// The registry after `client`'s session ends: its record and its services
/// go.
pub open spec fn unregister(v: RegView, client: Seq<char>) -> RegView {
    match first_match(v.clients, client_is(client)) {
        Some(i) => remove_services(RegView { clients: v.clients.remove(i), ..v }, v.clients[i].2),
        None => v,
    }
}

/// Whether `session` is `client`'s current control session.
pub open spec fn is_current(v: RegView, client: Seq<char>, session: u64) -> bool {
    match first_match(v.clients, client_is(client)) {
        Some(i) => v.clients[i].1 == session,
        None => false,
    }
}

/// Whether `host` (lower-cased) reaches service `e`: its host equals it
/// ignoring ASCII case, or its subdomain is the whole first label of it
/// (the host is the subdomain, or starts with the subdomain and a dot).
pub open spec fn serves_host(e: EntryView, host: Seq<char>) -> bool {
    let h = crate::text::lowercase(host);
    &&& e.enabled
    &&& {
        ||| (match opt_str(e.config.host) {
            Some(x) => crate::text::lowercase(x) == crate::text::lowercase(h),
            None => false,
        })
        ||| (match opt_str(e.config.subdomain) {
            Some(sub) => h == sub || crate::text::starts_with(h, sub + "."@),
            None => false,
        })
    }
}

pub open spec fn serves(host: Seq<char>) -> spec_fn(EntryView) -> bool {
    |e: EntryView| serves_host(e, host)
}

pub open spec fn on_port(p: u16) -> spec_fn(EntryView) -> bool {
    |e: EntryView| e.config.remote_port == p
}

pub open spec fn id_is(id: Seq<char>) -> spec_fn(Seq<char>) -> bool {
    |x: Seq<char>| x == id
}

/// How long (s) a service with an active check may go without a report:
/// its check timeout, at least 30 s; 90 s when it sets none.
pub open spec fn health_deadline_secs(s: Service) -> u64 {
    if s.health_timeout > 0 {
        if s.health_timeout < 30 {
            30
        } else {
            s.health_timeout as u64
        }
    } else {
        90
    }
}

/// Whether entry `e` has gone too long without a health report at `now`
/// (ms): only enabled services with an active check are watched.
pub open spec fn health_expired(e: EntryView, now: u64) -> bool {
    &&& e.enabled
    &&& e.config.health_check is Some
    &&& now >= e.last_health_check_ms
    &&& now - e.last_health_check_ms > health_deadline_secs(e.config) * 1000
}

/// Entry `e` after the health watch at `now`.
pub open spec fn watched(e: EntryView, now: u64) -> EntryView {
    if health_expired(e, now) {
        EntryView { healthy: false, ..e }
    } else {
        e
    }
}

} // verus!
