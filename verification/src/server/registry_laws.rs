//! Properties of the service registry that hold across its operations.

use super::registry_spec::{
    alloc_scan, client_is, first_match, is_current, lemma_first_match, lemma_first_match_props, named,
    new_entry, next_index, port_is, port_step, entry_step, register_all, register_one, remove_services,
    svc_enabled, svc_type, unregister, with_control, RegView, PROTECTED_PORT, port_free_for, held_by, port_range,
    remove_service, EntryView, watched,
};
use super::service::admitted;
use crate::protocol::msg::{type_takes_auto_port, Service};
use vstd::prelude::*;

verus! {

proof fn lemma_first_match_same<A, B>(a: Seq<A>, pa: spec_fn(A) -> bool, b: Seq<B>, pb: spec_fn(B) -> bool)
    requires
        a.len() == b.len(),
        forall|j: int| 0 <= j < a.len() ==> pa(#[trigger] a[j]) == pb(b[j]),
    ensures
        first_match(a, pa) == first_match(b, pb),
    decreases a.len(),
{
    if a.len() > 0 {
        assert(pa(a[0]) == pb(b[0]));
        assert forall|j: int| 0 <= j < a.drop_first().len() implies pa(#[trigger] a.drop_first()[j]) == pb(
            b.drop_first()[j],
        ) by {
            assert(a.drop_first()[j] == a[j + 1]);
            assert(b.drop_first()[j] == b[j + 1]);
        }
        lemma_first_match_same(a.drop_first(), pa, b.drop_first(), pb);
    }
}

/// Whether two client lists hold the same clients with the same sessions, in
/// the same order.
spec fn same_sessions(a: Seq<(Seq<char>, u64, Seq<Seq<char>>)>, b: Seq<(Seq<char>, u64, Seq<Seq<char>>)>) -> bool {
    &&& a.len() == b.len()
    &&& forall|j: int| 0 <= j < a.len() ==> (#[trigger] a[j]).0 == b[j].0 && a[j].1 == b[j].1
}

proof fn lemma_same_sessions_current(a: RegView, b: RegView, c: Seq<char>, s: u64)
    requires
        same_sessions(a.clients, b.clients),
    ensures
        is_current(a, c, s) == is_current(b, c, s),
{
    assert forall|j: int| 0 <= j < a.clients.len() implies client_is(c)(#[trigger] a.clients[j]) == client_is(c)(
        b.clients[j],
    ) by {}
    lemma_first_match_same(a.clients, client_is(c), b.clients, client_is(c));
    lemma_first_match_props(a.clients, client_is(c));
}

proof fn lemma_register_one_keeps_sessions(v: RegView, client: Seq<char>, session: u64, svc: Service, now: u64)
    ensures
        same_sessions(register_one(v, client, session, svc, now).0.clients, v.clients),
{
    lemma_first_match_props(v.clients, client_is(client));
}

proof fn lemma_register_all_keeps_sessions(v: RegView, client: Seq<char>, session: u64, svcs: Seq<Service>, now: u64)
    ensures
        same_sessions(register_all(v, client, session, svcs, now).0.clients, v.clients),
    decreases svcs.len(),
{
    if svcs.len() > 0 {
        lemma_register_all_keeps_sessions(v, client, session, svcs.drop_last(), now);
        let v1 = register_all(v, client, session, svcs.drop_last(), now).0;
        lemma_register_one_keeps_sessions(v1, client, session, svcs.last(), now);
    }
}

proof fn lemma_with_control_current(v: RegView, c: Seq<char>, s: u64)
    ensures
        is_current(with_control(v, c, s), c, s),
{
    lemma_first_match_props(v.clients, client_is(c));
    let w = with_control(v, c, s);
    match first_match(v.clients, client_is(c)) {
        Some(i) => {
            assert forall|j: int| 0 <= j < i implies !client_is(c)(#[trigger] w.clients[j]) by {
                assert(w.clients[j] == v.clients[j]);
            }
            lemma_first_match(w.clients, client_is(c), i);
        },
        None => {
            assert forall|j: int| 0 <= j < v.clients.len() implies !client_is(c)(#[trigger] w.clients[j]) by {
                assert(w.clients[j] == v.clients[j]);
            }
            lemma_first_match(w.clients, client_is(c), v.clients.len() as int);
        },
    }
}

/// A reconnecting client's new control session takes over: once its
/// services are registered under the new session, the new session is the
/// current one and the old session is not, so the old session's end cannot
/// remove the new services.
pub proof fn lemma_new_session_supersedes_old(
    v: RegView,
    client: Seq<char>,
    old_session: u64,
    new_session: u64,
    svcs: Seq<Service>,
    now: u64,
)
    requires
        old_session != new_session,
    ensures
        is_current(
            register_all(with_control(v, client, new_session), client, new_session, svcs, now).0,
            client,
            new_session,
        ),
        !is_current(
            register_all(with_control(v, client, new_session), client, new_session, svcs, now).0,
            client,
            old_session,
        ),
{
    let w = with_control(v, client, new_session);
    let r = register_all(w, client, new_session, svcs, now).0;
    lemma_with_control_current(v, client, new_session);
    lemma_register_all_keeps_sessions(w, client, new_session, svcs, now);
    lemma_same_sessions_current(r, w, client, new_session);
    lemma_same_sessions_current(r, w, client, old_session);
}

/// A registered service can be found by its name, as registered.
pub proof fn lemma_registered_service_is_found(v: RegView, client: Seq<char>, session: u64, svc: Service, now: u64)
    requires
        svc_enabled(svc),
    ensures
        ({
            let (r, out) = register_one(v, client, session, svc, now);
            out matches Some(o) ==> first_match(r.services, named(svc.name@)) matches Some(i)
                && r.services[i] == new_entry(o, client, session, now)
        }),
{
    match port_step(v, svc) {
        (v1, Some(svc2)) => {
            let e = new_entry(svc2, client, session, now);
            let v2 = entry_step(v1, e);
            assert(svc2.name == svc.name);
            lemma_first_match_props(v1.services, named(svc.name@));
            match first_match(v1.services, named(svc.name@)) {
                Some(i) => {
                    assert forall|j: int| 0 <= j < i implies !named(svc.name@)(#[trigger] v2.services[j]) by {
                        assert(v2.services[j] == v1.services[j]);
                    }
                    lemma_first_match(v2.services, named(svc.name@), i);
                },
                None => {
                    assert forall|j: int| 0 <= j < v1.services.len() implies !named(svc.name@)(
                        #[trigger] v2.services[j],
                    ) by {
                        assert(v2.services[j] == v1.services[j]);
                    }
                    lemma_first_match(v2.services, named(svc.name@), v1.services.len() as int);
                },
            }
        },
        (_, None) => {},
    }
}

/// A port handed out automatically lies in the configured range, is not the
/// protected port and was not allocated before.
pub proof fn lemma_allocated_port_is_free_and_in_range(
    ports: Seq<(u16, Seq<char>)>,
    next: usize,
    min: u16,
    size: nat,
    tries: nat,
)
    requires
        min + size <= 65536,
    ensures
        alloc_scan(ports, next, min, size, tries).0 matches Some(p) ==> min <= p < min + size
            && p != PROTECTED_PORT && first_match(ports, port_is(p)) is None,
    decreases tries,
{
    if tries > 0 && size > 0 {
        let port = (min + (next as nat) % size) as u16;
        assert((next as nat) % size < size);
        if !(port != PROTECTED_PORT && first_match(ports, port_is(port)) is None) {
            lemma_allocated_port_is_free_and_in_range(ports, next_index(next), min, size, (tries - 1) as nat);
        }
    }
}

/// Once a client's session ends, the client has no current session (client
/// records are unique by id).
pub proof fn lemma_ended_session_is_not_current(v: RegView, client: Seq<char>, session: u64)
    requires
        forall|a: int, b: int| 0 <= a < b < v.clients.len() ==> (#[trigger] v.clients[a]).0 != (#[trigger] v.clients[b]).0,
    ensures
        !is_current(unregister(v, client), client, session),
{
    lemma_first_match_props(v.clients, client_is(client));
    match first_match(v.clients, client_is(client)) {
        Some(i) => {
            let cl = v.clients.remove(i);
            assert forall|j: int| 0 <= j < cl.len() implies !client_is(client)(#[trigger] cl[j]) by {
                if j < i {
                    assert(cl[j] == v.clients[j]);
                } else {
                    assert(cl[j] == v.clients[j + 1]);
                    assert(v.clients[i].0 != v.clients[j + 1].0);
                }
            }
            lemma_first_match(cl, client_is(client), cl.len() as int);
            lemma_remove_services_keeps_clients(RegView { clients: cl, ..v }, v.clients[i].2);
        },
        None => {},
    }
}

proof fn lemma_remove_services_keeps_clients(v: RegView, names: Seq<Seq<char>>)
    ensures
        remove_services(v, names).clients == v.clients,
    decreases names.len(),
{
    if names.len() > 0 {
        lemma_remove_services_keeps_clients(v, names.drop_last());
    }
}

/// Admission keeps every service within its connection limit: a service
/// with a limit that holds at most that many connections still does after
/// a connection (to any service) is admitted, and its settings are kept.
pub proof fn lemma_admission_respects_limit(v: RegView, name: Seq<char>, k: int)
    requires
        0 <= k < v.services.len(),
        v.services[k].config.max_connections > 0,
        v.services[k].conns <= v.services[k].config.max_connections,
    ensures
        ({
            let w = admitted(v, name).1;
            &&& w.services.len() == v.services.len()
            &&& w.services[k].config == v.services[k].config
            &&& w.services[k].conns <= v.services[k].config.max_connections
        }),
{
    match first_match(v.services, named(name)) {
        None => {},
        Some(i) => {
            lemma_first_match_props(v.services, named(name));
            let e = v.services[i as int];
            if i == k && e.enabled && e.healthy && e.conns < e.config.max_connections {
                assert(e.conns + 1 <= usize::MAX);
                assert(e.conns.wrapping_add(1) == e.conns + 1);
            }
        },
    }
}

/// Whether port list `b` starts with port list `a`.
pub open spec fn extends(a: Seq<(u16, Seq<char>)>, b: Seq<(u16, Seq<char>)>) -> bool {
    a.len() <= b.len() && b.take(a.len() as int) == a
}

/// Whether service `s` may have its port, given the port records `ports`:
/// never the protected port, and a port it asks for is not recorded under
/// another service.
pub open spec fn port_granted(ports: Seq<(u16, Seq<char>)>, s: Service) -> bool {
    &&& s.remote_port != PROTECTED_PORT
    &&& s.remote_port != 0 ==> port_free_for(ports, s.remote_port, s.name@)
}

proof fn lemma_extends_push(a: Seq<(u16, Seq<char>)>, x: (u16, Seq<char>))
    ensures
        extends(a, a.push(x)),
        extends(a, a),
{
    assert(a.push(x).take(a.len() as int) =~= a);
    assert(a.take(a.len() as int) =~= a);
}

proof fn lemma_extends_trans(a: Seq<(u16, Seq<char>)>, b: Seq<(u16, Seq<char>)>, c: Seq<(u16, Seq<char>)>)
    requires
        extends(a, b),
        extends(b, c),
    ensures
        extends(a, c),
{
    assert(c.take(a.len() as int) =~= c.take(b.len() as int).take(a.len() as int));
}

proof fn lemma_granted_prefix(a: Seq<(u16, Seq<char>)>, b: Seq<(u16, Seq<char>)>, s: Service)
    requires
        extends(a, b),
        port_granted(b, s),
    ensures
        port_granted(a, s),
{
    if s.remote_port != 0 {
        let p = s.remote_port;
        lemma_first_match_props(a, port_is(p));
        match first_match(a, port_is(p)) {
            Some(j) => {
                assert forall|k: int| 0 <= k < j implies !port_is(p)(#[trigger] b[k]) by {
                    assert(b[k] == b.take(a.len() as int)[k]);
                    assert(b[k] == a[k]);
                }
                assert(b[j] == b.take(a.len() as int)[j]);
                lemma_first_match(b, port_is(p), j);
            },
            None => {},
        }
    }
}

proof fn lemma_port_step_grants(v: RegView, svc: Service)
    ensures
        extends(v.ports, port_step(v, svc).0.ports),
        port_step(v, svc).1 matches Some(s) ==> s.name == svc.name && port_granted(v.ports, s),
{
    let name = svc.name@;
    lemma_extends_push(v.ports, (0u16, name));
    if svc.remote_port == 0 && type_takes_auto_port(svc_type(svc)) {
        match first_match(v.ports, held_by(name)) {
            Some(i) if port_free_for(v.ports, v.ports[i].0, name) => {},
            _ => {
                let size = port_range(v);
                lemma_allocated_port_is_free_and_in_range(v.ports, v.next_port, v.port_min, size, size);
                let (found, next) = alloc_scan(v.ports, v.next_port, v.port_min, size, size);
                match found {
                    Some(p) => {
                        lemma_extends_push(v.ports, (p, name));
                    },
                    None => {},
                }
            },
        }
    } else if svc.remote_port != 0 && !port_free_for(v.ports, svc.remote_port, name) {
    } else {
        lemma_extends_push(v.ports, (svc.remote_port, name));
    }
}

proof fn lemma_register_one_grants(v: RegView, client: Seq<char>, session: u64, svc: Service, now: u64)
    ensures
        extends(v.ports, register_one(v, client, session, svc, now).0.ports),
        register_one(v, client, session, svc, now).0.port_min == v.port_min,
        register_one(v, client, session, svc, now).0.port_max == v.port_max,
        register_one(v, client, session, svc, now).1 matches Some(s) ==> port_granted(v.ports, s),
{
    lemma_extends_push(v.ports, (0u16, svc.name@));
    lemma_port_step_grants(v, svc);
    lemma_first_match_props(v.clients, client_is(client));
}

/// No registered service gets the protected port (22), nor a port it asks
/// for that another service already holds: every service that registration
/// gives back has a port granted against the port records from before the
/// registration, and those records are kept.
pub proof fn lemma_registered_ports_are_granted(
    v: RegView,
    client: Seq<char>,
    session: u64,
    svcs: Seq<Service>,
    now: u64,
)
    ensures
        ({
            let (w, out) = register_all(v, client, session, svcs, now);
            &&& extends(v.ports, w.ports)
            &&& w.port_min == v.port_min && w.port_max == v.port_max
            &&& forall|i: int| 0 <= i < out.len() ==> port_granted(v.ports, #[trigger] out[i])
        }),
    decreases svcs.len(),
{
    if svcs.len() == 0 {
        lemma_extends_push(v.ports, (0u16, Seq::empty()));
    } else {
        lemma_registered_ports_are_granted(v, client, session, svcs.drop_last(), now);
        let (v1, out1) = register_all(v, client, session, svcs.drop_last(), now);
        lemma_register_one_grants(v1, client, session, svcs.last(), now);
        let (v2, s) = register_one(v1, client, session, svcs.last(), now);
        lemma_extends_trans(v.ports, v1.ports, v2.ports);
        let out = register_all(v, client, session, svcs, now).1;
        assert forall|i: int| 0 <= i < out.len() implies port_granted(v.ports, #[trigger] out[i]) by {
            if i < out1.len() {
                assert(out[i] == out1[i]);
            } else {
                lemma_granted_prefix(v.ports, v1.ports, out[i]);
            }
        }
    }
}

/// A reconnecting client keeps its automatic port: a service that asks for
/// no port gets again the port recorded under its name (when that port is
/// not protected and not first recorded under another service), and no new
/// port is recorded or counted.
pub proof fn lemma_auto_port_is_reused(v: RegView, client: Seq<char>, session: u64, svc: Service, now: u64, i: int)
    requires
        svc_enabled(svc),
        svc.remote_port == 0,
        type_takes_auto_port(svc_type(svc)),
        first_match(v.ports, held_by(svc.name@)) == Some(i),
        port_free_for(v.ports, v.ports[i].0, svc.name@),
    ensures
        ({
            let (w, out) = register_one(v, client, session, svc, now);
            &&& out matches Some(s) && s.remote_port == v.ports[i].0
            &&& w.ports == v.ports
            &&& w.next_port == v.next_port
        }),
{
    lemma_first_match_props(v.clients, client_is(client));
}

/// Whether the service called `name` is found as a service of `client`
/// under control session `session`.
pub open spec fn resolves_to(v: RegView, name: Seq<char>, client: Seq<char>, session: u64) -> bool {
    first_match(v.services, named(name)) matches Some(j) && v.services[j].client == client
        && v.services[j].session == session
}

proof fn lemma_entry_step_keeps_resolution(v: RegView, e: EntryView, n: Seq<char>, client: Seq<char>, session: u64)
    requires
        resolves_to(v, n, client, session),
        e.config.name@ != n || (e.client == client && e.session == session),
    ensures
        resolves_to(entry_step(v, e), n, client, session),
{
    let m = e.config.name@;
    lemma_first_match_props(v.services, named(m));
    lemma_first_match_props(v.services, named(n));
    let j = first_match(v.services, named(n))->0;
    let w = entry_step(v, e).services;
    match first_match(v.services, named(m)) {
        Some(i) => {
            if m == n {
                assert(i == j);
                assert forall|k: int| 0 <= k < j implies !named(n)(#[trigger] w[k]) by {
                    assert(w[k] == v.services[k]);
                }
                lemma_first_match(w, named(n), j);
            } else {
                assert(i != j);
                assert forall|k: int| 0 <= k < j implies !named(n)(#[trigger] w[k]) by {
                    if k != i {
                        assert(w[k] == v.services[k]);
                    }
                }
                assert(w[j] == v.services[j]);
                lemma_first_match(w, named(n), j);
            }
        },
        None => {
            assert forall|k: int| 0 <= k < j implies !named(n)(#[trigger] w[k]) by {
                assert(w[k] == v.services[k]);
            }
            assert(w[j] == v.services[j]);
            lemma_first_match(w, named(n), j);
        },
    }
}

proof fn lemma_register_one_keeps_resolution(
    v: RegView,
    client: Seq<char>,
    session: u64,
    svc: Service,
    now: u64,
    n: Seq<char>,
)
    requires
        resolves_to(v, n, client, session),
    ensures
        resolves_to(register_one(v, client, session, svc, now).0, n, client, session),
        register_one(v, client, session, svc, now).0.listeners == v.listeners,
{
    lemma_first_match_props(v.clients, client_is(client));
    if svc_enabled(svc) {
        match port_step(v, svc) {
            (v1, Some(svc2)) => {
                assert(v1.services == v.services);
                lemma_entry_step_keeps_resolution(v1, new_entry(svc2, client, session, now), n, client, session);
            },
            (v1, None) => {},
        }
    }
}

proof fn lemma_remove_services_keeps_listeners(v: RegView, names: Seq<Seq<char>>)
    ensures
        remove_services(v, names).listeners == v.listeners,
    decreases names.len(),
{
    if names.len() > 0 {
        lemma_remove_services_keeps_listeners(v, names.drop_last());
        let w = remove_services(v, names.drop_last());
        assert(remove_service(w, names.last()).listeners == w.listeners);
    }
}

/// A public listener outlives its client's reconnect: ending the client's
/// session leaves every listener mark in place, registering its services
/// again under a new control session does too, and each service that the
/// new registration gives back is then found by its name as a service of
/// that client under the new session, so connections to it are answered
/// over the new control connection.
pub proof fn lemma_listener_survives_reconnect(
    v: RegView,
    client: Seq<char>,
    new_session: u64,
    svcs: Seq<Service>,
    now: u64,
)
    ensures
        ({
            let w = unregister(v, client);
            let (r, out) = register_all(with_control(w, client, new_session), client, new_session, svcs, now);
            &&& w.listeners == v.listeners
            &&& r.listeners == v.listeners
            &&& forall|i: int| 0 <= i < out.len() ==> resolves_to(r, (#[trigger] out[i]).name@, client, new_session)
        }),
    decreases svcs.len(),
{
    let w = unregister(v, client);
    match first_match(v.clients, client_is(client)) {
        Some(i) => lemma_remove_services_keeps_listeners(RegView { clients: v.clients.remove(i), ..v }, v.clients[i].2),
        None => {},
    }
    let w1 = with_control(w, client, new_session);
    if svcs.len() > 0 {
        lemma_listener_survives_reconnect(v, client, new_session, svcs.drop_last(), now);
        let (v1, out1) = register_all(w1, client, new_session, svcs.drop_last(), now);
        let svc = svcs.last();
        let (v2, s) = register_one(v1, client, new_session, svc, now);
        let out = register_all(w1, client, new_session, svcs, now).1;
        lemma_first_match_props(v1.clients, client_is(client));
        assert(v2.listeners == v1.listeners) by {
            if svc_enabled(svc) {
                match port_step(v1, svc) {
                    (_, Some(_)) => {},
                    (_, None) => {},
                }
            }
        }
        assert forall|k: int| 0 <= k < out.len() implies resolves_to(v2, (#[trigger] out[k]).name@, client, new_session) by {
            if k < out1.len() {
                assert(out[k] == out1[k]);
                lemma_register_one_keeps_resolution(v1, client, new_session, svc, now, out1[k].name@);
            } else {
                lemma_registered_service_is_found(v1, client, new_session, svc, now);
                lemma_port_step_grants(v1, svc);
            }
        }
    }
}

/// The health watch leaves alone every service that sends no reports:
/// after a watch at any time, a service without an active health check, or
/// a disabled one, is exactly as it was (in particular as healthy as it
/// was).  Of any other service the watch changes at most the health flag,
/// and only from healthy to unhealthy, once its reports are overdue.
pub proof fn lemma_health_watch_spares_unchecked_services(v: RegView, now: u64, i: int)
    requires
        0 <= i < v.services.len(),
    ensures
        ({
            let before = v.services[i];
            let after = v.services.map_values(|e: EntryView| watched(e, now))[i];
            &&& (before.config.health_check is None || !before.enabled) ==> after == before
            &&& after == (EntryView { healthy: after.healthy, ..before })
            &&& after.healthy ==> before.healthy
            &&& after.healthy != before.healthy ==> now >= before.last_health_check_ms
                && now - before.last_health_check_ms > 30_000
        }),
{
}

} // verus!
