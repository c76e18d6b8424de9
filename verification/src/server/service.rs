//! The server's registry of services: which client serves which name, the
//! public ports given out, the groups for load balancing, and the tunnels
//! waiting for a client.  A client's control session is identified by a
//! number the application gives each control connection.

use super::registry_spec::{
    alloc_scan, client_is, first_match, group_is, is_current, lemma_first_match, lemma_first_match_props,
    named, next_index, port_is, port_range, register_all, register_one, remove_service, remove_services,
    port_step, entry_step, group_step, client_step, new_entry, port_not, member_not, serves, serves_host,
    on_port, id_is, held_by, port_free_for, PROTECTED_PORT,
    svc_enabled, svc_type, unregister, with_control, watched, EntryView, RegView,
};
use super::registry_laws::{lemma_registered_ports_are_granted, port_granted};
use crate::protocol::msg::{copy_service, same_service, Service};
use crate::text::str_eq;
use vstd::prelude::*;

verus! {

broadcast use vstd::string::group_string_axioms;

/// How an admitted connection to a public port is served.
#[derive(Debug, Clone, Copy, PartialEq, Eq, Structural)]
pub enum InboundPlan {
    /// A static service: capture the request head and serve it.
    Static,
    /// Open a tunnel to the client and relay both ways.
    Relay,
}

/// Why a connection to a public port is dropped.
#[derive(Debug, Clone, Copy, PartialEq, Eq, Structural)]
pub enum InboundRefusal {
    NotFound,
    Unavailable,
    MaxConnections,
}

impl InboundRefusal {
    pub fn message(self) -> (m: &'static str)
        ensures
            m@ == (match self {
                InboundRefusal::NotFound => "service not found"@,
                InboundRefusal::Unavailable => "service not available"@,
                InboundRefusal::MaxConnections => "max connections reached"@,
            }),
    {
        match self {
            InboundRefusal::NotFound => "service not found",
            InboundRefusal::Unavailable => "service not available",
            InboundRefusal::MaxConnections => "max connections reached",
        }
    }
}

/// What admitting a connection to the public port of service `name` gives
/// and leaves: the service must exist, be enabled and healthy, and be under
/// its connection limit (0: none); an admitted connection is counted (the
/// counter wraps around) and told how it is served.
pub open spec fn admitted(v: RegView, name: Seq<char>) -> (Result<InboundPlan, InboundRefusal>, RegView) {
    match first_match(v.services, named(name)) {
        None => (Err(InboundRefusal::NotFound), v),
        Some(i) => {
            let e = v.services[i];
            if !e.enabled || !e.healthy {
                (Err(InboundRefusal::Unavailable), v)
            } else if e.config.max_connections > 0 && e.conns >= e.config.max_connections {
                (Err(InboundRefusal::MaxConnections), v)
            } else {
                (
                    Ok(
                        if svc_type(e.config) == "static"@ && !e.config.proxy_protocol {
                            InboundPlan::Static
                        } else {
                            InboundPlan::Relay
                        },
                    ),
                    RegView {
                        services: v.services.update(i, EntryView { conns: e.conns.wrapping_add(1), ..e }),
                        ..v
                    },
                )
            }
        },
    }
}

/// A registered service.
#[derive(Debug)]
pub struct ServiceEntry {
    pub config: Service,
    pub client_id: String,
    /// The control session that registered it.
    pub session: u64,
    pub healthy: bool,
    pub enabled: bool,
    pub current_conns: usize,
    pub traffic_tx: u64,
    pub traffic_rx: u64,
    pub started_at_ms: u64,
    pub last_health_check_ms: u64,
}

impl View for ServiceEntry {
    type V = EntryView;

    open spec fn view(&self) -> EntryView {
        EntryView {
            config: self.config,
            client: self.client_id@,
            session: self.session,
            healthy: self.healthy,
            enabled: self.enabled,
            conns: self.current_conns,
            tx: self.traffic_tx,
            rx: self.traffic_rx,
            started_at_ms: self.started_at_ms,
            last_health_check_ms: self.last_health_check_ms,
        }
    }
}

/// The members of a group (service name and session), and its
/// round-robin counter.
#[derive(Debug)]
pub struct GroupRecord {
    pub name: String,
    pub members: Vec<(String, u64)>,
    pub round_robin: usize,
}

/// A connected client: its current control session and its services.
#[derive(Debug)]
pub struct ClientRecord {
    pub id: String,
    pub session: u64,
    pub services: Vec<String>,
}

/// The registry.
#[derive(Debug)]
pub struct Registry {
    pub services: Vec<ServiceEntry>,
    pub groups: Vec<GroupRecord>,
    pub clients: Vec<ClientRecord>,
    pub ports: Vec<(u16, String)>,
    pub listeners: Vec<u16>,
    pub next_port: usize,
    pub port_min: u16,
    pub port_max: u16,
    pub pending: Vec<String>,
    pub qcp_port: u16,
}

pub open spec fn strs(v: Seq<String>) -> Seq<Seq<char>> {
    v.map_values(|s: String| s@)
}

impl View for Registry {
    type V = RegView;

    open spec fn view(&self) -> RegView {
        RegView {
            services: self.services@.map_values(|e: ServiceEntry| e@),
            groups: self.groups@.map_values(
                |g: GroupRecord|
                    (g.name@, g.members@.map_values(|m: (String, u64)| (m.0@, m.1)), g.round_robin),
            ),
            clients: self.clients@.map_values(
                |c: ClientRecord| (c.id@, c.session, strs(c.services@)),
            ),
            ports: self.ports@.map_values(|p: (u16, String)| (p.0, p.1@)),
            listeners: self.listeners@,
            next_port: self.next_port,
            port_min: self.port_min,
            port_max: self.port_max,
            pending: strs(self.pending@),
            qcp_port: self.qcp_port,
        }
    }
}

impl Registry {
    pub fn new(port_min: u16, port_max: u16, qcp_port: u16) -> (r: Registry)
        ensures
            r@.services.len() == 0 && r@.groups.len() == 0 && r@.clients.len() == 0,
            r@.ports.len() == 0 && r@.listeners.len() == 0 && r@.pending.len() == 0,
            r@.next_port == port_min,
            r@.port_min == port_min && r@.port_max == port_max && r@.qcp_port == qcp_port,
    {
        let r = Registry {
            services: Vec::new(),
            groups: Vec::new(),
            clients: Vec::new(),
            ports: Vec::new(),
            listeners: Vec::new(),
            next_port: port_min as usize,
            port_min,
            port_max,
            pending: Vec::new(),
            qcp_port,
        };
        proof {
            assert(r@.services =~= Seq::<EntryView>::empty());
            assert(r@.groups.len() == 0);
            assert(r@.clients.len() == 0);
            assert(r@.ports.len() == 0);
            assert(r@.pending.len() == 0);
        }
        r
    }

    pub fn qcp_port(&self) -> (p: u16)
        ensures
            p == self@.qcp_port,
    {
        self.qcp_port
    }

    /// The index of service `name`.
    pub fn find_service(&self, name: &str) -> (r: Option<usize>)
        ensures
            match first_match(self@.services, named(name@)) {
                Some(i) => r == Some(i as usize),
                None => r is None,
            },
            r matches Some(i) ==> i < self@.services.len() && first_match(self@.services, named(name@)) == Some(i as int),
    {
        let mut i: usize = 0;
        while i < self.services.len()
            invariant
                0 <= i <= self.services@.len(),
                forall|j: int| 0 <= j < i ==> !named(name@)(#[trigger] self@.services[j]),
            decreases self.services@.len() - i,
        {
            if str_eq(self.services[i].config.name.as_str(), name) {
                proof {
                    lemma_first_match(self@.services, named(name@), i as int);
                }
                return Some(i);
            }
            i = i + 1;
        }
        proof {
            lemma_first_match(self@.services, named(name@), i as int);
        }
        None
    }

    fn find_client(&self, id: &str) -> (r: Option<usize>)
        ensures
            match first_match(self@.clients, client_is(id@)) {
                Some(i) => r == Some(i as usize),
                None => r is None,
            },
            r matches Some(i) ==> i < self@.clients.len() && first_match(self@.clients, client_is(id@)) == Some(i as int),
    {
        let mut i: usize = 0;
        while i < self.clients.len()
            invariant
                0 <= i <= self.clients@.len(),
                forall|j: int| 0 <= j < i ==> !client_is(id@)(#[trigger] self@.clients[j]),
            decreases self.clients@.len() - i,
        {
            if str_eq(self.clients[i].id.as_str(), id) {
                proof {
                    lemma_first_match(self@.clients, client_is(id@), i as int);
                }
                return Some(i);
            }
            i = i + 1;
        }
        proof {
            lemma_first_match(self@.clients, client_is(id@), i as int);
        }
        None
    }

    fn find_port(&self, port: u16) -> (r: Option<usize>)
        ensures
            match first_match(self@.ports, port_is(port)) {
                Some(i) => r == Some(i as usize),
                None => r is None,
            },
            r matches Some(i) ==> i < self@.ports.len() && first_match(self@.ports, port_is(port)) == Some(i as int),
    {
        let mut i: usize = 0;
        while i < self.ports.len()
            invariant
                0 <= i <= self.ports@.len(),
                forall|j: int| 0 <= j < i ==> !port_is(port)(#[trigger] self@.ports[j]),
            decreases self.ports@.len() - i,
        {
            if self.ports[i].0 == port {
                proof {
                    lemma_first_match(self@.ports, port_is(port), i as int);
                }
                return Some(i);
            }
            i = i + 1;
        }
        proof {
            lemma_first_match(self@.ports, port_is(port), i as int);
        }
        None
    }

    fn find_group(&self, g: &str) -> (r: Option<usize>)
        ensures
            match first_match(self@.groups, group_is(g@)) {
                Some(i) => r == Some(i as usize),
                None => r is None,
            },
            r matches Some(i) ==> i < self@.groups.len() && first_match(self@.groups, group_is(g@)) == Some(i as int),
    {
        let mut i: usize = 0;
        while i < self.groups.len()
            invariant
                0 <= i <= self.groups@.len(),
                forall|j: int| 0 <= j < i ==> !group_is(g@)(#[trigger] self@.groups[j]),
            decreases self.groups@.len() - i,
        {
            if str_eq(self.groups[i].name.as_str(), g) {
                proof {
                    lemma_first_match(self@.groups, group_is(g@), i as int);
                }
                return Some(i);
            }
            i = i + 1;
        }
        proof {
            lemma_first_match(self@.groups, group_is(g@), i as int);
        }
        None
    }
}

impl Registry {
    /// Gives out a public port for service `name`: the next free one in the
    /// range, scanning from the rotating counter.
    fn allocate_port(&mut self, name: &str) -> (r: Option<u16>)
        ensures
            ({
                let (found, next) = alloc_scan(
                    old(self)@.ports,
                    old(self)@.next_port,
                    old(self)@.port_min,
                    port_range(old(self)@),
                    port_range(old(self)@),
                );
                &&& r == found
                &&& final(self)@ == RegView {
                    ports: match found {
                        Some(p) => old(self)@.ports.push((p, name@)),
                        None => old(self)@.ports,
                    },
                    next_port: next,
                    ..old(self)@
                }
            }),
    {
        let size: usize = if self.port_min <= self.port_max {
            (self.port_max - self.port_min) as usize + 1
        } else {
            0
        };
        let ghost v0 = self@;
        let mut k: usize = 0;
        while k < size
            invariant
                v0 == old(self)@,
                size == port_range(v0),
                size > 0 ==> v0.port_min + size - 1 == v0.port_max,
                0 <= k <= size,
                self@ == (RegView { next_port: self@.next_port, ..v0 }),
                alloc_scan(v0.ports, v0.next_port, v0.port_min, size as nat, size as nat) == alloc_scan(
                    v0.ports,
                    self@.next_port,
                    v0.port_min,
                    size as nat,
                    (size - k) as nat,
                ),
            decreases size - k,
        {
            let idx = self.next_port;
            self.next_port = idx.wrapping_add(1);
            let port = self.port_min + (idx % size) as u16;
            proof {
                assert(port == (v0.port_min + (idx as nat) % (size as nat)) as u16);
                assert(self.next_port == next_index(idx));
            }
            if port != PROTECTED_PORT && self.find_port(port).is_none() {
                self.ports.push((port, name.to_string()));
                proof {
                    assert(self@.ports =~= v0.ports.push((port, name@)));
                }
                return Some(port);
            }
            k = k + 1;
        }
        proof {
            assert(self@ == (RegView { next_port: self@.next_port, ..v0 }));
        }
        None
    }

    fn client_has(&self, i: usize, name: &str) -> (b: bool)
        requires
            i < self.clients@.len(),
        ensures
            b == self@.clients[i as int].2.contains(name@),
    {
        let names = &self.clients[i].services;
        let mut j: usize = 0;
        while j < names.len()
            invariant
                0 <= j <= names@.len(),
                names == &self.clients@[i as int].services,
                i < self.clients@.len(),
                forall|x: int| 0 <= x < j ==> (#[trigger] names@[x])@ != name@,
            decreases names@.len() - j,
        {
            if str_eq(names[j].as_str(), name) {
                proof {
                    assert(strs(names@)[j as int] == name@);
                }
                return true;
            }
            j = j + 1;
        }
        proof {
            if self@.clients[i as int].2.contains(name@) {
                let x = choose|x: int| 0 <= x < strs(names@).len() && strs(names@)[x] == name@;
                assert(names@[x]@ == name@);
            }
        }
        false
    }

    /// The index of the first port record of service `name`.
    fn find_held(&self, name: &str) -> (r: Option<usize>)
        ensures
            match first_match(self@.ports, held_by(name@)) {
                Some(i) => r == Some(i as usize),
                None => r is None,
            },
            r matches Some(i) ==> i < self@.ports.len() && first_match(self@.ports, held_by(name@)) == Some(i as int),
    {
        let mut i: usize = 0;
        while i < self.ports.len()
            invariant
                0 <= i <= self.ports@.len(),
                forall|j: int| 0 <= j < i ==> !held_by(name@)(#[trigger] self@.ports[j]),
            decreases self.ports@.len() - i,
        {
            if str_eq(self.ports[i].1.as_str(), name) {
                proof {
                    lemma_first_match(self@.ports, held_by(name@), i as int);
                }
                return Some(i);
            }
            i = i + 1;
        }
        proof {
            lemma_first_match(self@.ports, held_by(name@), i as int);
        }
        None
    }

    /// Whether port `p` may be given to service `name` (see
    /// [`port_free_for`]).
    fn port_free(&self, p: u16, name: &str) -> (b: bool)
        ensures
            b == port_free_for(self@.ports, p, name@),
    {
        if p == PROTECTED_PORT {
            return false;
        }
        match self.find_port(p) {
            Some(j) => str_eq(self.ports[j].1.as_str(), name),
            None => true,
        }
    }

    /// Gives service `svc` its public port, or refuses it (see
    /// [`port_step`]).
    fn assign_port(&mut self, svc: Service) -> (r: Option<Service>)
        ensures
            (final(self)@, r) == port_step(old(self)@, svc),
    {
        let ghost s0 = svc;
        let ghost v0 = self@;
        let mut svc = svc;
        let name = svc.name.clone();
        if svc.uses_auto_port() {
            match self.find_held(name.as_str()) {
                Some(i) => {
                    let p = self.ports[i].0;
                    proof {
                        assert(p == v0.ports[i as int].0);
                    }
                    if self.port_free(p, name.as_str()) {
                        svc.remote_port = p;
                        proof {
                            assert(svc == (Service { remote_port: p, ..s0 }));
                            assert(first_match(v0.ports, held_by(s0.name@)) == Some(i as int));
                        }
                        return Some(svc);
                    }
                },
                None => {},
            }
            match self.allocate_port(name.as_str()) {
                Some(p) => {
                    svc.remote_port = p;
                },
                None => {},
            }
            Some(svc)
        } else if svc.remote_port != 0 && !self.port_free(svc.remote_port, name.as_str()) {
            None
        } else {
            if svc.is_tcp() && !svc.is_vhost() {
                if self.find_port(svc.remote_port).is_none() {
                    let ghost v0 = self@;
                    self.ports.push((svc.remote_port, name));
                    proof {
                        assert(self@.ports =~= v0.ports.push((svc.remote_port, svc.name@)));
                    }
                }
            }
            Some(svc)
        }
    }

    /// Puts `e` in place of the entry of the same name.
    fn put_entry(&mut self, e: ServiceEntry)
        ensures
            final(self)@ == entry_step(old(self)@, e@),
    {
        let ghost v0 = self@;
        let ghost ev = e@;
        match self.find_service(e.config.name.as_str()) {
            Some(i) => {
                self.services.set(i, e);
                proof {
                    assert(self@.services =~= v0.services.update(i as int, ev));
                    assert(first_match(v0.services, named(ev.config.name@)) == Some(i as int));
                    assert(entry_step(v0, ev).services == v0.services.update(i as int, ev));
                    assert(self@.groups == v0.groups);
                    assert(self@.clients == v0.clients);
                    assert(self@.ports == v0.ports);
                    assert(self@.pending == v0.pending);
                    assert(self@ =~= entry_step(v0, ev));
                }
            },
            None => {
                self.services.push(e);
                proof {
                    assert(self@.services =~= v0.services.push(ev));
                    assert(self@ =~= entry_step(v0, ev));
                }
            },
        }
    }

    /// Adds `(name, session)` to group `g`.
    fn add_group_member(&mut self, g: Option<String>, name: &str, session: u64)
        ensures
            final(self)@ == group_step(
                old(self)@,
                match g {
                    Some(x) => Some(x@),
                    None => None,
                },
                name@,
                session,
            ),
    {
        let ghost v0 = self@;
        match g {
            Some(g) => {
                match self.find_group(g.as_str()) {
                    Some(i) => {
                        proof {
                            lemma_first_match_props(v0.groups, group_is(g@));
                        }
                        let ghost gs0 = self.groups@;
                        let mut rec = self.groups.remove(i);
                        let ghost m0 = rec.members@;
                        rec.members.push((name.to_string(), session));
                        proof {
                            assert(rec.members@.map_values(|m: (String, u64)| (m.0@, m.1)) =~= m0.map_values(
                                |m: (String, u64)| (m.0@, m.1),
                            ).push((name@, session)));
                        }
                        let ghost recv = rec;
                        self.groups.insert(i, rec);
                        proof {
                            assert(self.groups@ == gs0.update(i as int, recv));
                            assert(recv.name == gs0[i as int].name);
                            assert(recv.round_robin == gs0[i as int].round_robin);
                            assert(m0 == gs0[i as int].members@);
                            let want = v0.groups.update(
                                i as int,
                                (g@, v0.groups[i as int].1.push((name@, session)), v0.groups[i as int].2),
                            );
                            assert forall|j: int| 0 <= j < want.len() implies self@.groups[j] == want[j] by {
                                if j != i {
                                    assert(self.groups@[j] == gs0[j]);
                                }
                            }
                            assert(self@.groups =~= want);
                            assert(self@ =~= group_step(v0, Some(g@), name@, session));
                        }
                    },
                    None => {
                        let mut members: Vec<(String, u64)> = Vec::new();
                        members.push((name.to_string(), session));
                        self.groups.push(GroupRecord { name: g, members, round_robin: 0 });
                        proof {
                            assert(self@.groups.last().1 =~= seq![(name@, session)]);
                            assert(self@.groups =~= v0.groups.push((g@, seq![(name@, session)], 0)));
                            assert(self@ =~= group_step(v0, Some(g@), name@, session));
                        }
                    },
                }
            },
            None => {
                proof {
                    assert(self@ =~= v0);
                }
            },
        }
    }

    /// Lists `name` among `client`'s services.
    fn add_client_service(&mut self, client: &str, name: &str)
        ensures
            final(self)@ == client_step(old(self)@, client@, name@),
    {
        let ghost v0 = self@;
        match self.find_client(client) {
            Some(i) => {
                proof {
                    lemma_first_match_props(v0.clients, client_is(client@));
                }
                if !self.client_has(i, name) {
                    let ghost cs0 = self.clients@;
                    let mut rec = self.clients.remove(i);
                    let ghost n0 = rec.services@;
                    rec.services.push(name.to_string());
                    proof {
                        assert(strs(rec.services@) =~= strs(n0).push(name@));
                    }
                    let ghost recv = rec;
                    self.clients.insert(i, rec);
                    proof {
                        assert(self.clients@ == cs0.update(i as int, recv));
                        assert(recv.id == cs0[i as int].id);
                        assert(recv.session == cs0[i as int].session);
                        assert(n0 == cs0[i as int].services@);
                        let want = v0.clients.update(
                            i as int,
                            (client@, v0.clients[i as int].1, v0.clients[i as int].2.push(name@)),
                        );
                        assert forall|j: int| 0 <= j < want.len() implies self@.clients[j] == want[j] by {
                            if j != i {
                                assert(self.clients@[j] == cs0[j]);
                            }
                        }
                        assert(self@.clients =~= want);
                        assert(self@ =~= client_step(v0, client@, name@));
                    }
                } else {
                    proof {
                        assert(self@ =~= v0);
                    }
                }
            },
            None => {
                proof {
                    assert(self@ =~= v0);
                }
            },
        }
    }

    /// Registers service `svc` of `client` (control session `session`) at
    /// `now`; the service as registered, if it is enabled.
    fn register_one(&mut self, client: &str, session: u64, svc: Service, now: u64) -> (out: Option<Service>)
        ensures
            final(self)@ == register_one(old(self)@, client@, session, svc, now).0,
            match register_one(old(self)@, client@, session, svc, now).1 {
                Some(s) => out matches Some(o) && same_service(o, s),
                None => out is None,
            },
    {
        if !svc.is_enabled() {
            return None;
        }
        let name = svc.name.clone();
        let group = crate::protocol::msg::copy_opt(&svc.group);
        let svc = match self.assign_port(svc) {
            Some(s) => s,
            None => {
                return None;
            },
        };
        let out = copy_service(&svc);
        let entry = ServiceEntry {
            config: svc,
            client_id: client.to_string(),
            session,
            healthy: true,
            enabled: true,
            current_conns: 0,
            traffic_tx: 0,
            traffic_rx: 0,
            started_at_ms: now,
            last_health_check_ms: now,
        };
        self.put_entry(entry);
        self.add_group_member(group, name.as_str(), session);
        self.add_client_service(client, name.as_str());
        Some(out)
    }
}

impl Registry {
    /// Records `session` as `client`'s control session.
    fn set_control(&mut self, client: &str, session: u64)
        ensures
            final(self)@ == with_control(old(self)@, client@, session),
    {
        let ghost v0 = self@;
        match self.find_client(client) {
            Some(i) => {
                proof {
                    lemma_first_match_props(v0.clients, client_is(client@));
                }
                let ghost cs0 = self.clients@;
                let mut rec = self.clients.remove(i);
                rec.session = session;
                let ghost recv = rec;
                self.clients.insert(i, rec);
                proof {
                    assert(self.clients@ == cs0.update(i as int, recv));
                    let want = v0.clients.update(i as int, (client@, session, v0.clients[i as int].2));
                    assert forall|j: int| 0 <= j < want.len() implies self@.clients[j] == want[j] by {
                        if j != i {
                            assert(self.clients@[j] == cs0[j]);
                        }
                    }
                    assert(self@.clients =~= want);
                    assert(self@ =~= with_control(v0, client@, session));
                }
            },
            None => {
                self.clients.push(ClientRecord { id: client.to_string(), session, services: Vec::new() });
                proof {
                    assert(strs(self.clients@.last().services@) =~= Seq::<Seq<char>>::empty());
                    assert(self@.clients =~= v0.clients.push((client@, session, Seq::empty())));
                    assert(self@ =~= with_control(v0, client@, session));
                }
            },
        }
    }

    /// Registers the services of `client`, whose control session is
    /// `session`, at `now`: each enabled one gets its public port and
    /// replaces any service of the same name.  The registered services, in
    /// order.
    pub fn register_services(&mut self, client: &str, session: u64, services: Vec<Service>, now: u64) -> (out: Vec<Service>)
        ensures
            final(self)@ == register_all(with_control(old(self)@, client@, session), client@, session, services@, now).0,
            out@.len() == register_all(with_control(old(self)@, client@, session), client@, session, services@, now).1.len(),
            forall|i: int|
                0 <= i < out@.len() ==> same_service(
                    #[trigger] out@[i],
                    register_all(with_control(old(self)@, client@, session), client@, session, services@, now).1[i],
                ),
            forall|i: int| 0 <= i < out@.len() ==> port_granted(old(self)@.ports, #[trigger] out@[i]),
    {
        self.set_control(client, session);
        let ghost vc = self@;
        let ghost all = services@;
        let n = services.len();
        let mut rest = services;
        let mut out: Vec<Service> = Vec::new();
        let mut k: usize = 0;
        proof {
            assert(all.take(0) =~= Seq::<Service>::empty());
            assert(all.skip(0) == all);
        }
        while rest.len() > 0
            invariant
                n == all.len(),
                k + rest@.len() == n,
                rest@ == all.skip(k as int),
                self@ == register_all(vc, client@, session, all.take(k as int), now).0,
                out@.len() == register_all(vc, client@, session, all.take(k as int), now).1.len(),
                forall|i: int|
                    0 <= i < out@.len() ==> same_service(
                        #[trigger] out@[i],
                        register_all(vc, client@, session, all.take(k as int), now).1[i],
                    ),
            decreases rest@.len(),
        {
            let ghost r0 = rest@;
            let svc = rest.remove(0);
            proof {
                assert(svc == all[k as int]);
                assert(rest@ =~= all.skip(k + 1));
                assert(all.take(k + 1).drop_last() == all.take(k as int));
                assert(all.take(k + 1).last() == all[k as int]);
            }
            let ghost before = out@;
            match self.register_one(client, session, svc, now) {
                Some(s) => {
                    out.push(s);
                },
                None => {},
            }
            proof {
                let prev = register_all(vc, client@, session, all.take(k as int), now);
                let step = register_one(prev.0, client@, session, all[k as int], now);
                assert(register_all(vc, client@, session, all.take(k + 1), now) == (
                    step.0,
                    match step.1 {
                        Some(x) => prev.1.push(x),
                        None => prev.1,
                    },
                ));
                assert forall|i: int| 0 <= i < out@.len() implies same_service(
                    #[trigger] out@[i],
                    register_all(vc, client@, session, all.take(k + 1), now).1[i],
                ) by {
                    if i < before.len() {
                        assert(out@[i] == before[i]);
                    }
                }
            }
            k = k + 1;
        }
        proof {
            assert(all.take(n as int) == all);
            lemma_registered_ports_are_granted(vc, client@, session, all, now);
            let spec_out = register_all(vc, client@, session, all, now).1;
            assert forall|i: int| 0 <= i < out@.len() implies port_granted(old(self)@.ports, #[trigger] out@[i]) by {
                assert(same_service(out@[i], spec_out[i]));
                assert(port_granted(vc.ports, spec_out[i]));
            }
        }
        out
    }

    /// Whether `session` is `client`'s current control session.
    pub fn is_current_control(&self, client: &str, session: u64) -> (b: bool)
        ensures
            b == is_current(self@, client@, session),
    {
        match self.find_client(client) {
            Some(i) => self.clients[i].session == session,
            None => false,
        }
    }
}

impl Registry {
    /// Frees port `p`.
    fn free_port(&mut self, p: u16)
        ensures
            final(self)@ == (RegView { ports: old(self)@.ports.filter(port_not(p)), ..old(self)@ }),
    {
        let ghost v0 = self@;
        let ghost f = port_not(p);
        let mut rest: Vec<(u16, String)> = Vec::new();
        std::mem::swap(&mut rest, &mut self.ports);
        let ghost all = v0.ports;
        let n = rest.len();
        let mut k: usize = 0;
        proof {
            assert(all.take(0).filter(f) =~= Seq::<(u16, Seq<char>)>::empty()) by {
                reveal_with_fuel(Seq::filter, 1);
            }
            assert(rest@.map_values(|q: (u16, String)| (q.0, q.1@)) =~= all.skip(0));
        }
        while rest.len() > 0
            invariant
                n == all.len(),
                k + rest@.len() == n,
                rest@.map_values(|q: (u16, String)| (q.0, q.1@)) == all.skip(k as int),
                self@.ports == all.take(k as int).filter(f),
                self@ == (RegView { ports: self@.ports, ..v0 }),
                all == v0.ports,
                f == port_not(p),
            decreases rest@.len(),
        {
            let ghost r0 = rest@;
            let e = rest.remove(0);
            let ghost ev = (e.0, e.1@);
            proof {
                assert(rest@ == r0.remove(0));
                assert(r0.map_values(|q: (u16, String)| (q.0, q.1@))[0] == ev);
                assert(all.skip(k as int)[0] == all[k as int]);
                assert(rest@.map_values(|q: (u16, String)| (q.0, q.1@)) =~= r0.map_values(|q: (u16, String)| (q.0, q.1@)).drop_first());
                assert(all.skip(k as int).drop_first() =~= all.skip(k + 1));
                assert(rest@.map_values(|q: (u16, String)| (q.0, q.1@)) =~= all.skip(k + 1));
                assert(all.take(k + 1) == all.take(k as int).push(ev));
                all.take(k as int).lemma_filter_push(ev, f);
            }
            if e.0 != p {
                let ghost p0 = self@;
                self.ports.push(e);
                proof {
                    assert(self@.ports =~= p0.ports.push(ev));
                    assert(self@ =~= (RegView { ports: self@.ports, ..v0 }));
                }
            }
            k = k + 1;
        }
        proof {
            assert(all.take(n as int) == all);
            assert(self@ =~= (RegView { ports: all.filter(f), ..v0 }));
        }
    }

    /// Drops service `name` from group `g`'s members, and the group when it
    /// is left empty.
    fn leave_group(&mut self, g: &str, name: &str)
        ensures
            final(self)@ == (RegView {
                groups: match first_match(old(self)@.groups, group_is(g@)) {
                    Some(j) => {
                        let members = old(self)@.groups[j].1.filter(member_not(name@));
                        if members.len() == 0 {
                            old(self)@.groups.remove(j)
                        } else {
                            old(self)@.groups.update(j, (g@, members, old(self)@.groups[j].2))
                        }
                    },
                    None => old(self)@.groups,
                },
                ..old(self)@
            }),
    {
        let ghost v0 = self@;
        match self.find_group(g) {
            None => {
                proof {
                    assert(self@ =~= v0);
                }
            },
            Some(j) => {
                proof {
                    lemma_first_match_props(v0.groups, group_is(g@));
                }
                let ghost gs0 = self.groups@;
                let rec = self.groups.remove(j);
                let ghost f = member_not(name@);
                let ghost all = rec.members@.map_values(|m: (String, u64)| (m.0@, m.1));
                let mut rest = rec.members;
                let mut kept: Vec<(String, u64)> = Vec::new();
                let n = rest.len();
                let mut k: usize = 0;
                proof {
                    assert(all.take(0).filter(f) =~= Seq::<(Seq<char>, u64)>::empty()) by {
                        reveal_with_fuel(Seq::filter, 1);
                    }
                    assert(rest@.map_values(|m: (String, u64)| (m.0@, m.1)) =~= all.skip(0));
                }
                while rest.len() > 0
                    invariant
                        n == all.len(),
                        k + rest@.len() == n,
                        rest@.map_values(|m: (String, u64)| (m.0@, m.1)) == all.skip(k as int),
                        kept@.map_values(|m: (String, u64)| (m.0@, m.1)) == all.take(k as int).filter(f),
                        f == member_not(name@),
                    decreases rest@.len(),
                {
                    let ghost r0 = rest@;
                    let e = rest.remove(0);
                    let ghost ev = (e.0@, e.1);
                    proof {
                        assert(rest@ == r0.remove(0));
                        assert(r0.map_values(|m: (String, u64)| (m.0@, m.1))[0] == ev);
                        assert(all.skip(k as int)[0] == all[k as int]);
                        assert(rest@.map_values(|m: (String, u64)| (m.0@, m.1)) =~= r0.map_values(|m: (String, u64)| (m.0@, m.1)).drop_first());
                        assert(all.skip(k as int).drop_first() =~= all.skip(k + 1));
                        assert(rest@.map_values(|m: (String, u64)| (m.0@, m.1)) =~= all.skip(k + 1));
                        assert(all.take(k + 1) == all.take(k as int).push(ev));
                        all.take(k as int).lemma_filter_push(ev, f);
                    }
                    if !str_eq(e.0.as_str(), name) {
                        let ghost kp = kept@;
                        kept.push(e);
                        proof {
                            assert(kept@.map_values(|m: (String, u64)| (m.0@, m.1)) =~= kp.map_values(
                                |m: (String, u64)| (m.0@, m.1),
                            ).push(ev));
                        }
                    }
                    k = k + 1;
                }
                proof {
                    assert(all.take(n as int) == all);
                    assert(all == v0.groups[j as int].1);
                }
                if kept.len() == 0 {
                    proof {
                        assert(self@.groups =~= v0.groups.remove(j as int));
                        assert(self@ =~= (RegView { groups: v0.groups.remove(j as int), ..v0 }));
                    }
                } else {
                    let nr = GroupRecord { name: rec.name, members: kept, round_robin: rec.round_robin };
                    let ghost nrv = nr;
                    self.groups.insert(j, nr);
                    proof {
                        assert(self.groups@ == gs0.update(j as int, nrv));
                        let want = v0.groups.update(j as int, (g@, v0.groups[j as int].1.filter(f), v0.groups[j as int].2));
                        assert forall|x: int| 0 <= x < want.len() implies self@.groups[x] == want[x] by {
                            if x != j {
                                assert(self.groups@[x] == gs0[x]);
                            }
                        }
                        assert(self@.groups =~= want);
                        assert(self@ =~= (RegView { groups: want, ..v0 }));
                    }
                }
            },
        }
    }

    /// Removes service `name` (see [`remove_service`]).
    fn remove_one_service(&mut self, name: &str)
        ensures
            final(self)@ == remove_service(old(self)@, name@),
    {
        let ghost v0 = self@;
        match self.find_service(name) {
            None => {},
            Some(i) => {
                let e = self.services.remove(i);
                proof {
                    assert(e@ == v0.services[i as int]);
                    assert(self@.services =~= v0.services.remove(i as int));
                }
                let ghost v1 = self@;
                if e.config.remote_port != 0 && !e.config.is_vhost() {
                    self.free_port(e.config.remote_port);
                }
                let ghost v2 = self@;
                match &e.config.group {
                    Some(g) => {
                        self.leave_group(g.as_str(), name);
                    },
                    None => {},
                }
                proof {
                    assert(self@ =~= remove_service(v0, name@));
                }
            },
        }
    }

    /// Removes the services named `names`, in order.
    fn remove_names(&mut self, names: &Vec<String>)
        ensures
            final(self)@ == remove_services(old(self)@, strs(names@)),
    {
        let mut k: usize = 0;
        while k < names.len()
            invariant
                0 <= k <= names@.len(),
                self@ == remove_services(old(self)@, strs(names@).take(k as int)),
            decreases names@.len() - k,
        {
            proof {
                assert(strs(names@).take(k + 1).drop_last() == strs(names@).take(k as int));
                assert(strs(names@).take(k + 1).last() == names@[k as int]@);
            }
            self.remove_one_service(names[k].as_str());
            k = k + 1;
        }
        proof {
            assert(strs(names@).take(names@.len() as int) == strs(names@));
        }
    }

    /// Ends `client`'s session whatever it is: its record and its services
    /// go.
    pub fn unregister_client(&mut self, client: &str)
        ensures
            final(self)@ == unregister(old(self)@, client@),
    {
        let ghost v0 = self@;
        match self.find_client(client) {
            None => {},
            Some(i) => {
                let rec = self.clients.remove(i);
                proof {
                    assert(self@.clients =~= v0.clients.remove(i as int));
                    assert(self@ =~= (RegView { clients: v0.clients.remove(i as int), ..v0 }));
                    assert(strs(rec.services@) == v0.clients[i as int].2);
                }
                self.remove_names(&rec.services);
            },
        }
    }

    /// Ends `client`'s session only if `session` is still its current one:
    /// a client that reconnected before its old session noticed is left
    /// alone.  Whether it ended the session.
    pub fn unregister_client_if_current(&mut self, client: &str, session: u64) -> (ended: bool)
        ensures
            ended == is_current(old(self)@, client@, session),
            ended ==> final(self)@ == unregister(old(self)@, client@),
            !ended ==> final(self)@ == old(self)@,
    {
        if !self.is_current_control(client, session) {
            return false;
        }
        self.unregister_client(client);
        true
    }
}

impl Registry {
    /// The service called `name`.
    pub fn get_service_by_name(&self, name: &str) -> (r: Option<&ServiceEntry>)
        ensures
            match first_match(self@.services, named(name@)) {
                Some(i) => r matches Some(e) && e@ == self@.services[i],
                None => r is None,
            },
    {
        match self.find_service(name) {
            Some(i) => Some(&self.services[i]),
            None => None,
        }
    }

    /// The first enabled service routed by `host`.
    pub fn get_service_by_host(&self, host: &str) -> (r: Option<&ServiceEntry>)
        ensures
            match first_match(self@.services, serves(host@)) {
                Some(i) => r matches Some(e) && e@ == self@.services[i],
                None => r is None,
            },
    {
        let hc = crate::text::chars_of(host);
        proof {
            assert(hc@.subrange(0, hc@.len() as int) == hc@);
        }
        let h = crate::text::lowercase_range(hc.as_slice(), 0, hc.len());
        let mut i: usize = 0;
        while i < self.services.len()
            invariant
                0 <= i <= self.services@.len(),
                h@ == crate::text::lowercase(host@),
                forall|j: int| 0 <= j < i ==> !serves(host@)(#[trigger] self@.services[j]),
            decreases self.services@.len() - i,
        {
            let e = &self.services[i];
            let mut hit = false;
            if e.enabled {
                match &e.config.host {
                    Some(x) => {
                        let xc = crate::text::chars_of(x.as_str());
                        proof {
                            assert(xc@.subrange(0, xc@.len() as int) == xc@);
                            assert(h@.subrange(0, h@.len() as int) == h@);
                        }
                        if crate::text::range_eq_ignore_case(xc.as_slice(), 0, xc.len(), h.as_slice()) {
                            hit = true;
                        }
                    },
                    None => {},
                }
                match &e.config.subdomain {
                    Some(sub) => {
                        let sc = crate::text::chars_of(sub.as_str());
                        let mut label = crate::text::chars_of(sub.as_str());
                        label.push('.');
                        proof {
                            reveal_strlit(".");
                            assert(label@ =~= sub@ + "."@);
                            assert(h@.subrange(0, h@.len() as int) == h@);
                            if label@.len() <= h@.len() {
                                assert(h@.subrange(0, label@.len() as int) == h@.take(label@.len() as int));
                            }
                        }
                        if crate::text::range_eq(h.as_slice(), 0, h.len(), sc.as_slice())
                            || crate::text::range_starts_with(h.as_slice(), 0, h.len(), label.as_slice()) {
                            hit = true;
                        }
                    },
                    None => {},
                }
            }
            proof {
                assert(hit == serves_host(self@.services[i as int], host@));
            }
            if hit {
                proof {
                    lemma_first_match(self@.services, serves(host@), i as int);
                }
                return Some(e);
            }
            i = i + 1;
        }
        proof {
            lemma_first_match(self@.services, serves(host@), i as int);
        }
        None
    }

    /// The name of the service listening on public port `port`.
    pub fn get_service_name_by_port(&self, port: u16) -> (r: Option<String>)
        ensures
            match first_match(self@.services, on_port(port)) {
                Some(i) => r matches Some(n) && n@ == self@.services[i].config.name@,
                None => r is None,
            },
    {
        let mut i: usize = 0;
        while i < self.services.len()
            invariant
                0 <= i <= self.services@.len(),
                forall|j: int| 0 <= j < i ==> !on_port(port)(#[trigger] self@.services[j]),
            decreases self.services@.len() - i,
        {
            if self.services[i].config.remote_port == port {
                proof {
                    lemma_first_match(self@.services, on_port(port), i as int);
                }
                return Some(self.services[i].config.name.clone());
            }
            i = i + 1;
        }
        proof {
            lemma_first_match(self@.services, on_port(port), i as int);
        }
        None
    }

    /// Switches service `name` on or off; whether it exists.
    pub fn toggle_service(&mut self, name: &str, enabled: bool) -> (found: bool)
        ensures
            match first_match(old(self)@.services, named(name@)) {
                Some(i) => found && final(self)@ == (RegView {
                    services: old(self)@.services.update(i, EntryView { enabled, ..old(self)@.services[i] }),
                    ..old(self)@
                }),
                None => !found && final(self)@ == old(self)@,
            },
    {
        let ghost v0 = self@;
        match self.find_service(name) {
            Some(i) => {
                let mut e = self.services.remove(i);
                e.enabled = enabled;
                self.services.insert(i, e);
                proof {
                    assert(self@.services =~= v0.services.update(i as int, EntryView { enabled, ..v0.services[i as int] }));
                    assert(self@ =~= (RegView {
                        services: v0.services.update(i as int, EntryView { enabled, ..v0.services[i as int] }),
                        ..v0
                    }));
                }
                true
            },
            None => false,
        }
    }

    /// Records a health report for service `name` at `now`.
    pub fn report_health(&mut self, name: &str, healthy: bool, now: u64)
        ensures
            match first_match(old(self)@.services, named(name@)) {
                Some(i) => final(self)@ == (RegView {
                    services: old(self)@.services.update(
                        i,
                        EntryView { healthy, last_health_check_ms: now, ..old(self)@.services[i] },
                    ),
                    ..old(self)@
                }),
                None => final(self)@ == old(self)@,
            },
    {
        let ghost v0 = self@;
        match self.find_service(name) {
            Some(i) => {
                let mut e = self.services.remove(i);
                e.healthy = healthy;
                e.last_health_check_ms = now;
                self.services.insert(i, e);
                proof {
                    let ne = EntryView { healthy, last_health_check_ms: now, ..v0.services[i as int] };
                    assert(self@.services =~= v0.services.update(i as int, ne));
                    assert(self@ =~= (RegView { services: v0.services.update(i as int, ne), ..v0 }));
                }
            },
            None => {},
        }
    }

    /// Adds relayed bytes to service `name`'s counters (which wrap around).
    pub fn record_traffic(&mut self, name: &str, tx: u64, rx: u64)
        ensures
            match first_match(old(self)@.services, named(name@)) {
                Some(i) => final(self)@ == (RegView {
                    services: old(self)@.services.update(
                        i,
                        EntryView {
                            tx: old(self)@.services[i].tx.wrapping_add(tx),
                            rx: old(self)@.services[i].rx.wrapping_add(rx),
                            ..old(self)@.services[i]
                        },
                    ),
                    ..old(self)@
                }),
                None => final(self)@ == old(self)@,
            },
    {
        let ghost v0 = self@;
        match self.find_service(name) {
            Some(i) => {
                let mut e = self.services.remove(i);
                e.traffic_tx = e.traffic_tx.wrapping_add(tx);
                e.traffic_rx = e.traffic_rx.wrapping_add(rx);
                self.services.insert(i, e);
                proof {
                    let ne = EntryView {
                        tx: v0.services[i as int].tx.wrapping_add(tx),
                        rx: v0.services[i as int].rx.wrapping_add(rx),
                        ..v0.services[i as int]
                    };
                    assert(self@.services =~= v0.services.update(i as int, ne));
                    assert(self@ =~= (RegView { services: v0.services.update(i as int, ne), ..v0 }));
                }
            },
            None => {},
        }
    }

    /// Admits a connection to the public port of service `name`: the
    /// service must exist, be enabled and healthy, and be under its
    /// connection limit (0: none).  An admitted connection is counted (the
    /// counter wraps around) and told how it is served.
    pub fn admit_inbound(&mut self, name: &str) -> (r: Result<InboundPlan, InboundRefusal>)
        ensures
            (r, final(self)@) == admitted(old(self)@, name@),
    {
        let ghost v0 = self@;
        let i = match self.find_service(name) {
            Some(i) => i,
            None => {
                return Err(InboundRefusal::NotFound);
            },
        };
        if !self.services[i].enabled || !self.services[i].healthy {
            return Err(InboundRefusal::Unavailable);
        }
        let max = self.services[i].config.max_connections;
        if max > 0 && self.services[i].current_conns >= max as usize {
            return Err(InboundRefusal::MaxConnections);
        }
        let plan = if str_eq(self.services[i].config.effective_type(), "static")
            && !self.services[i].config.proxy_protocol {
            InboundPlan::Static
        } else {
            InboundPlan::Relay
        };
        let mut e = self.services.remove(i);
        e.current_conns = e.current_conns.wrapping_add(1);
        self.services.insert(i, e);
        proof {
            let ne = EntryView { conns: v0.services[i as int].conns.wrapping_add(1), ..v0.services[i as int] };
            assert(self@.services =~= v0.services.update(i as int, ne));
            assert(self@ =~= (RegView { services: v0.services.update(i as int, ne), ..v0 }));
        }
        Ok(plan)
    }

    /// Counts a connection of service `name` as closed (the counter wraps
    /// around).
    pub fn release_inbound(&mut self, name: &str)
        ensures
            match first_match(old(self)@.services, named(name@)) {
                Some(i) => final(self)@ == (RegView {
                    services: old(self)@.services.update(
                        i,
                        EntryView { conns: old(self)@.services[i].conns.wrapping_sub(1), ..old(self)@.services[i] },
                    ),
                    ..old(self)@
                }),
                None => final(self)@ == old(self)@,
            },
    {
        let ghost v0 = self@;
        match self.find_service(name) {
            Some(i) => {
                let mut e = self.services.remove(i);
                e.current_conns = e.current_conns.wrapping_sub(1);
                self.services.insert(i, e);
                proof {
                    let ne = EntryView { conns: v0.services[i as int].conns.wrapping_sub(1), ..v0.services[i as int] };
                    assert(self@.services =~= v0.services.update(i as int, ne));
                    assert(self@ =~= (RegView { services: v0.services.update(i as int, ne), ..v0 }));
                }
            },
            None => {},
        }
    }

    /// The health watch at `now` (ms): every enabled service with an active
    /// check whose last report is older than its deadline is marked
    /// unhealthy; nothing else changes.
    pub fn expire_health(&mut self, now: u64)
        ensures
            final(self)@ == (RegView {
                services: old(self)@.services.map_values(|e: EntryView| watched(e, now)),
                ..old(self)@
            }),
    {
        let ghost v0 = self@;
        let mut i: usize = 0;
        while i < self.services.len()
            invariant
                0 <= i <= self.services@.len(),
                self.services@.len() == v0.services.len(),
                forall|j: int| 0 <= j < i ==> (#[trigger] self@.services[j]) == watched(v0.services[j], now),
                forall|j: int| i <= j < v0.services.len() ==> (#[trigger] self@.services[j]) == v0.services[j],
                self@ == (RegView { services: self@.services, ..v0 }),
            decreases self.services@.len() - i,
        {
            let e = &self.services[i];
            let deadline: u64 = if e.config.health_timeout > 0 {
                if e.config.health_timeout < 30 {
                    30
                } else {
                    e.config.health_timeout as u64
                }
            } else {
                90
            };
            let expired = e.enabled && e.config.health_check.is_some() && now >= e.last_health_check_ms
                && now - e.last_health_check_ms > deadline * 1000;
            proof {
                assert(self@.services[i as int] == v0.services[i as int]);
                assert(deadline == crate::server::registry_spec::health_deadline_secs(v0.services[i as int].config));
                assert(expired == crate::server::registry_spec::health_expired(v0.services[i as int], now));
            }
            if expired {
                let ghost s0 = self@.services;
                let ghost e0 = self.services[i as int];
                let mut x = self.services.remove(i);
                assert(x == e0);
                x.healthy = false;
                self.services.insert(i, x);
                proof {
                    assert(self@.services =~= s0.update(i as int, watched(v0.services[i as int], now)));
                }
            }
            i = i + 1;
        }
        proof {
            assert(self@.services =~= v0.services.map_values(|e: EntryView| watched(e, now)));
        }
    }

    /// Whether a listener runs on `port`.
    pub fn is_listener_active(&self, port: u16) -> (b: bool)
        ensures
            b == self@.listeners.contains(port),
    {
        let mut i: usize = 0;
        while i < self.listeners.len()
            invariant
                0 <= i <= self.listeners@.len(),
                forall|j: int| 0 <= j < i ==> self.listeners@[j] != port,
            decreases self.listeners@.len() - i,
        {
            if self.listeners[i] == port {
                return true;
            }
            i = i + 1;
        }
        false
    }

    /// Notes that a listener runs on `port`.
    pub fn mark_listener_active(&mut self, port: u16)
        ensures
            final(self)@.listeners.contains(port),
            forall|p: u16| p != port ==> (final(self)@.listeners.contains(p) <==> old(self)@.listeners.contains(p)),
            final(self)@ == (RegView { listeners: final(self)@.listeners, ..old(self)@ }),
    {
        if !self.is_listener_active(port) {
            let ghost v0 = self@;
            self.listeners.push(port);
            proof {
                assert(self@.listeners == v0.listeners.push(port));
                assert(self@.listeners[v0.listeners.len() as int] == port);
                assert forall|p: u16| p != port implies (self@.listeners.contains(p) <==> v0.listeners.contains(p)) by {
                    if self@.listeners.contains(p) {
                        let j = choose|j: int| 0 <= j < self@.listeners.len() && self@.listeners[j] == p;
                        assert(v0.listeners[j] == p);
                    }
                    if v0.listeners.contains(p) {
                        let j = choose|j: int| 0 <= j < v0.listeners.len() && v0.listeners[j] == p;
                        assert(self@.listeners[j] == p);
                    }
                }
                assert(self@ =~= (RegView { listeners: self@.listeners, ..v0 }));
            }
        }
    }

    /// Notes that the listener on `port` is gone.
    pub fn remove_listener_handle(&mut self, port: u16)
        ensures
            !final(self)@.listeners.contains(port),
            forall|p: u16| p != port ==> (final(self)@.listeners.contains(p) <==> old(self)@.listeners.contains(p)),
            final(self)@ == (RegView { listeners: final(self)@.listeners, ..old(self)@ }),
    {
        let ghost v0 = self@;
        let mut kept: Vec<u16> = Vec::new();
        let mut i: usize = 0;
        while i < self.listeners.len()
            invariant
                0 <= i <= self.listeners@.len(),
                self@ == v0,
                !kept@.contains(port),
                forall|p: u16| p != port ==> (kept@.contains(p) <==> self.listeners@.take(i as int).contains(p)),
            decreases self.listeners@.len() - i,
        {
            let x = self.listeners[i];
            let ghost k0 = kept@;
            if x != port {
                kept.push(x);
            }
            proof {
                let t = self.listeners@.take(i as int);
                assert(self.listeners@.take(i + 1) == t.push(x));
                assert forall|p: u16| p != port implies (kept@.contains(p) <==> self.listeners@.take(i + 1).contains(p)) by {
                    let t1 = self.listeners@.take(i + 1);
                    if kept@.contains(p) {
                        let j = choose|j: int| 0 <= j < kept@.len() && kept@[j] == p;
                        if j < k0.len() {
                            assert(k0[j] == p);
                            assert(k0.contains(p));
                            assert(t.contains(p));
                            let m = choose|m: int| 0 <= m < t.len() && t[m] == p;
                            assert(t1[m] == p);
                        } else {
                            assert(t1[i as int] == p);
                        }
                    }
                    if t1.contains(p) {
                        let m = choose|m: int| 0 <= m < t1.len() && t1[m] == p;
                        if m < i {
                            assert(t[m] == p);
                            assert(t.contains(p));
                            assert(k0.contains(p));
                            let j = choose|j: int| 0 <= j < k0.len() && k0[j] == p;
                            assert(kept@[j] == p);
                        } else {
                            assert(kept@[k0.len() as int] == p);
                        }
                    }
                }
                if kept@.contains(port) {
                    let j = choose|j: int| 0 <= j < kept@.len() && kept@[j] == port;
                    if j < k0.len() {
                        assert(k0[j] == port);
                    }
                }
            }
            i = i + 1;
        }
        proof {
            assert(self.listeners@.take(self.listeners@.len() as int) == self.listeners@);
        }
        self.listeners = kept;
        proof {
            assert(self@ =~= (RegView { listeners: self@.listeners, ..v0 }));
        }
    }

    fn find_pending(&self, id: &str) -> (r: Option<usize>)
        ensures
            match r {
                Some(i) => i < self@.pending.len() && self@.pending[i as int] == id@,
                None => !self@.pending.contains(id@),
            },
    {
        let mut i: usize = 0;
        while i < self.pending.len()
            invariant
                0 <= i <= self.pending@.len(),
                forall|j: int| 0 <= j < i ==> self@.pending[j] != id@,
            decreases self.pending@.len() - i,
        {
            if str_eq(self.pending[i].as_str(), id) {
                return Some(i);
            }
            i = i + 1;
        }
        None
    }

    /// Removes tunnel request `id` from the waiting ones; whether it was
    /// waiting.
    fn take_pending(&mut self, id: &str) -> (was: bool)
        requires
            old(self)@.pending.no_duplicates(),
        ensures
            was == old(self)@.pending.contains(id@),
            !final(self)@.pending.contains(id@),
            final(self)@.pending.no_duplicates(),
            forall|x: Seq<char>| x != id@ ==> (final(self)@.pending.contains(x) <==> old(self)@.pending.contains(x)),
            final(self)@ == (RegView { pending: final(self)@.pending, ..old(self)@ }),
    {
        let ghost v0 = self@;
        match self.find_pending(id) {
            None => false,
            Some(i) => {
                self.pending.remove(i);
                proof {
                    assert(self@.pending =~= v0.pending.remove(i as int));
                    assert forall|x: Seq<char>| self@.pending.contains(x) <==> (v0.pending.contains(x) && x != id@) by {
                        if self@.pending.contains(x) {
                            let j = choose|j: int| 0 <= j < self@.pending.len() && self@.pending[j] == x;
                            if j < i {
                                assert(v0.pending[j] == x);
                            } else {
                                assert(v0.pending[j + 1] == x);
                            }
                        }
                        if v0.pending.contains(x) && x != id@ {
                            let j = choose|j: int| 0 <= j < v0.pending.len() && v0.pending[j] == x;
                            if j < i {
                                assert(self@.pending[j] == x);
                            } else {
                                assert(self@.pending[j - 1] == x);
                            }
                        }
                    }
                    assert(self@ =~= (RegView { pending: self@.pending, ..v0 }));
                }
                true
            },
        }
    }

    /// Records tunnel request `id` as waiting for the client's tunnel.
    pub fn begin_tunnel(&mut self, id: &str)
        requires
            old(self)@.pending.no_duplicates(),
        ensures
            final(self)@.pending.contains(id@),
            final(self)@.pending.no_duplicates(),
            forall|x: Seq<char>| x != id@ ==> (final(self)@.pending.contains(x) <==> old(self)@.pending.contains(x)),
            final(self)@ == (RegView { pending: final(self)@.pending, ..old(self)@ }),
    {
        let _ = self.take_pending(id);
        let ghost v1 = self@;
        self.pending.push(id.to_string());
        proof {
            assert(self@.pending =~= v1.pending.push(id@));
            assert(self@.pending[v1.pending.len() as int] == id@);
            assert forall|x: Seq<char>| x != id@ implies (self@.pending.contains(x) <==> v1.pending.contains(x)) by {
                if self@.pending.contains(x) {
                    let j = choose|j: int| 0 <= j < self@.pending.len() && self@.pending[j] == x;
                    assert(v1.pending[j] == x);
                }
                if v1.pending.contains(x) {
                    let j = choose|j: int| 0 <= j < v1.pending.len() && v1.pending[j] == x;
                    assert(self@.pending[j] == x);
                }
            }
            assert(self@ =~= (RegView { pending: self@.pending, ..v1 }));
        }
    }

    /// Forgets tunnel request `id` (its connection gave up, or timed out).
    pub fn cancel_pending_tunnel(&mut self, id: &str)
        requires
            old(self)@.pending.no_duplicates(),
        ensures
            !final(self)@.pending.contains(id@),
            final(self)@.pending.no_duplicates(),
            forall|x: Seq<char>| x != id@ ==> (final(self)@.pending.contains(x) <==> old(self)@.pending.contains(x)),
            final(self)@ == (RegView { pending: final(self)@.pending, ..old(self)@ }),
    {
        let _ = self.take_pending(id);
    }

    /// Hands the client's tunnel to request `id`; whether it was waiting.
    pub fn complete_tunnel(&mut self, id: &str) -> (was: bool)
        requires
            old(self)@.pending.no_duplicates(),
        ensures
            was == old(self)@.pending.contains(id@),
            !final(self)@.pending.contains(id@),
            final(self)@.pending.no_duplicates(),
            forall|x: Seq<char>| x != id@ ==> (final(self)@.pending.contains(x) <==> old(self)@.pending.contains(x)),
            final(self)@ == (RegView { pending: final(self)@.pending, ..old(self)@ }),
    {
        self.take_pending(id)
    }

    /// Refuses request `id` (the client could not open its tunnel); whether
    /// it was waiting.
    pub fn reject_tunnel(&mut self, id: &str) -> (was: bool)
        requires
            old(self)@.pending.no_duplicates(),
        ensures
            was == old(self)@.pending.contains(id@),
            !final(self)@.pending.contains(id@),
            final(self)@.pending.no_duplicates(),
            forall|x: Seq<char>| x != id@ ==> (final(self)@.pending.contains(x) <==> old(self)@.pending.contains(x)),
            final(self)@ == (RegView { pending: final(self)@.pending, ..old(self)@ }),
    {
        self.take_pending(id)
    }
}

impl Registry {
    /// The next member of group `g`, round robin.
    pub fn get_group_service(&mut self, g: &str) -> (r: Option<(String, u64)>)
        ensures
            match first_match(old(self)@.groups, group_is(g@)) {
                Some(i) => {
                    let (name, members, rr) = old(self)@.groups[i];
                    if members.len() == 0 {
                        r is None && final(self)@ == old(self)@
                    } else {
                        &&& r matches Some((n, sess)) && (n@, sess) == members[rr as int % members.len() as int]
                        &&& final(self)@ == (RegView {
                            groups: old(self)@.groups.update(i, (name, members, rr.wrapping_add(1))),
                            ..old(self)@
                        })
                    }
                },
                None => r is None && final(self)@ == old(self)@,
            },
    {
        let ghost v0 = self@;
        match self.find_group(g) {
            None => None,
            Some(i) => {
                if self.groups[i].members.len() == 0 {
                    return None;
                }
                let ghost gs0 = self.groups@;
                let mut rec = self.groups.remove(i);
                let idx = rec.round_robin % rec.members.len();
                let m = (rec.members[idx].0.clone(), rec.members[idx].1);
                rec.round_robin = rec.round_robin.wrapping_add(1);
                let ghost recv = rec;
                self.groups.insert(i, rec);
                proof {
                    assert(self.groups@ == gs0.update(i as int, recv));
                    let want = v0.groups.update(
                        i as int,
                        (v0.groups[i as int].0, v0.groups[i as int].1, v0.groups[i as int].2.wrapping_add(1)),
                    );
                    assert forall|x: int| 0 <= x < want.len() implies self@.groups[x] == want[x] by {
                        if x != i {
                            assert(self.groups@[x] == gs0[x]);
                        }
                    }
                    assert(self@.groups =~= want);
                    assert(self@ =~= (RegView { groups: want, ..v0 }));
                }
                Some(m)
            },
        }
    }

    /// Each connected client and the names of its services.
    pub fn get_clients(&self) -> (r: Vec<(String, Vec<String>)>)
        ensures
            r@.map_values(|c: (String, Vec<String>)| (c.0@, strs(c.1@))) == self@.clients.map_values(
                |c: (Seq<char>, u64, Seq<Seq<char>>)| (c.0, c.2),
            ),
    {
        let mut r: Vec<(String, Vec<String>)> = Vec::new();
        let mut i: usize = 0;
        while i < self.clients.len()
            invariant
                0 <= i <= self.clients@.len(),
                r@.map_values(|c: (String, Vec<String>)| (c.0@, strs(c.1@))) == self@.clients.take(i as int).map_values(
                    |c: (Seq<char>, u64, Seq<Seq<char>>)| (c.0, c.2),
                ),
            decreases self.clients@.len() - i,
        {
            let names = crate::protocol::msg::copy_strings(&self.clients[i].services);
            let ghost r0 = r@;
            let id = self.clients[i].id.clone();
            let ghost item = (id, names);
            r.push((id, names));
            proof {
                assert(crate::protocol::msg::strs(names@) =~= strs(names@));
                assert(strs(names@) == strs(self.clients@[i as int].services@)) by {
                    assert(crate::protocol::msg::strs(self.clients@[i as int].services@) =~= strs(self.clients@[i as int].services@));
                }
                assert(r@ == r0.push(item));
                assert(r@.map_values(|c: (String, Vec<String>)| (c.0@, strs(c.1@))) =~= r0.map_values(|c: (String, Vec<String>)| (c.0@, strs(c.1@))).push((id@, strs(names@))));
                assert(self@.clients.take(i + 1) == self@.clients.take(i as int).push(self@.clients[i as int]));
                assert(r@.map_values(|c: (String, Vec<String>)| (c.0@, strs(c.1@))) =~= self@.clients.take(i + 1).map_values(
                    |c: (Seq<char>, u64, Seq<Seq<char>>)| (c.0, c.2),
                ));
            }
            i = i + 1;
        }
        proof {
            assert(self@.clients.take(self@.clients.len() as int) == self@.clients);
        }
        r
    }
}

} // verus!
