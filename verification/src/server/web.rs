//! The management interface's state and decisions: the log ring, the login
//! sessions, who may call the API, and the summaries it shows.  The HTTP
//! routing, cookies and JSON are the application's.

use crate::text::{
    chars_of, split, split_bounds, starts_with, str_eq, sub_string, trim, trim_bounds,
    range_starts_with, first_index,
};
use super::registry_spec::{first_match, lemma_first_match, lemma_first_match_props};
use super::service::ServiceEntry;
use vstd::prelude::*;

verus! {

broadcast use vstd::string::group_string_axioms;

/// At most this many log entries are kept.
pub const MAX_LOGS: usize = 500;

/// A login session lasts this many seconds.
pub const SESSION_TTL_SECS: u64 = 86_400;

/// One log line of the server.
#[derive(Debug, Clone)]
pub struct LogEntry {
    pub timestamp: u64,
    pub level: String,
    pub message: String,
}

/// Totals over all services.
#[derive(Debug, Clone, Copy, PartialEq, Eq, Structural)]
pub struct StatsSnapshot {
    pub total_services: usize,
    pub total_tx: u64,
    pub total_rx: u64,
    pub total_conns: usize,
    pub total_clients: usize,
}

/// What the dashboard shows of one service.
#[derive(Debug, Clone)]
pub struct ServiceInfo {
    pub name: String,
    pub ty: String,
    pub local_addr: String,
    pub remote_port: u16,
    pub host: Option<String>,
    pub subdomain: Option<String>,
    pub healthy: bool,
    pub enabled: bool,
    pub current_conns: usize,
    pub traffic_tx: u64,
    pub traffic_rx: u64,
    pub client_id: String,
    pub uptime_secs: u64,
    pub group: Option<String>,
    pub bandwidth_limit_kbps: u64,
}

/// What the live feed sends.
#[derive(Debug, Clone)]
pub enum ServerEvent {
    ServiceUpdate(Vec<ServiceInfo>),
    Stats(StatsSnapshot),
    Log(LogEntry),
}

/// The counters of one service, as the totals need them.
#[derive(Debug, Clone, Copy, PartialEq, Eq, Structural)]
pub struct ServiceCounters {
    pub tx: u64,
    pub rx: u64,
    pub conns: usize,
}

pub open spec fn sum_tx(c: Seq<ServiceCounters>) -> int
    decreases c.len(),
{
    if c.len() == 0 {
        0
    } else {
        sum_tx(c.drop_last()) + c.last().tx
    }
}

pub open spec fn sum_rx(c: Seq<ServiceCounters>) -> int
    decreases c.len(),
{
    if c.len() == 0 {
        0
    } else {
        sum_rx(c.drop_last()) + c.last().rx
    }
}

pub open spec fn sum_conns(c: Seq<ServiceCounters>) -> int
    decreases c.len(),
{
    if c.len() == 0 {
        0
    } else {
        sum_conns(c.drop_last()) + c.last().conns
    }
}

proof fn lemma_sums_mono(c: Seq<ServiceCounters>, i: int)
    requires
        0 <= i <= c.len(),
    ensures
        sum_tx(c.take(i)) <= sum_tx(c),
        sum_rx(c.take(i)) <= sum_rx(c),
        sum_conns(c.take(i)) <= sum_conns(c),
        sum_tx(c.take(i)) >= 0 && sum_rx(c.take(i)) >= 0 && sum_conns(c.take(i)) >= 0,
    decreases c.len() - i,
{
    if i < c.len() {
        lemma_sums_mono(c.drop_last(), i);
        assert(c.drop_last().take(i) == c.take(i));
    } else {
        assert(c.take(i) == c);
    }
    lemma_sums_nonneg(c.take(i));
}

proof fn lemma_sums_nonneg(c: Seq<ServiceCounters>)
    ensures
        sum_tx(c) >= 0 && sum_rx(c) >= 0 && sum_conns(c) >= 0,
    decreases c.len(),
{
    if c.len() > 0 {
        lemma_sums_nonneg(c.drop_last());
    }
}

/// The totals over `services` and the number of connected clients.
pub fn collect_stats(services: &Vec<ServiceCounters>, clients: usize) -> (s: StatsSnapshot)
    requires
        sum_tx(services@) <= u64::MAX,
        sum_rx(services@) <= u64::MAX,
        sum_conns(services@) <= usize::MAX,
    ensures
        s.total_services == services@.len(),
        s.total_tx == sum_tx(services@),
        s.total_rx == sum_rx(services@),
        s.total_conns == sum_conns(services@),
        s.total_clients == clients,
{
    let mut tx: u64 = 0;
    let mut rx: u64 = 0;
    let mut conns: usize = 0;
    let mut i: usize = 0;
    while i < services.len()
        invariant
            0 <= i <= services@.len(),
            sum_tx(services@) <= u64::MAX,
            sum_rx(services@) <= u64::MAX,
            sum_conns(services@) <= usize::MAX,
            tx == sum_tx(services@.take(i as int)),
            rx == sum_rx(services@.take(i as int)),
            conns == sum_conns(services@.take(i as int)),
        decreases services@.len() - i,
    {
        proof {
            assert(services@.take(i + 1).drop_last() == services@.take(i as int));
            lemma_sums_mono(services@, i + 1);
        }
        tx = tx + services[i].tx;
        rx = rx + services[i].rx;
        conns = conns + services[i].conns;
        i = i + 1;
    }
    proof {
        assert(services@.take(services@.len() as int) == services@);
    }
    StatsSnapshot {
        total_services: services.len(),
        total_tx: tx,
        total_rx: rx,
        total_conns: conns,
        total_clients: clients,
    }
}

/// The last log entries, oldest first.
#[derive(Debug)]
pub struct LogBuffer {
    pub entries: Vec<LogEntry>,
}

impl LogBuffer {
    pub fn new() -> (b: LogBuffer)
        ensures
            b.entries@.len() == 0,
    {
        LogBuffer { entries: Vec::new() }
    }

    /// Appends an entry, dropping the oldest one when the buffer is full.
    pub fn add(&mut self, e: LogEntry)
        requires
            old(self).entries@.len() <= MAX_LOGS,
        ensures
            final(self).entries@.len() <= MAX_LOGS,
            final(self).entries@ == if old(self).entries@.len() >= MAX_LOGS {
                old(self).entries@.drop_first().push(e)
            } else {
                old(self).entries@.push(e)
            },
    {
        if self.entries.len() >= MAX_LOGS {
            self.entries.remove(0);
            proof {
                assert(self.entries@ =~= old(self).entries@.drop_first());
            }
        }
        self.entries.push(e);
    }
}

/// Whether a session opened at `created` (seconds) is still valid at `now`.
pub open spec fn session_live(created: u64, now: u64) -> bool {
    now < created || now - created < SESSION_TTL_SECS
}

/// The login sessions: token and time of login.
#[derive(Debug)]
pub struct Sessions {
    pub entries: Vec<(String, u64)>,
}

impl Sessions {
    pub fn new() -> (s: Sessions)
        ensures
            s.entries@.len() == 0,
    {
        Sessions { entries: Vec::new() }
    }

    /// Records a login with `token` at `now` (a token seen before has its
    /// time replaced).
    pub fn insert(&mut self, token: String, now: u64)
        ensures
            final(self).entries@ == session_inserted(old(self).entries@, token, now),
    {
        let mut i: usize = 0;
        while i < self.entries.len()
            invariant
                0 <= i <= self.entries@.len(),
                self.entries@ == old(self).entries@,
                forall|j: int| 0 <= j < i ==> !(#[trigger] token_is(token@)(self.entries@[j])),
            decreases self.entries@.len() - i,
        {
            if str_eq(self.entries[i].0.as_str(), token.as_str()) {
                proof {
                    lemma_first_match(self.entries@, token_is(token@), i as int);
                }
                let (t, _) = self.entries.remove(i);
                self.entries.insert(i, (t, now));
                proof {
                    assert(self.entries@ =~= old(self).entries@.update(
                        i as int,
                        (old(self).entries@[i as int].0, now),
                    ));
                }
                return;
            }
            i = i + 1;
        }
        proof {
            lemma_first_match(self.entries@, token_is(token@), i as int);
        }
        self.entries.push((token, now));
    }

    /// Forgets the sessions older than a day.
    pub fn cleanup(&mut self, now: u64)
        ensures
            final(self).entries@ == old(self).entries@.filter(|e: (String, u64)| session_live(e.1, now)),
    {
        let ghost f = |e: (String, u64)| session_live(e.1, now);
        let mut rest: Vec<(String, u64)> = Vec::new();
        std::mem::swap(&mut rest, &mut self.entries);
        let ghost all = rest@;
        let n = rest.len();
        let mut k: usize = 0;
        proof {
            assert(all.skip(0) == all);
            assert(all.take(0).filter(f) =~= Seq::<(String, u64)>::empty()) by {
                reveal_with_fuel(Seq::filter, 1);
            }
        }
        while rest.len() > 0
            invariant
                all == old(self).entries@,
                n == all.len(),
                k + rest@.len() == n,
                rest@ == all.skip(k as int),
                self.entries@ == all.take(k as int).filter(f),
                f == (|e: (String, u64)| session_live(e.1, now)),
            decreases rest@.len(),
        {
            let e = rest.remove(0);
            proof {
                assert(e == all[k as int]);
                assert(all.take(k + 1) == all.take(k as int).push(e));
                all.take(k as int).lemma_filter_push(e, f);
                assert(rest@ =~= all.skip(k + 1));
            }
            if now < e.1 || now - e.1 < SESSION_TTL_SECS {
                self.entries.push(e);
            }
            k = k + 1;
        }
        proof {
            assert(all.take(n as int) == all);
        }
    }

    /// Whether `token` names a session that is still valid at `now`.
    pub fn is_valid(&self, token: &str, now: u64) -> (b: bool)
        ensures
            b == valid_session(self.entries@, token@, now),
    {
        let mut i: usize = 0;
        while i < self.entries.len()
            invariant
                0 <= i <= self.entries@.len(),
                forall|j: int| 0 <= j < i ==> !(#[trigger] token_is(token@)(self.entries@[j])),
            decreases self.entries@.len() - i,
        {
            if str_eq(self.entries[i].0.as_str(), token) {
                proof {
                    lemma_first_match(self.entries@, token_is(token@), i as int);
                }
                let created = self.entries[i].1;
                return now < created || now - created < SESSION_TTL_SECS;
            }
            i = i + 1;
        }
        proof {
            lemma_first_match(self.entries@, token_is(token@), i as int);
        }
        false
    }
}

/// Whether a session entry carries token `t`.
pub open spec fn token_is(t: Seq<char>) -> spec_fn((String, u64)) -> bool {
    |e: (String, u64)| e.0@ == t
}

/// The sessions after a login with `token` at `now`: the time of the
/// token's session replaced, or a new session appended.
pub open spec fn session_inserted(e: Seq<(String, u64)>, token: String, now: u64) -> Seq<(String, u64)> {
    match first_match(e, token_is(token@)) {
        Some(i) => e.update(i, (e[i].0, now)),
        None => e.push((token, now)),
    }
}

/// Whether the session of token `t` is valid at `now`.
pub open spec fn valid_session(e: Seq<(String, u64)>, t: Seq<char>, now: u64) -> bool {
    match first_match(e, token_is(t)) {
        Some(i) => session_live(e[i].1, now),
        None => false,
    }
}

/// A login is honoured at once: right after a session is recorded for a
/// token, the token is valid.
pub proof fn lemma_new_session_is_valid(e: Seq<(String, u64)>, token: String, now: u64)
    ensures
        valid_session(session_inserted(e, token, now), token@, now),
{
    let p = token_is(token@);
    lemma_first_match_props(e, p);
    let n = session_inserted(e, token, now);
    match first_match(e, p) {
        Some(i) => {
            assert forall|j: int| 0 <= j < i implies !p(#[trigger] n[j]) by {
                assert(n[j] == e[j]);
            }
            assert(p(n[i]));
            lemma_first_match(n, p, i);
        },
        None => {
            assert forall|j: int| 0 <= j < e.len() implies !p(#[trigger] n[j]) by {
                assert(n[j] == e[j]);
            }
            assert(p(n[e.len() as int]));
            lemma_first_match(n, p, e.len() as int);
        },
    }
}

/// Whether a login with `user` and `password` is accepted: always when no
/// web user is configured, else for the configured credentials.
pub fn login_allowed(valid_user: &str, valid_pass: &str, user: &str, password: &str) -> (b: bool)
    ensures
        b == (valid_user@.len() == 0 || (user@ == valid_user@ && password@ == valid_pass@)),
{
    valid_user.is_empty() || (str_eq(user, valid_user) && str_eq(password, valid_pass))
}

/// The value of the first `token=` pair of a query string.
pub open spec fn query_token(pairs: Seq<Seq<char>>) -> Option<Seq<char>>
    decreases pairs.len(),
{
    if pairs.len() == 0 {
        None
    } else if starts_with(pairs[0], "token="@) {
        Some(pairs[0].skip(6))
    } else {
        query_token(pairs.drop_first())
    }
}

/// Whether a request carries the API token: as `Authorization: Bearer`, or
/// else as the first `token=` of its query.  An empty configured token never
/// matches.
pub open spec fn api_token_ok(auth: Option<Seq<char>>, query: Option<Seq<char>>, token: Seq<char>) -> bool {
    if token.len() == 0 {
        false
    } else {
        match auth {
            Some(a) if starts_with(a, "Bearer "@) => a.skip(7) == token,
            _ => match query {
                Some(q) => match query_token(split(q, '&')) {
                    Some(v) => v == token,
                    None => false,
                },
                None => false,
            },
        }
    }
}

/// Whether a request with the given `Authorization` header and query string
/// carries the API token.
pub fn check_api_token(auth: Option<&str>, query: Option<&str>, api_token: &str) -> (b: bool)
    ensures
        b == api_token_ok(
            match auth {
                Some(a) => Some(a@),
                None => None,
            },
            match query {
                Some(q) => Some(q@),
                None => None,
            },
            api_token@,
        ),
{
    if api_token.is_empty() {
        return false;
    }
    match auth {
        Some(a) => {
            let c = chars_of(a);
            let bearer = chars_of("Bearer ");
            proof {
                if bearer@.len() <= c@.len() {
                    assert(c@.subrange(0, bearer@.len() as int) == c@.take(bearer@.len() as int));
                }
            }
            if range_starts_with(c.as_slice(), 0, c.len(), bearer.as_slice()) {
                let t = sub_string(c.as_slice(), bearer.len(), c.len());
                proof {
                    assert(c@.subrange(bearer@.len() as int, c@.len() as int) == c@.skip(bearer@.len() as int));
                    reveal_strlit("Bearer ");
                }
                return str_eq(t.as_str(), api_token);
            }
        },
        None => {},
    }
    match query {
        Some(q) => match token_in_query(q) {
            Some(v) => str_eq(v.as_str(), api_token),
            None => false,
        },
        None => false,
    }
}

/// The value of the first `token=` pair of query string `q`.
pub fn token_in_query(q: &str) -> (r: Option<String>)
    ensures
        match query_token(split(q@, '&')) {
            Some(v) => r matches Some(s) && s@ == v,
            None => r is None,
        },
{
    let c = chars_of(q);
    proof {
        assert(c@.subrange(0, c@.len() as int) == c@);
    }
    let pairs = split_bounds(c.as_slice(), 0, c.len(), '&', 0);
    let ghost ps = split(c@, '&');
    let prefix = chars_of("token=");
    proof {
        reveal_strlit("token=");
        assert(ps.skip(0) == ps);
    }
    let mut k: usize = 0;
    while k < pairs.len()
        invariant
            ps == split(c@, '&'),
            c@ == q@,
            prefix@ == "token="@,
            pairs_ok(c@, pairs@, ps),
            0 <= k <= ps.len(),
            query_token(ps) == query_token(ps.skip(k as int)),
        decreases ps.len() - k,
    {
        let (a, b) = pairs[k];
        proof {
            reveal_strlit("token=");
            assert(prefix@.len() == 6);
            assert(ps.skip(k as int)[0] == ps[k as int]);
            assert(ps.skip(k as int).drop_first() == ps.skip(k + 1));
            assert(c@.subrange(a as int, b as int) == ps[k as int]);
            if prefix@.len() <= b - a {
                assert(c@.subrange(a as int, a + prefix@.len()) == ps[k as int].take(prefix@.len() as int));
            }
        }
        if range_starts_with(c.as_slice(), a, b, prefix.as_slice()) {
            let v = sub_string(c.as_slice(), a + 6, b);
            proof {
                assert(c@.subrange(a + 6, b as int) == ps[k as int].skip(6));
                assert(starts_with(ps[k as int], "token="@));
            }
            return Some(v);
        }
        k = k + 1;
    }
    proof {
        assert(ps.skip(ps.len() as int).len() == 0);
    }
    None
}

/// The session token of a `Cookie` header: the value of its last
/// `session=` part.
pub open spec fn cookie_session(parts: Seq<Seq<char>>) -> Option<Seq<char>>
    decreases parts.len(),
{
    if parts.len() == 0 {
        None
    } else {
        let p = trim(parts.last());
        if starts_with(p, "session="@) {
            Some(p.skip(8))
        } else {
            cookie_session(parts.drop_last())
        }
    }
}

/// The session token a `Cookie` header carries.
#[verifier::spinoff_prover]
pub fn session_token(cookie: &str) -> (r: Option<String>)
    ensures
        match cookie_session(split(cookie@, ';')) {
            Some(t) => r matches Some(s) && s@ == t,
            None => r is None,
        },
{
    let c = chars_of(cookie);
    proof {
        assert(c@.subrange(0, c@.len() as int) == c@);
        reveal_strlit("session=");
    }
    let parts = split_bounds(c.as_slice(), 0, c.len(), ';', 0);
    let ghost ps = split(c@, ';');
    let prefix = chars_of("session=");
    let mut found: Option<String> = None;
    let mut k: usize = 0;
    while k < parts.len()
        invariant
            ps == split(c@, ';'),
            c@ == cookie@,
            prefix@ == "session="@,
            pairs_ok(c@, parts@, ps),
            0 <= k <= ps.len(),
            match cookie_session(ps.take(k as int)) {
                Some(t) => found matches Some(s) && s@ == t,
                None => found is None,
            },
        decreases ps.len() - k,
    {
        let (a, b) = parts[k];
        proof {
            assert(ps.take(k + 1).drop_last() == ps.take(k as int));
            assert(ps.take(k + 1).last() == ps[k as int]);
            assert(c@.subrange(a as int, b as int) == ps[k as int]);
        }
        let (ta, tb) = trim_bounds(c.as_slice(), a, b);
        proof {
            reveal_strlit("session=");
            assert(prefix@.len() == 8);
            if prefix@.len() <= tb - ta {
                assert(c@.subrange(ta as int, ta + prefix@.len()) == trim(ps[k as int]).take(prefix@.len() as int));
            }
        }
        if range_starts_with(c.as_slice(), ta, tb, prefix.as_slice()) {
            proof {
                assert(c@.subrange(ta + 8, tb as int) == trim(ps[k as int]).skip(8));
            }
            found = Some(sub_string(c.as_slice(), ta + 8, tb));
        }
        k = k + 1;
    }
    proof {
        assert(ps.take(ps.len() as int) == ps);
    }
    found
}

pub open spec fn pairs_ok(c: Seq<char>, parts: Seq<(usize, usize)>, ps: Seq<Seq<char>>) -> bool {
    &&& parts.len() == ps.len()
    &&& forall|j: int| 0 <= j < parts.len() ==> 0 <= (#[trigger] parts[j]).0 <= parts[j].1 <= c.len()
    &&& forall|j: int| 0 <= j < parts.len() ==> c.subrange((#[trigger] parts[j]).0 as int, parts[j].1 as int) == ps[j]
}

/// What the dashboard shows of `e` at `now_ms`: its settings and counters,
/// and how long (whole seconds) it has been registered.
pub open spec fn info_of(i: ServiceInfo, e: ServiceEntry, now_ms: u64) -> bool {
    &&& i.name@ == e.config.name@
    &&& i.ty@ == e.config.spec_type()
    &&& i.local_addr@ == e.config.local_addr@
    &&& i.remote_port == e.config.remote_port
    &&& crate::protocol::msg::opt_chars(i.host) == crate::protocol::msg::opt_chars(e.config.host)
    &&& crate::protocol::msg::opt_chars(i.subdomain) == crate::protocol::msg::opt_chars(e.config.subdomain)
    &&& i.healthy == e.healthy
    &&& i.enabled == e.enabled
    &&& i.current_conns == e.current_conns
    &&& i.traffic_tx == e.traffic_tx
    &&& i.traffic_rx == e.traffic_rx
    &&& i.client_id@ == e.client_id@
    &&& i.uptime_secs == (if now_ms >= e.started_at_ms { (now_ms - e.started_at_ms) / 1000 } else { 0 })
    &&& crate::protocol::msg::opt_chars(i.group) == crate::protocol::msg::opt_chars(e.config.group)
    &&& i.bandwidth_limit_kbps == e.config.bandwidth_limit_kbps
}

/// The dashboard's view of one registered service at `now_ms`.
pub fn service_info(e: &ServiceEntry, now_ms: u64) -> (i: ServiceInfo)
    ensures
        info_of(i, *e, now_ms),
{
    ServiceInfo {
        name: e.config.name.clone(),
        ty: e.config.effective_type().to_string(),
        local_addr: e.config.local_addr.clone(),
        remote_port: e.config.remote_port,
        host: crate::protocol::msg::copy_opt(&e.config.host),
        subdomain: crate::protocol::msg::copy_opt(&e.config.subdomain),
        healthy: e.healthy,
        enabled: e.enabled,
        current_conns: e.current_conns,
        traffic_tx: e.traffic_tx,
        traffic_rx: e.traffic_rx,
        client_id: e.client_id.clone(),
        uptime_secs: if now_ms >= e.started_at_ms {
            (now_ms - e.started_at_ms) / 1000
        } else {
            0
        },
        group: crate::protocol::msg::copy_opt(&e.config.group),
        bandwidth_limit_kbps: e.config.bandwidth_limit_kbps,
    }
}

/// The dashboard's view of every registered service, in order.
pub fn service_infos(services: &Vec<ServiceEntry>, now_ms: u64) -> (v: Vec<ServiceInfo>)
    ensures
        v@.len() == services@.len(),
        forall|k: int| 0 <= k < v@.len() ==> info_of(#[trigger] v@[k], services@[k], now_ms),
{
    let mut v: Vec<ServiceInfo> = Vec::new();
    let mut i: usize = 0;
    while i < services.len()
        invariant
            0 <= i <= services@.len(),
            v@.len() == i,
            forall|k: int| 0 <= k < i ==> info_of(#[trigger] v@[k], services@[k], now_ms),
        decreases services@.len() - i,
    {
        v.push(service_info(&services[i], now_ms));
        i = i + 1;
    }
    v
}

} // verus!
