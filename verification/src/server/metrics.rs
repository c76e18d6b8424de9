//! The server's metric history: a point per second for the whole server and
//! for each service, the last 600 of each kept.  Sampling the counters and
//! the clock, and turning counts into rates (floating point), is the
//! application's.

use super::service::ServiceEntry;
use vstd::prelude::*;

verus! {

/// At most this many points are kept per history.
pub const MAX_HISTORY_POINTS: usize = 600;

/// Seconds between two samples.
pub const METRICS_INTERVAL_SECS: u64 = 1;

/// The whole server at one instant.
#[derive(Debug, Clone, Copy, PartialEq, Eq, Structural)]
pub struct MetricPoint {
    pub ts: u64,
    pub total_tx: u64,
    pub total_rx: u64,
    pub total_conns: u32,
    pub active_clients: u32,
    pub active_services: u32,
    pub bandwidth_tx: u64,
    pub bandwidth_rx: u64,
}

/// One service at one instant.
#[derive(Debug, Clone, Copy, PartialEq, Eq, Structural)]
pub struct ServiceMetricPoint {
    pub ts: u64,
    pub conns: u32,
    pub tx: u64,
    pub rx: u64,
    pub bw_tx: u64,
    pub bw_rx: u64,
}

/// `h` with `p` appended, the oldest point dropped beyond the cap.
pub open spec fn pushed<T>(h: Seq<T>, p: T) -> Seq<T> {
    let n = h.push(p);
    if n.len() > MAX_HISTORY_POINTS {
        n.drop_first()
    } else {
        n
    }
}

/// The last `limit` points of `h` (all of them when there is no limit), in
/// order.
pub open spec fn latest<T>(h: Seq<T>, limit: Option<usize>) -> Seq<T> {
    let n = match limit {
        Some(l) => if l < h.len() {
            l as int
        } else {
            h.len() as int
        },
        None => h.len() as int,
    };
    h.skip(h.len() - n)
}

/// The collected metric histories.
#[derive(Debug)]
pub struct MetricsHistory {
    pub history: Vec<MetricPoint>,
    pub service_history: Vec<(String, Vec<ServiceMetricPoint>)>,
}

impl MetricsHistory {
    /// Every history holds at most `MAX_HISTORY_POINTS` points, and each
    /// service has one history.
    pub open spec fn wf(&self) -> bool {
        &&& self.history@.len() <= MAX_HISTORY_POINTS
        &&& forall|i: int|
            0 <= i < self.service_history@.len() ==> (#[trigger] self.service_history@[i]).1@.len()
                <= MAX_HISTORY_POINTS
        &&& forall|i: int, j: int|
            0 <= i < j < self.service_history@.len() ==> (#[trigger] self.service_history@[i]).0@
                != (#[trigger] self.service_history@[j]).0@
    }

    pub fn new() -> (m: MetricsHistory)
        ensures
            m.wf(),
            m.history@.len() == 0,
            m.service_history@.len() == 0,
    {
        MetricsHistory { history: Vec::new(), service_history: Vec::new() }
    }

    /// Appends a point for the whole server.
    pub fn push(&mut self, p: MetricPoint)
        requires
            old(self).wf(),
        ensures
            final(self).wf(),
            final(self).history@ == pushed(old(self).history@, p),
            final(self).service_history@ == old(self).service_history@,
    {
        self.history.push(p);
        if self.history.len() > MAX_HISTORY_POINTS {
            self.history.remove(0);
            proof {
                assert(self.history@ =~= old(self).history@.push(p).drop_first());
            }
        }
    }

    /// The last `limit` points of the server's history.
    pub fn get_history(&self, limit: Option<usize>) -> (v: Vec<MetricPoint>)
        ensures
            v@ == latest(self.history@, limit),
    {
        let len = self.history.len();
        let n = match limit {
            Some(l) => if l < len {
                l
            } else {
                len
            },
            None => len,
        };
        let mut v: Vec<MetricPoint> = Vec::new();
        let mut i = len - n;
        while i < len
            invariant
                len == self.history@.len(),
                n <= len,
                len - n <= i <= len,
                v@ == self.history@.subrange(len - n, i as int),
            decreases len - i,
        {
            v.push(self.history[i]);
            proof {
                assert(self.history@.subrange(len - n, i + 1) == self.history@.subrange(
                    len - n,
                    i as int,
                ).push(self.history@[i as int]));
            }
            i = i + 1;
        }
        proof {
            assert(self.history@.subrange(len - n, len as int) =~= latest(self.history@, limit));
        }
        v
    }

    fn find(&self, name: &str) -> (r: Option<usize>)
        ensures
            match r {
                Some(i) => i < self.service_history@.len() && self.service_history@[i as int].0@ == name@
                    && forall|j: int| 0 <= j < i ==> (#[trigger] self.service_history@[j]).0@ != name@,
                None => forall|i: int|
                    0 <= i < self.service_history@.len() ==> (#[trigger] self.service_history@[i]).0@ != name@,
            },
    {
        let mut i: usize = 0;
        while i < self.service_history.len()
            invariant
                0 <= i <= self.service_history@.len(),
                forall|j: int| 0 <= j < i ==> (#[trigger] self.service_history@[j]).0@ != name@,
            decreases self.service_history@.len() - i,
        {
            if crate::text::str_eq(self.service_history[i].0.as_str(), name) {
                return Some(i);
            }
            i = i + 1;
        }
        None
    }

    /// The traffic counters of the last point of service `name`, from which
    /// the caller derives the service's bandwidth.
    pub fn last_counters(&self, name: &str) -> (r: Option<(u64, u64)>)
        requires
            self.wf(),
        ensures
            r is Some <==> exists|i: int|
                0 <= i < self.service_history@.len() && (#[trigger] self.service_history@[i]).0@ == name@
                    && self.service_history@[i].1@.len() > 0,
            forall|i: int|
                0 <= i < self.service_history@.len() && (#[trigger] self.service_history@[i]).0@ == name@
                    && self.service_history@[i].1@.len() > 0 ==> r == Some(
                    (self.service_history@[i].1@.last().tx, self.service_history@[i].1@.last().rx),
                ),
    {
        match self.find(name) {
            Some(i) => {
                let q = &self.service_history[i].1;
                if q.len() > 0 {
                    let p = q[q.len() - 1];
                    Some((p.tx, p.rx))
                } else {
                    None
                }
            },
            None => None,
        }
    }

    /// Appends a point to the history of service `name` (a new history if it
    /// has none).
    pub fn push_service(&mut self, name: &str, p: ServiceMetricPoint)
        requires
            old(self).wf(),
        ensures
            final(self).wf(),
            final(self).history@ == old(self).history@,
            forall|i: int|
                0 <= i < old(self).service_history@.len() && (#[trigger] old(self).service_history@[i]).0@
                    == name@ ==> {
                    &&& final(self).service_history@.len() == old(self).service_history@.len()
                    &&& forall|j: int|
                        0 <= j < old(self).service_history@.len() && j != i ==> final(self).service_history@[j]
                            == (#[trigger] old(self).service_history@[j])
                    &&& final(self).service_history@[i].0 == old(self).service_history@[i].0
                    &&& final(self).service_history@[i].1@ == pushed(old(self).service_history@[i].1@, p)
                },
            (forall|i: int|
                0 <= i < old(self).service_history@.len() ==> (#[trigger] old(self).service_history@[i]).0@
                    != name@) ==> final(self).service_history@.len() == old(self).service_history@.len() + 1
                && final(self).service_history@.drop_last() == old(self).service_history@
                && final(self).service_history@.last().0@ == name@
                && final(self).service_history@.last().1@ == seq![p],
    {
        match self.find(name) {
            Some(i) => {
                let mut entries: Vec<(String, Vec<ServiceMetricPoint>)> = Vec::new();
                std::mem::swap(&mut entries, &mut self.service_history);
                let ghost e0 = entries@;
                let (n, mut q) = entries.remove(i);
                q.push(p);
                if q.len() > MAX_HISTORY_POINTS {
                    q.remove(0);
                }
                proof {
                    if e0[i as int].1@.len() + 1 > MAX_HISTORY_POINTS {
                        assert(q@ =~= e0[i as int].1@.push(p).drop_first());
                    }
                    assert(q@ == pushed(e0[i as int].1@, p));
                }
                let ghost qv = q;
                entries.insert(i, (n, q));
                self.service_history = entries;
                proof {
                    assert(self.service_history@ =~= e0.update(i as int, (e0[i as int].0, qv)));
                    assert forall|a: int, b: int| 0 <= a < b < self.service_history@.len() implies (#[trigger] self.service_history@[a]).0@
                        != (#[trigger] self.service_history@[b]).0@ by {
                        assert(self.service_history@[a].0 == e0[a].0);
                        assert(self.service_history@[b].0 == e0[b].0);
                    }
                }
            },
            None => {
                let mut q: Vec<ServiceMetricPoint> = Vec::new();
                q.push(p);
                self.service_history.push((name.to_string(), q));
                proof {
                    assert(self.service_history@.drop_last() =~= old(self).service_history@);
                    assert(q@ =~= seq![p]);
                }
            },
        }
    }

    /// Drops the histories of services that are gone: only those named in
    /// `names` are kept.
    pub fn retain_services(&mut self, names: &Vec<String>)
        requires
            old(self).wf(),
        ensures
            final(self).wf(),
            final(self).history@ == old(self).history@,
            final(self).service_history@ == old(self).service_history@.filter(
                |e: (String, Vec<ServiceMetricPoint>)| names@.map_values(|s: String| s@).contains(e.0@),
            ),
    {
        let ghost f = |e: (String, Vec<ServiceMetricPoint>)| names@.map_values(|s: String| s@).contains(e.0@);
        let mut old_entries: Vec<(String, Vec<ServiceMetricPoint>)> = Vec::new();
        std::mem::swap(&mut old_entries, &mut self.service_history);
        let ghost all = old_entries@;
        let mut kept: Vec<(String, Vec<ServiceMetricPoint>)> = Vec::new();
        let mut k: usize = 0;
        let n = old_entries.len();
        proof {
            assert(all.skip(0) == all);
            assert(all.take(0).filter(f) =~= Seq::<(String, Vec<ServiceMetricPoint>)>::empty()) by {
                reveal_with_fuel(Seq::filter, 1);
            }
        }
        while old_entries.len() > 0
            invariant
                all == old(self).service_history@,
                k + old_entries@.len() == n,
                n == all.len(),
                old_entries@ == all.skip(k as int),
                kept@ == all.take(k as int).filter(f),
                f == (|e: (String, Vec<ServiceMetricPoint>)| names@.map_values(|s: String| s@).contains(e.0@)),
                self.history@ == old(self).history@,
                self.history@.len() <= MAX_HISTORY_POINTS,
                forall|i: int| 0 <= i < all.len() ==> (#[trigger] all[i]).1@.len() <= MAX_HISTORY_POINTS,
                forall|a: int, b: int| 0 <= a < b < all.len() ==> (#[trigger] all[a]).0@ != (#[trigger] all[b]).0@,
                forall|i: int| #![trigger kept@[i]] 0 <= i < kept@.len() ==> exists|j: int| 0 <= j < k && (#[trigger] all[j]) == kept@[i],
                forall|i: int| 0 <= i < kept@.len() ==> (#[trigger] kept@[i]).1@.len() <= MAX_HISTORY_POINTS,
                forall|a: int, b: int| 0 <= a < b < kept@.len() ==> (#[trigger] kept@[a]).0@ != (#[trigger] kept@[b]).0@,
            decreases old_entries@.len(),
        {
            let e = old_entries.remove(0);
            proof {
                assert(e == all[k as int]);
                assert(all.take(k + 1) == all.take(k as int).push(e));
                all.take(k as int).lemma_filter_push(e, f);
                assert(old_entries@ =~= all.skip(k + 1));
            }
            let mut keep = false;
            let mut j: usize = 0;
            while j < names.len()
                invariant
                    0 <= j <= names@.len(),
                    keep == exists|x: int| 0 <= x < j && (#[trigger] names@[x])@ == e.0@,
                decreases names@.len() - j,
            {
                if crate::text::str_eq(names[j].as_str(), e.0.as_str()) {
                    keep = true;
                }
                j = j + 1;
            }
            proof {
                if keep {
                    let x = choose|x: int| 0 <= x < names@.len() && (#[trigger] names@[x])@ == e.0@;
                    assert(names@.map_values(|s: String| s@)[x] == e.0@);
                }
                let nv = names@.map_values(|s: String| s@);
                if nv.contains(e.0@) {
                    let x = choose|x: int| 0 <= x < nv.len() && #[trigger] nv[x] == e.0@;
                    assert(names@[x]@ == e.0@);
                }
            }
            let ghost k0 = kept@;
            if keep {
                kept.push(e);
                proof {
                    assert forall|i: int| 0 <= i < k0.len() implies (#[trigger] k0[i]).0@ != e.0@ by {
                        let j = choose|j: int| 0 <= j < k && (#[trigger] all[j]) == k0[i];
                        assert(all[j].0@ != all[k as int].0@);
                    }
                    assert forall|a: int, b: int| 0 <= a < b < kept@.len() implies (#[trigger] kept@[a]).0@ != (#[trigger] kept@[b]).0@ by {
                        if b == k0.len() {
                            assert(kept@[a] == k0[a]);
                        } else {
                            assert(kept@[a] == k0[a] && kept@[b] == k0[b]);
                        }
                    }
                    assert forall|i: int| #![trigger kept@[i]] 0 <= i < kept@.len() implies exists|j: int| 0 <= j < k + 1 && (#[trigger] all[j]) == kept@[i] by {
                        if i < k0.len() {
                            assert(kept@[i] == k0[i]);
                            let j = choose|j: int| 0 <= j < k && (#[trigger] all[j]) == k0[i];
                            assert(all[j] == kept@[i]);
                        } else {
                            assert(all[k as int] == kept@[i]);
                        }
                    }
                }
            } else {
                proof {
                    assert forall|i: int| #![trigger kept@[i]] 0 <= i < kept@.len() implies exists|j: int| 0 <= j < k + 1 && (#[trigger] all[j]) == kept@[i] by {
                        let j = choose|j: int| 0 <= j < k && (#[trigger] all[j]) == kept@[i];
                        assert(all[j] == kept@[i]);
                    }
                }
            }
            k = k + 1;
        }
        proof {
            assert(all.take(n as int) == all);
        }
        self.service_history = kept;
    }
}

impl MetricsHistory {
    /// The last `limit` points of the history of service `name`; none when
    /// it has no history.
    pub fn get_service_history(&self, name: &str, limit: Option<usize>) -> (v: Vec<ServiceMetricPoint>)
        ensures
            match self.find_spec(name@) {
                Some(i) => v@ == latest(self.service_history@[i].1@, limit),
                None => v@.len() == 0,
            },
    {
        match self.find(name) {
            None => {
                proof {
                    lemma_find_none(self.service_history@, name@);
                }
                Vec::new()
            },
            Some(i) => {
                let q = &self.service_history[i].1;
                let len = q.len();
                let n = match limit {
                    Some(l) => if l < len {
                        l
                    } else {
                        len
                    },
                    None => len,
                };
                let mut v: Vec<ServiceMetricPoint> = Vec::new();
                let mut k = len - n;
                while k < len
                    invariant
                        len == q@.len(),
                        n <= len,
                        len - n <= k <= len,
                        v@ == q@.subrange(len - n, k as int),
                    decreases len - k,
                {
                    v.push(q[k]);
                    proof {
                        assert(q@.subrange(len - n, k + 1) == q@.subrange(len - n, k as int).push(q@[k as int]));
                    }
                    k = k + 1;
                }
                proof {
                    assert(q@.subrange(len - n, len as int) =~= latest(q@, limit));
                    lemma_find_first(self.service_history@, name@, i as int);
                }
                v
            },
        }
    }

    /// The index of the first history named `name`.
    pub open spec fn find_spec(&self, name: Seq<char>) -> Option<int> {
        first_named(self.service_history@, name)
    }
}

/// The index of the first entry of `h` named `name`.
pub open spec fn first_named(h: Seq<(String, Vec<ServiceMetricPoint>)>, name: Seq<char>) -> Option<int>
    decreases h.len(),
{
    if h.len() == 0 {
        None
    } else if h[0].0@ == name {
        Some(0)
    } else {
        match first_named(h.drop_first(), name) {
            Some(i) => Some(i + 1),
            None => None,
        }
    }
}

proof fn lemma_find_first(h: Seq<(String, Vec<ServiceMetricPoint>)>, name: Seq<char>, i: int)
    requires
        0 <= i < h.len(),
        h[i].0@ == name,
        forall|j: int| 0 <= j < i ==> (#[trigger] h[j]).0@ != name,
    ensures
        first_named(h, name) == Some(i),
    decreases i,
{
    if i > 0 {
        assert forall|j: int| 0 <= j < i - 1 implies (#[trigger] h.drop_first()[j]).0@ != name by {
            assert(h.drop_first()[j] == h[j + 1]);
        }
        lemma_find_first(h.drop_first(), name, i - 1);
    }
}

proof fn lemma_find_none(h: Seq<(String, Vec<ServiceMetricPoint>)>, name: Seq<char>)
    requires
        forall|j: int| 0 <= j < h.len() ==> (#[trigger] h[j]).0@ != name,
    ensures
        first_named(h, name) is None,
    decreases h.len(),
{
    if h.len() > 0 {
        assert forall|j: int| 0 <= j < h.len() - 1 implies (#[trigger] h.drop_first()[j]).0@ != name by {
            assert(h.drop_first()[j] == h[j + 1]);
        }
        lemma_find_none(h.drop_first(), name);
    }
}

/// The sums over the services: traffic sent, received, and open
/// connections (each count taken as a `u32`).
pub open spec fn traffic_totals(s: Seq<ServiceEntry>) -> (int, int, int)
    decreases s.len(),
{
    if s.len() == 0 {
        (0, 0, 0)
    } else {
        let t = traffic_totals(s.drop_last());
        (t.0 + s.last().traffic_tx, t.1 + s.last().traffic_rx, t.2 + (s.last().current_conns as u32))
    }
}

/// The server's totals at a sample: traffic sent and received, open
/// connections.
pub fn collect_totals(services: &Vec<ServiceEntry>) -> (r: (u64, u64, u32))
    requires
        forall|k: int| 0 <= k <= services@.len() ==> {
            let t = #[trigger] traffic_totals(services@.take(k));
            t.0 <= u64::MAX && t.1 <= u64::MAX && t.2 <= u32::MAX
        },
    ensures
        r.0 == traffic_totals(services@).0,
        r.1 == traffic_totals(services@).1,
        r.2 == traffic_totals(services@).2,
{
    let mut tx: u64 = 0;
    let mut rx: u64 = 0;
    let mut conns: u32 = 0;
    let mut i: usize = 0;
    proof {
        assert(services@.take(0) =~= Seq::<ServiceEntry>::empty());
    }
    while i < services.len()
        invariant
            0 <= i <= services@.len(),
            forall|k: int| 0 <= k <= services@.len() ==> {
                let t = #[trigger] traffic_totals(services@.take(k));
                t.0 <= u64::MAX && t.1 <= u64::MAX && t.2 <= u32::MAX
            },
            (tx as int, rx as int, conns as int) == traffic_totals(services@.take(i as int)),
        decreases services@.len() - i,
    {
        let e = &services[i];
        proof {
            assert(services@.take(i + 1).drop_last() =~= services@.take(i as int));
            assert(services@.take(i + 1).last() == services@[i as int]);
            let t = traffic_totals(services@.take(i + 1));
            assert(t.0 <= u64::MAX && t.1 <= u64::MAX && t.2 <= u32::MAX);
        }
        tx = tx + e.traffic_tx;
        rx = rx + e.traffic_rx;
        conns = conns + (e.current_conns as u32);
        i = i + 1;
    }
    proof {
        assert(services@.take(services@.len() as int) == services@);
    }
    (tx, rx, conns)
}

/// The increase of a counter since its last sample, 0 when it went down.
pub fn counter_delta(now: u64, before: u64) -> (d: u64)
    ensures
        d == (if now >= before { now - before } else { 0 }),
{
    now.saturating_sub(before)
}

/// A read gives back the last write: right after a point is pushed, the
/// latest point of the history is that point, and the history never holds
/// more than the cap.
pub proof fn lemma_pushed_point_is_latest<T>(h: Seq<T>, p: T)
    requires
        h.len() <= MAX_HISTORY_POINTS,
    ensures
        latest(pushed(h, p), Some(1usize)) == seq![p],
        pushed(h, p).len() <= MAX_HISTORY_POINTS,
        pushed(h, p).last() == p,
{
    let n = pushed(h, p);
    assert(n.last() == p);
    assert(n.skip(n.len() - 1) =~= seq![p]);
}

} // verus!
