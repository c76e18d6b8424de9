//! The server's challenges: a fresh nonce per connection, answered once with
//! the HMAC proof of the shared key, forgotten after a minute.

use crate::protocol::crypto::{compute_proof, expected_proof, generate_nonce, verify_proof};
use crate::protocol::encoding::hex_text;
use crate::text::str_eq;
use vstd::prelude::*;

verus! {

broadcast use vstd::string::group_string_axioms;

/// A challenge is forgotten this many milliseconds after it was issued.
pub const CHALLENGE_TTL_MS: u64 = 60_000;

/// An issued challenge: the connection it was issued to, its nonce and when.
#[derive(Debug)]
pub struct PendingAuth {
    pub conn_id: String,
    pub nonce: String,
    pub created_at_ms: u64,
}

pub type PendingView = (Seq<char>, Seq<char>, u64);

pub open spec fn pending_view(v: Seq<PendingAuth>) -> Seq<PendingView> {
    v.map_values(|p: PendingAuth| (p.conn_id@, p.nonce@, p.created_at_ms))
}

/// The challenge issued to `k`, if any (the first one recorded).
pub open spec fn lookup(s: Seq<PendingView>, k: Seq<char>) -> Option<(Seq<char>, u64)>
    decreases s.len(),
{
    if s.len() == 0 {
        None
    } else if s[0].0 == k {
        Some((s[0].1, s[0].2))
    } else {
        lookup(s.drop_first(), k)
    }
}

/// The challenges not issued to `k`.
pub open spec fn without(s: Seq<PendingView>, k: Seq<char>) -> Seq<PendingView> {
    s.filter(other_conn(k))
}

/// Whether a challenge was issued to another connection than `k`.
pub open spec fn other_conn(k: Seq<char>) -> spec_fn(PendingView) -> bool {
    |e: PendingView| e.0 != k
}

/// Whether a challenge is still open at `now`.
pub open spec fn open_at(now: u64) -> spec_fn(PendingView) -> bool {
    |e: PendingView| fresh(e.2, now)
}

/// Whether a challenge issued at `created` is still open at `now`.
pub open spec fn fresh(created: u64, now: u64) -> bool {
    now < created || now - created < CHALLENGE_TTL_MS
}

/// The challenges after one is issued to `k` with nonce `n` at `now`: it
/// replaces any earlier one for `k`, and the stale ones are dropped.
pub open spec fn after_challenge(s: Seq<PendingView>, k: Seq<char>, n: Seq<char>, now: u64) -> Seq<PendingView> {
    without(s, k).push((k, n, now)).filter(open_at(now))
}

/// Whether `proof` answers the challenge open for `k`.
pub open spec fn proof_accepted(s: Seq<PendingView>, key: Seq<char>, k: Seq<char>, ty: Seq<char>, client_id: Seq<char>, id: Seq<char>, proof: Seq<char>) -> bool {
    match lookup(s, k) {
        None => false,
        Some((n, _)) => proof == expected_proof(key, ty, client_id, id, n),
    }
}

proof fn lemma_lookup_absent(s: Seq<PendingView>, k: Seq<char>)
    requires
        forall|i: int| 0 <= i < s.len() ==> (#[trigger] s[i]).0 != k,
    ensures
        lookup(s, k) is None,
    decreases s.len(),
{
    if s.len() > 0 {
        assert forall|i: int| 0 <= i < s.drop_first().len() implies (#[trigger] s.drop_first()[i]).0 != k by {
            assert(s.drop_first()[i] == s[i + 1]);
        }
        lemma_lookup_absent(s.drop_first(), k);
    }
}

proof fn lemma_lookup_only(s: Seq<PendingView>, k: Seq<char>, i: int)
    requires
        0 <= i < s.len(),
        s[i].0 == k,
        forall|j: int| 0 <= j < s.len() && j != i ==> (#[trigger] s[j]).0 != k,
    ensures
        lookup(s, k) == Some((s[i].1, s[i].2)),
    decreases s.len(),
{
    if i > 0 {
        assert forall|j: int| 0 <= j < s.drop_first().len() && j != i - 1 implies (#[trigger] s.drop_first()[j]).0 != k by {
            assert(s.drop_first()[j] == s[j + 1]);
        }
        lemma_lookup_only(s.drop_first(), k, i - 1);
    }
}

proof fn lemma_without_absent(s: Seq<PendingView>, k: Seq<char>)
    ensures
        forall|i: int| 0 <= i < without(s, k).len() ==> (#[trigger] without(s, k)[i]).0 != k,
{
    assert forall|i: int| 0 <= i < without(s, k).len() implies (#[trigger] without(s, k)[i]).0 != k by {
        s.lemma_filter_pred(other_conn(k), i);
    }
}

/// A challenge answered (rightly or wrongly) cannot be answered again: the
/// second answer is refused.
pub proof fn lemma_challenge_is_single_use(s: Seq<PendingView>, key: Seq<char>, k: Seq<char>, ty: Seq<char>, client_id: Seq<char>, id: Seq<char>, proof: Seq<char>)
    ensures
        !proof_accepted(without(s, k), key, k, ty, client_id, id, proof),
{
    lemma_without_absent(s, k);
    lemma_lookup_absent(without(s, k), k);
}

/// Right after a challenge is issued to `k`, the proof computed with the
/// shared key for its nonce is accepted.
pub proof fn lemma_fresh_challenge_accepts_its_proof(s: Seq<PendingView>, key: Seq<char>, k: Seq<char>, n: Seq<char>, now: u64, ty: Seq<char>, client_id: Seq<char>, id: Seq<char>)
    ensures
        proof_accepted(after_challenge(s, k, n, now), key, k, ty, client_id, id, expected_proof(key, ty, client_id, id, n)),
{
    let f = open_at(now);
    let w = without(s, k);
    let p = w.push((k, n, now));
    lemma_without_absent(s, k);
    let a = p.filter(f);
    w.lemma_filter_push((k, n, now), f);
    assert(a == w.filter(f).push((k, n, now)));
    let wf = w.filter(f);
    assert forall|j: int| 0 <= j < a.len() && j != wf.len() implies (#[trigger] a[j]).0 != k by {
        assert(a[j] == wf[j]);
        assert(wf.contains(wf[j]));
        w.lemma_filter_contains_rev(f, wf[j]);
        let m = choose|m: int| 0 <= m < w.len() && w[m] == wf[j];
        assert(w[m].0 != k);
    }
    lemma_lookup_only(a, k, wf.len() as int);
}

/// The shared key and the open challenges.
#[derive(Debug)]
pub struct AuthState {
    pub auth_key: String,
    pub pending: Vec<PendingAuth>,
}

impl AuthState {
    pub fn new(auth_key: String) -> (a: AuthState)
        ensures
            a.auth_key == auth_key,
            a.pending@.len() == 0,
    {
        AuthState { auth_key, pending: Vec::new() }
    }

    pub fn auth_key(&self) -> (k: &str)
        ensures
            k@ == self.auth_key@,
    {
        self.auth_key.as_str()
    }

    /// The proof of the shared key for a hello (as a client computes it).
    pub fn compute_proof(&self, ty: &str, client_id: &str, id: &str, nonce: &str) -> (p: String)
        ensures
            p@ == expected_proof(self.auth_key@, ty@, client_id@, id@, nonce@),
    {
        compute_proof(self.auth_key.as_str(), ty, client_id, id, nonce)
    }

    /// Removes the challenges of `k` (`Some(nonce)` of the first one).
    fn take(&mut self, k: &str) -> (n: Option<String>)
        ensures
            pending_view(final(self).pending@) == without(pending_view(old(self).pending@), k@),
            match lookup(pending_view(old(self).pending@), k@) {
                Some((x, _)) => n matches Some(s) && s@ == x,
                None => n is None,
            },
            final(self).auth_key == old(self).auth_key,
    {
        let ghost f = other_conn(k@);
        let mut rest: Vec<PendingAuth> = Vec::new();
        std::mem::swap(&mut rest, &mut self.pending);
        let ghost all = pending_view(rest@);
        let n_all = rest.len();
        let mut found: Option<String> = None;
        let mut i: usize = 0;
        proof {
            assert(pending_view(rest@) == all.skip(0));
            assert(all.take(0).filter(f) =~= Seq::<PendingView>::empty()) by {
                reveal_with_fuel(Seq::filter, 1);
            }
            assert(pending_view(self.pending@) =~= Seq::<PendingView>::empty());
        }
        while rest.len() > 0
            invariant
                all == pending_view(old(self).pending@),
                n_all == all.len(),
                i + rest@.len() == n_all,
                pending_view(rest@) == all.skip(i as int),
                pending_view(self.pending@) == all.take(i as int).filter(f),
                f == other_conn(k@),
                self.auth_key == old(self).auth_key,
                lookup(all, k@) == match found {
                    Some(s) => lookup(all, k@),
                    None => lookup(all.skip(i as int), k@),
                },
                found matches Some(s) ==> lookup(all, k@) matches Some((x, _)) && s@ == x,
            decreases rest@.len(),
        {
            let ghost r0 = rest@;
            let e = rest.remove(0);
            let ghost ev = (e.conn_id@, e.nonce@, e.created_at_ms);
            proof {
                assert(rest@ == r0.remove(0));
                assert(pending_view(r0)[0] == ev);
                assert(all.skip(i as int)[0] == all[i as int]);
                assert(pending_view(rest@) =~= pending_view(r0).drop_first());
                assert(all.skip(i as int).drop_first() =~= all.skip(i + 1));
                assert(all[i as int] == ev);
                assert(all.take(i + 1) == all.take(i as int).push(ev));
                all.take(i as int).lemma_filter_push(ev, f);
                assert(all.skip(i as int).drop_first() == all.skip(i + 1));
                assert(all.skip(i as int)[0] == ev);
            }
            if str_eq(e.conn_id.as_str(), k) {
                if found.is_none() {
                    found = Some(e.nonce);
                }
            } else {
                let ghost p0 = self.pending@;
                self.pending.push(e);
                proof {
                    assert(pending_view(self.pending@) =~= pending_view(p0).push(ev));
                }
            }
            i = i + 1;
        }
        proof {
            assert(all.take(n_all as int) == all);
            assert(all.skip(n_all as int).len() == 0);
        }
        found
    }

    /// Drops the challenges that are a minute old or older at `now_ms`.
    fn cleanup_expired(&mut self, now_ms: u64)
        ensures
            pending_view(final(self).pending@) == pending_view(old(self).pending@).filter(open_at(now_ms)),
            final(self).auth_key == old(self).auth_key,
    {
        let ghost f = open_at(now_ms);
        let mut rest: Vec<PendingAuth> = Vec::new();
        std::mem::swap(&mut rest, &mut self.pending);
        let ghost all = pending_view(rest@);
        let n_all = rest.len();
        let mut i: usize = 0;
        proof {
            assert(pending_view(rest@) == all.skip(0));
            assert(all.take(0).filter(f) =~= Seq::<PendingView>::empty()) by {
                reveal_with_fuel(Seq::filter, 1);
            }
            assert(pending_view(self.pending@) =~= Seq::<PendingView>::empty());
        }
        while rest.len() > 0
            invariant
                all == pending_view(old(self).pending@),
                n_all == all.len(),
                i + rest@.len() == n_all,
                pending_view(rest@) == all.skip(i as int),
                pending_view(self.pending@) == all.take(i as int).filter(f),
                f == open_at(now_ms),
                self.auth_key == old(self).auth_key,
            decreases rest@.len(),
        {
            let ghost r0 = rest@;
            let e = rest.remove(0);
            let ghost ev = (e.conn_id@, e.nonce@, e.created_at_ms);
            proof {
                assert(rest@ == r0.remove(0));
                assert(pending_view(r0)[0] == ev);
                assert(all.skip(i as int)[0] == all[i as int]);
                assert(pending_view(rest@) =~= pending_view(r0).drop_first());
                assert(all.skip(i as int).drop_first() =~= all.skip(i + 1));
                assert(all[i as int] == ev);
                assert(all.take(i + 1) == all.take(i as int).push(ev));
                all.take(i as int).lemma_filter_push(ev, f);
            }
            if now_ms < e.created_at_ms || now_ms - e.created_at_ms < CHALLENGE_TTL_MS {
                let ghost p0 = self.pending@;
                self.pending.push(e);
                proof {
                    assert(pending_view(self.pending@) =~= pending_view(p0).push(ev));
                }
            }
            i = i + 1;
        }
        proof {
            assert(all.take(n_all as int) == all);
        }
    }

    /// Issues a challenge to connection `conn_id` at `now_ms` and returns its
    /// nonce (16 random bytes in hex).
    pub fn create_challenge(&mut self, conn_id: &str, now_ms: u64) -> (n: String)
        ensures
            pending_view(final(self).pending@) == after_challenge(
                pending_view(old(self).pending@),
                conn_id@,
                n@,
                now_ms,
            ),
            exists|b: Seq<u8>| b.len() == 16 && n@ == hex_text(b),
            final(self).auth_key == old(self).auth_key,
    {
        let nonce = generate_nonce();
        let _ = self.take(conn_id);
        let ghost p0 = self.pending@;
        self.pending.push(PendingAuth { conn_id: conn_id.to_string(), nonce: nonce.clone(), created_at_ms: now_ms });
        proof {
            assert(pending_view(self.pending@) =~= pending_view(p0).push((conn_id@, nonce@, now_ms)));
        }
        self.cleanup_expired(now_ms);
        nonce
    }

    /// Checks the answer to the challenge of `conn_id`, which is used up
    /// whatever the answer: whether `proof` is the proof of the shared key for
    /// a hello of kind `ty` from `client_id` (tunnel `id`).
    pub fn verify(&mut self, conn_id: &str, ty: &str, client_id: &str, id: &str, proof: &str) -> (ok: bool)
        ensures
            ok == proof_accepted(pending_view(old(self).pending@), old(self).auth_key@, conn_id@, ty@, client_id@, id@, proof@),
            pending_view(final(self).pending@) == without(pending_view(old(self).pending@), conn_id@),
            final(self).auth_key == old(self).auth_key,
    {
        match self.take(conn_id) {
            None => false,
            Some(nonce) => verify_proof(self.auth_key.as_str(), ty, client_id, id, nonce.as_str(), proof),
        }
    }
}

} // verus!
