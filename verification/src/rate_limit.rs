//! Sliding-window rate limiter: at most `requests` requests per key within
//! any window of `window_secs` seconds; a refused request is told after how
//! many seconds to retry.
use std::collections::VecDeque;
use vstd::hash_map::StringHashMap;
use vstd::prelude::*;

use crate::clock::{elapsed, elapsed_nanos, instant_now, nanos_of_secs, nanos_since};

verus! {

/// Requests older than the window are dropped from the front of a queue,
/// stopping at the first one still inside the window.
pub open spec fn prune(q: Seq<u64>, now: u64, w: nat) -> Seq<u64>
    decreases q.len(),
{
    if q.len() > 0 && elapsed(now, q[0]) >= w {
        prune(q.drop_first(), now, w)
    } else {
        q
    }
}

/// Seconds until the oldest remembered request leaves the window, at least 1.
pub open spec fn retry_after(p: Seq<u64>, now: u64, w: nat) -> u64 {
    let oldest = if p.len() > 0 {
        p[0]
    } else {
        now
    };
    let e = elapsed(now, oldest);
    let rem: nat = if w > e {
        (w - e) as nat
    } else {
        0
    };
    let secs = rem / 1_000_000_000;
    if secs < 1 {
        1
    } else {
        secs as u64
    }
}

/// A queue whose latest request is still inside the window.
pub open spec fn is_active(q: Seq<u64>, now: u64, w: nat) -> bool {
    q.len() > 0 && elapsed(now, q.last()) < w
}

/// The periodic cleanup: keys whose latest request left the window go.
pub open spec fn sweep(m: Map<Seq<char>, Seq<u64>>, now: u64, w: nat) -> Map<Seq<char>, Seq<u64>> {
    Map::new(|k: Seq<char>| m.contains_key(k) && is_active(m[k], now, w), |k: Seq<char>| m[k])
}

/// Model of a rate limiter.
pub struct LimiterView {
    pub requests: u32,
    pub window: nat,
    pub queues: Map<Seq<char>, Seq<u64>>,
    pub count: u64,
}

pub open spec fn queue_of(m: Map<Seq<char>, Seq<u64>>, key: Seq<char>) -> Seq<u64> {
    if m.contains_key(key) {
        m[key]
    } else {
        Seq::empty()
    }
}

/// One request for `key` at time `now` (nanoseconds): the new state and
/// `Ok(())`, or `Err(seconds to wait)`.  The key's queue is pruned either
/// way; an admitted request is appended and counted, and every 10 000th
/// admission sweeps inactive keys.
pub open spec fn check_spec(s: LimiterView, key: Seq<char>, now: u64) -> (LimiterView, Result<(), u64>) {
    let p = prune(queue_of(s.queues, key), now, s.window);
    if p.len() >= s.requests {
        (LimiterView { queues: s.queues.insert(key, p), ..s }, Err(retry_after(p, now, s.window)))
    } else {
        let c: u64 = if s.count == u64::MAX {
            0
        } else {
            (s.count + 1) as u64
        };
        let m = s.queues.insert(key, p.push(now));
        (
            LimiterView {
                queues: if c % 10000 == 0 {
                    sweep(m, now, s.window)
                } else {
                    m
                },
                count: c,
                ..s
            },
            Ok(()),
        )
    }
}

pub struct RateLimiter {
    requests: u32,
    window_secs: u64,
    queues: StringHashMap<VecDeque<u64>>,
    keys: Vec<String>,
    insert_count: u64,
    origin: std::time::Instant,
    last_reading: u64,
}

impl View for RateLimiter {
    type V = LimiterView;

    closed spec fn view(&self) -> LimiterView {
        LimiterView {
            requests: self.requests,
            window: nanos_of_secs(self.window_secs),
            queues: Map::new(
                |k: Seq<char>| self.queues@.contains_key(k),
                |k: Seq<char>| self.queues@[k]@,
            ),
            count: self.insert_count,
        }
    }
}

proof fn lemma_prune_at(q: Seq<u64>, now: u64, w: nat, i: int)
    requires
        0 <= i <= q.len(),
        forall|j: int| 0 <= j < i ==> elapsed(now, #[trigger] q[j]) >= w,
        i == q.len() || elapsed(now, q[i]) < w,
    ensures
        prune(q, now, w) == q.subrange(i, q.len() as int),
    decreases i,
{
    if i > 0 {
        lemma_prune_at(q.drop_first(), now, w, i - 1);
        assert(q.drop_first().subrange(i - 1, q.len() - 1) =~= q.subrange(i, q.len() as int));
    } else {
        assert(q.subrange(0, q.len() as int) =~= q);
    }
}

impl RateLimiter {
    /// Well-formedness: `keys` lists the map's keys, each once.
    pub closed spec fn wf(&self) -> bool {
        &&& forall|i: int, j: int|
            0 <= i < j < self.keys@.len() ==> #[trigger] self.keys@[i]@ != #[trigger] self.keys@[j]@
        &&& forall|i: int| 0 <= i < self.keys@.len() ==> self.queues@.contains_key(#[trigger] self.keys@[i]@)
        &&& forall|k: Seq<char>|
            self.queues@.contains_key(k) ==> exists|i: int| 0 <= i < self.keys@.len() && #[trigger] self.keys@[i]@ == k
    }

    /// The latest time a request was checked at (nanoseconds since this
    /// limiter's origin), 0 before the first.
    pub closed spec fn last_time(&self) -> u64 {
        self.last_reading
    }

    /// The configured number of requests per window.
    pub fn requests_per_minute(&self) -> (r: u32)
        ensures
            r == self@.requests,
    {
        self.requests
    }

    pub fn new(requests: u32, window_secs: u64) -> (r: RateLimiter)
        ensures
            r.wf(),
            r@.requests == requests,
            r@.window == nanos_of_secs(window_secs),
            r@.queues == Map::<Seq<char>, Seq<u64>>::empty(),
            r@.count == 0,
            r.last_time() == 0,
    {
        let r = RateLimiter {
            requests,
            window_secs,
            queues: StringHashMap::new(),
            keys: Vec::new(),
            insert_count: 0,
            origin: instant_now(),
            last_reading: 0,
        };
        assert(r@.queues =~= Map::<Seq<char>, Seq<u64>>::empty());
        r
    }

    fn window_nanos(&self) -> (w: u128)
        ensures
            w == nanos_of_secs(self.window_secs),
    {
        (self.window_secs as u128) * 1_000_000_000
    }

    /// Drops the requests that have left the window from the front.
    fn prune_queue(q: &mut VecDeque<u64>, now: u64, w: u128)
        ensures
            final(q)@ == prune(old(q)@, now, w as nat),
    {
        let ghost q0 = q@;
        let ghost mut dropped: int = 0;
        while q.len() > 0 && (elapsed_nanos(now, q[0]) as u128) >= w
            invariant
                0 <= dropped <= q0.len(),
                q@ == q0.subrange(dropped, q0.len() as int),
                forall|j: int| 0 <= j < dropped ==> elapsed(now, #[trigger] q0[j]) >= w,
            decreases q@.len(),
        {
            proof {
                assert(q0[dropped] == q@[0]);
            }
            q.pop_front();
            proof {
                dropped = dropped + 1;
                assert(q@ =~= q0.subrange(dropped, q0.len() as int));
            }
        }
        proof {
            if q@.len() > 0 {
                assert(q0[dropped] == q@[0]);
            }
            lemma_prune_at(q0, now, w as nat, dropped);
        }
    }

    fn retry_secs(p: &VecDeque<u64>, now: u64, window_secs: u64) -> (r: u64)
        ensures
            r == retry_after(p@, now, nanos_of_secs(window_secs)),
    {
        let oldest = if p.len() > 0 {
            p[0]
        } else {
            now
        };
        let e = elapsed_nanos(now, oldest) as u128;
        let w = (window_secs as u128) * 1_000_000_000;
        let rem: u128 = if w > e {
            w - e
        } else {
            0
        };
        let secs = rem / 1_000_000_000;
        assert(secs <= window_secs) by (nonlinear_arith)
            requires
                rem <= w,
                w == window_secs * 1_000_000_000,
                secs == rem / 1_000_000_000,
        ;
        if secs < 1 {
            1
        } else {
            secs as u64
        }
    }

    fn note_time(&mut self, now: u64)
        requires
            old(self).wf(),
        ensures
            final(self).wf(),
            final(self)@ == old(self)@,
            final(self).last_reading == if now > old(self).last_reading {
                now
            } else {
                old(self).last_reading
            },
    {
        if now > self.last_reading {
            self.last_reading = now;
        }
        assert(self.keys@ == old(self).keys@ && self.queues@ == old(self).queues@);
    }

    fn store(&mut self, key: &str, q: VecDeque<u64>)
        requires
            old(self).wf(),
        ensures
            final(self).wf(),
            final(self).last_reading == old(self).last_reading,
            final(self)@ == (LimiterView { queues: old(self)@.queues.insert(key@, q@), ..old(self)@ }),
    {
        if !self.queues.contains_key(key) {
            let ghost prev = self.keys@;
            self.keys.push(key.to_owned());
            proof {
                assert forall|i: int| 0 <= i < prev.len() implies
                    #[trigger] self.keys@[i]@ == prev[i]@ by {}
                assert(self.keys@[prev.len() as int]@ == key@);
            }
        }
        let ghost mid_keys = self.keys@;
        self.queues.insert(key.to_owned(), q);
        proof {
            assert forall|k: Seq<char>| self.queues@.contains_key(k) implies exists|i: int|
                0 <= i < self.keys@.len() && #[trigger] self.keys@[i]@ == k by {
                if k == key@ {
                    if !old(self).queues@.contains_key(key@) {
                        assert(self.keys@[self.keys@.len() - 1]@ == key@);
                    } else {
                        let i = choose|i: int| 0 <= i < old(self).keys@.len() && #[trigger] old(self).keys@[i]@ == k;
                        assert(self.keys@[i]@ == k);
                    }
                } else {
                    let i = choose|i: int| 0 <= i < old(self).keys@.len() && #[trigger] old(self).keys@[i]@ == k;
                    assert(self.keys@[i]@ == k);
                }
            }
            assert(self@.queues =~= old(self)@.queues.insert(key@, q@));
        }
    }

    /// The periodic cleanup of inactive keys.
    fn sweep_inactive(&mut self, now: u64)
        requires
            old(self).wf(),
        ensures
            final(self).wf(),
            final(self).last_reading == old(self).last_reading,
            final(self)@ == (LimiterView {
                queues: sweep(old(self)@.queues, now, old(self)@.window),
                ..old(self)@
            }),
    {
        let w = self.window_nanos();
        let mut nm: StringHashMap<VecDeque<u64>> = StringHashMap::new();
        let mut nk: Vec<String> = Vec::new();
        let mut i: usize = 0;
        while i < self.keys.len()
            invariant
                self.wf(),
                *self == *old(self),
                w == nanos_of_secs(self.window_secs),
                i <= self.keys@.len(),
                forall|a: int, b: int|
                    0 <= a < b < nk@.len() ==> #[trigger] nk@[a]@ != #[trigger] nk@[b]@,
                forall|a: int| 0 <= a < nk@.len() ==> nm@.contains_key(#[trigger] nk@[a]@),
                forall|k: Seq<char>|
                    nm@.contains_key(k) ==> exists|a: int| 0 <= a < nk@.len() && #[trigger] nk@[a]@ == k,
                forall|k: Seq<char>|
                    #[trigger] nm@.contains_key(k) <==> (exists|j: int|
                        0 <= j < i && #[trigger] self.keys@[j]@ == k) && is_active(
                        self.queues@[k]@,
                        now,
                        w as nat,
                    ),
                forall|k: Seq<char>| nm@.contains_key(k) ==> #[trigger] nm@[k]@ == self.queues@[k]@,
            decreases self.keys@.len() - i,
        {
            let k = &self.keys[i];
            let q = match self.queues.get(k.as_str()) {
                Some(q) => q,
                None => {
                    assert(false);
                    return;
                },
            };
            let active = q.len() > 0 && (elapsed_nanos(now, q[q.len() - 1]) as u128) < w;
            if active {
                let ghost prev_nk = nk@;
                proof {
                    assert forall|a: int| 0 <= a < nk@.len() implies nk@[a]@ != k@ by {
                        let j = choose|j: int| 0 <= j < i && #[trigger] self.keys@[j]@ == nk@[a]@;
                        assert(self.keys@[j]@ != self.keys@[i as int]@);
                    }
                }
                let qc = q.clone();
                assert(qc@ =~= q@);
                nm.insert(k.clone(), qc);
                nk.push(k.clone());
                proof {
                    assert(nk@[nk@.len() - 1]@ == k@);
                    assert forall|k2: Seq<char>| nm@.contains_key(k2) implies exists|a: int|
                        0 <= a < nk@.len() && #[trigger] nk@[a]@ == k2 by {
                        if k2 != k@ {
                            let a = choose|a: int| 0 <= a < prev_nk.len() && #[trigger] prev_nk[a]@ == k2;
                            assert(nk@[a]@ == k2);
                        }
                    }
                }
            }
            proof {
                assert(q@.len() > 0 ==> q@.last() == q@[q@.len() - 1]);
                assert forall|k2: Seq<char>|
                    #[trigger] nm@.contains_key(k2) <==> (exists|j: int|
                        0 <= j < i + 1 && #[trigger] self.keys@[j]@ == k2) && is_active(
                        self.queues@[k2]@,
                        now,
                        w as nat,
                    ) by {
                    if exists|j: int| 0 <= j < i + 1 && #[trigger] self.keys@[j]@ == k2 {
                        let j = choose|j: int| 0 <= j < i + 1 && #[trigger] self.keys@[j]@ == k2;
                        if j < i {
                        } else {
                            assert(k2 == k@);
                        }
                    }
                }
            }
            i = i + 1;
        }
        proof {
            assert forall|k: Seq<char>| #[trigger] nm@.contains_key(k) <==> old(self).queues@.contains_key(k)
                && is_active(old(self).queues@[k]@, now, w as nat) by {
                if old(self).queues@.contains_key(k) {
                    let j = choose|j: int| 0 <= j < old(self).keys@.len() && #[trigger] old(self).keys@[j]@ == k;
                }
            }
        }
        self.queues = nm;
        self.keys = nk;
        proof {
            assert(self@.queues =~= sweep(old(self)@.queues, now, old(self)@.window));
        }
    }

    /// One request for `key` at time `now` (nanoseconds since this limiter's
    /// origin): `Ok(())` if allowed, `Err(retry_after_secs)` if blocked.
    pub fn check_at(&mut self, key: &str, now: u64) -> (r: Result<(), u64>)
        requires
            old(self).wf(),
        ensures
            final(self).wf(),
            (final(self)@, r) == check_spec(old(self)@, key@, now),
            final(self).last_time() == if now > old(self).last_time() {
                now
            } else {
                old(self).last_time()
            },
    {
        let w = self.window_nanos();
        let mut p: VecDeque<u64> = match self.queues.get(key) {
            Some(q) => q.clone(),
            None => VecDeque::new(),
        };
        proof {
            assert(p@ =~= queue_of(old(self)@.queues, key@));
        }
        Self::prune_queue(&mut p, now, w);
        if p.len() >= self.requests as usize {
            let retry = Self::retry_secs(&p, now, self.window_secs);
            self.store(key, p);
            self.note_time(now);
            return Err(retry);
        }
        p.push_back(now);
        self.store(key, p);
        self.insert_count = if self.insert_count == u64::MAX {
            0
        } else {
            self.insert_count + 1
        };
        if self.insert_count % 10000 == 0 {
            self.sweep_inactive(now);
        }
        self.note_time(now);
        Ok(())
    }

    /// One request for `key` now.  The time is read from the monotonic
    /// clock, and never taken earlier than the latest time already checked
    /// at, so requests made through `check` arrive in time order; whatever
    /// the clock reads, the outcome is that of `check_at` at that time.
    pub fn check(&mut self, key: &str) -> (r: Result<(), u64>)
        requires
            old(self).wf(),
        ensures
            final(self).wf(),
            exists|now: u64|
                {
                    &&& now >= old(self).last_time()
                    &&& final(self).last_time() == now
                    &&& (final(self)@, r) == check_spec(old(self)@, key@, now)
                },
    {
        let reading = nanos_since(&self.origin);
        let now = if reading < self.last_reading {
            self.last_reading
        } else {
            reading
        };
        self.check_at(key, now)
    }
}

// ---------------------------------------------------------------------------
// Whom a request is counted against
// ---------------------------------------------------------------------------

pub open spec fn unknown_word() -> Seq<char> {
    seq!['u', 'n', 'k', 'n', 'o', 'w', 'n']
}

/// The first comma-separated entry of a header value, trimmed.
pub open spec fn first_entry(v: Seq<char>) -> Seq<char> {
    crate::text::trim(v.take(crate::auth::span_until(v, ',') as int))
}

/// The client address a request is counted against.  Proxy headers are
/// trusted only when configured: then the first `X-Forwarded-For` entry,
/// else `X-Real-IP`, when not blank.  Otherwise `unknown`.
pub open spec fn client_ip_spec(trust_proxy: bool, forwarded: Option<Seq<char>>, real_ip: Option<Seq<char>>) -> Seq<char> {
    if trust_proxy && forwarded is Some && first_entry(forwarded->0).len() > 0 {
        first_entry(forwarded->0)
    } else if trust_proxy && real_ip is Some && crate::text::trim(real_ip->0).len() > 0 {
        crate::text::trim(real_ip->0)
    } else {
        unknown_word()
    }
}

fn first_entry_of(v: &str) -> (r: Vec<char>)
    ensures
        r@ == first_entry(v@),
{
    let cs = crate::text::chars_of(v);
    let mut end: usize = 0;
    while end < cs.len() && cs[end] != ','
        invariant
            end <= cs@.len(),
            forall|j: int| 0 <= j < end ==> cs@[j] != ',',
        decreases cs@.len() - end,
    {
        end = end + 1;
    }
    proof {
        crate::auth::lemma_span_until(cs@, ',', end as int);
    }
    let p = crate::text::take_prefix(cs.as_slice(), end);
    assert(p@ =~= cs@.take(end as int));
    crate::text::trim_chars(p.as_slice())
}


pub fn client_ip(trust_proxy: bool, forwarded: Option<&str>, real_ip: Option<&str>) -> (r: String)
    ensures
        r@ == client_ip_spec(
            trust_proxy,
            match forwarded {
                Some(v) => Some(v@),
                None => None,
            },
            match real_ip {
                Some(v) => Some(v@),
                None => None,
            },
        ),
{
    if trust_proxy {
        if let Some(v) = forwarded {
            let ip = first_entry_of(v);
            if ip.len() > 0 {
                return crate::text::string_of(ip.as_slice());
            }
        }
        if let Some(v) = real_ip {
            let t = crate::text::trim_str(v);
            if !t.as_str().is_empty() {
                return t;
            }
        }
    }
    let u: Vec<char> = vec!['u', 'n', 'k', 'n', 'o', 'w', 'n'];
    assert(u@ =~= unknown_word());
    crate::text::string_of(u.as_slice())
}

/// The rate-limit key: `u:<subject>` for a request carrying a valid access
/// token, `ip:<address>` otherwise.
pub fn rate_limit_key(user_sub: Option<&str>, ip: &str) -> (r: String)
    ensures
        r@ == match user_sub {
            Some(s) => seq!['u', ':'] + s@,
            None => seq!['i', 'p', ':'] + ip@,
        },
{
    proof {
        reveal_strlit("u:");
        reveal_strlit("ip:");
    }
    match user_sub {
        Some(s) => crate::error::concat("u:", s),
        None => crate::error::concat("ip:", ip),
    }
}

} // verus!
