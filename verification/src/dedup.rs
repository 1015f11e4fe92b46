//! Small TTL deduplication table: a key seen within the last 90 seconds is
//! reported as already seen, so an event delivered locally is not delivered
//! a second time when the broker echoes it.  An event's key is made of its
//! topic and its payload, so only the echo of the same event is suppressed.
use vstd::hash_map::StringHashMap;
use vstd::prelude::*;

use crate::clock::{elapsed, elapsed_nanos, instant_now, nanos_since};
use crate::text::{chars_of, decimal_text, string_of, u64_text};

verus! {

/// The payload's bytes as characters, one each (U+0000 to U+00FF).
pub open spec fn byte_chars(payload: Seq<u8>) -> Seq<char> {
    payload.map_values(|b: u8| b as char)
}

/// The key of a bus event: the number of characters of the topic in
/// decimal, `:`, the topic, then the payload's bytes.  Two events have the
/// same key only when topic and payload are the same (`law_event_key_injective`).
pub open spec fn event_key_spec(topic: Seq<char>, payload: Seq<u8>) -> Seq<char> {
    decimal_text(topic.len()) + seq![':'] + topic + byte_chars(payload)
}

/// The key of the event with this topic and payload.
pub fn event_key(topic: &str, payload: &[u8]) -> (r: String)
    ensures
        r@ == event_key_spec(topic@, payload@),
{
    let tc = chars_of(topic);
    let n = u64_text(tc.len() as u64);
    let mut out = chars_of(n.as_str());
    out.push(':');
    let mut i: usize = 0;
    let ghost start = out@;
    while i < tc.len()
        invariant
            i <= tc@.len(),
            out@ == start + tc@.take(i as int),
        decreases tc@.len() - i,
    {
        out.push(tc[i]);
        assert(tc@.take(i + 1) =~= tc@.take(i as int).push(tc@[i as int]));
        i = i + 1;
    }
    assert(tc@.take(tc@.len() as int) =~= tc@);
    let ghost mid = out@;
    let mut j: usize = 0;
    while j < payload.len()
        invariant
            j <= payload@.len(),
            out@ == mid + byte_chars(payload@.take(j as int)),
        decreases payload@.len() - j,
    {
        out.push(payload[j] as char);
        assert(byte_chars(payload@.take(j + 1)) =~= byte_chars(payload@.take(j as int)).push(
            payload@[j as int] as char,
        ));
        j = j + 1;
    }
    assert(payload@.take(payload@.len() as int) =~= payload@);
    assert(out@ =~= event_key_spec(topic@, payload@));
    string_of(out.as_slice())
}

/// How long a key is remembered, in nanoseconds (90 seconds).
pub open spec fn ttl() -> nat {
    90_000_000_000
}

/// Above this many remembered keys, stale ones are pruned first.
pub open spec fn prune_above() -> nat {
    50_000
}

pub open spec fn is_fresh(t: u64, now: u64) -> bool {
    elapsed(now, t) < ttl()
}

/// Only the keys seen less than the TTL ago.
pub open spec fn prune_stale(m: Map<Seq<char>, u64>, now: u64) -> Map<Seq<char>, u64> {
    Map::new(|k: Seq<char>| m.contains_key(k) && is_fresh(m[k], now), |k: Seq<char>| m[k])
}

/// `see` at time `now`: the table after the call, and whether the key is
/// new (not seen within the TTL).  A new key is recorded with `now`; a key
/// seen recently keeps its earlier time.
pub open spec fn see_spec(m: Map<Seq<char>, u64>, key: Seq<char>, now: u64) -> (Map<Seq<char>, u64>, bool) {
    let m1 = if m.dom().len() > prune_above() {
        prune_stale(m, now)
    } else {
        m
    };
    if m1.contains_key(key) && is_fresh(m1[key], now) {
        (m1, false)
    } else {
        (m1.insert(key, now), true)
    }
}

pub struct Dedup {
    map: StringHashMap<u64>,
    keys: Vec<String>,
    origin: std::time::Instant,
    last_reading: u64,
}

impl View for Dedup {
    type V = Map<Seq<char>, u64>;

    closed spec fn view(&self) -> Map<Seq<char>, u64> {
        self.map@
    }
}

impl Dedup {
    /// Well-formedness: `keys` lists the table's keys, each once.
    pub closed spec fn wf(&self) -> bool {
        &&& forall|i: int, j: int|
            0 <= i < j < self.keys@.len() ==> #[trigger] self.keys@[i]@ != #[trigger] self.keys@[j]@
        &&& forall|i: int| 0 <= i < self.keys@.len() ==> self.map@.contains_key(#[trigger] self.keys@[i]@)
        &&& forall|k: Seq<char>|
            self.map@.contains_key(k) ==> exists|i: int| 0 <= i < self.keys@.len() && #[trigger] self.keys@[i]@ == k
        &&& self.map@.dom().finite()
    }

    /// The latest time a key was looked up at (nanoseconds since this
    /// table's origin), 0 before the first.
    pub closed spec fn last_time(&self) -> u64 {
        self.last_reading
    }

    pub fn new() -> (r: Dedup)
        ensures
            r.wf(),
            r@ == Map::<Seq<char>, u64>::empty(),
            r.last_time() == 0,
    {
        Dedup { map: StringHashMap::new(), keys: Vec::new(), origin: instant_now(), last_reading: 0 }
    }

    fn prune(&mut self, now: u64)
        requires
            old(self).wf(),
        ensures
            final(self).wf(),
            final(self)@ == prune_stale(old(self)@, now),
            final(self).last_reading == old(self).last_reading,
    {
        let mut nm: StringHashMap<u64> = StringHashMap::new();
        let mut nk: Vec<String> = Vec::new();
        let mut i: usize = 0;
        while i < self.keys.len()
            invariant
                self.wf(),
                *self == *old(self),
                i <= self.keys@.len(),
                forall|a: int, b: int|
                    0 <= a < b < nk@.len() ==> #[trigger] nk@[a]@ != #[trigger] nk@[b]@,
                forall|a: int| 0 <= a < nk@.len() ==> nm@.contains_key(#[trigger] nk@[a]@),
                forall|k: Seq<char>|
                    nm@.contains_key(k) ==> exists|a: int| 0 <= a < nk@.len() && #[trigger] nk@[a]@ == k,
                forall|k: Seq<char>|
                    #[trigger] nm@.contains_key(k) <==> (exists|j: int|
                        0 <= j < i && #[trigger] self.keys@[j]@ == k) && is_fresh(self.map@[k], now),
                forall|k: Seq<char>| nm@.contains_key(k) ==> #[trigger] nm@[k] == self.map@[k],
                nm@.dom().subset_of(self.map@.dom()),
            decreases self.keys@.len() - i,
        {
            let k = &self.keys[i];
            let t = match self.map.get(k.as_str()) {
                Some(t) => *t,
                None => {
                    assert(false);
                    return;
                },
            };
            if (elapsed_nanos(now, t) as u128) < 90_000_000_000 {
                let ghost prev_nk = nk@;
                proof {
                    assert forall|a: int| 0 <= a < nk@.len() implies nk@[a]@ != k@ by {
                        let j = choose|j: int| 0 <= j < i && #[trigger] self.keys@[j]@ == nk@[a]@;
                        assert(self.keys@[j]@ != self.keys@[i as int]@);
                    }
                }
                nm.insert(k.clone(), t);
                nk.push(k.clone());
                proof {
                    assert(nk@[nk@.len() - 1]@ == k@);
                    assert forall|k2: Seq<char>| nm@.contains_key(k2) implies exists|a: int|
                        0 <= a < nk@.len() && #[trigger] nk@[a]@ == k2 by {
                        if k2 != k@ {
                            let a = choose|a: int| 0 <= a < prev_nk.len() && #[trigger] prev_nk[a]@ == k2;
                            assert(nk@[a]@ == k2);
                        }
                    }
                }
            }
            proof {
                assert forall|k2: Seq<char>|
                    #[trigger] nm@.contains_key(k2) <==> (exists|j: int|
                        0 <= j < i + 1 && #[trigger] self.keys@[j]@ == k2) && is_fresh(self.map@[k2], now) by {
                    if exists|j: int| 0 <= j < i + 1 && #[trigger] self.keys@[j]@ == k2 {
                        let j = choose|j: int| 0 <= j < i + 1 && #[trigger] self.keys@[j]@ == k2;
                        if j == i {
                            assert(k2 == k@);
                        }
                    }
                }
            }
            i = i + 1;
        }
        proof {
            assert forall|k: Seq<char>| #[trigger] nm@.contains_key(k) <==> old(self)@.contains_key(k)
                && is_fresh(old(self)@[k], now) by {
                if old(self)@.contains_key(k) {
                    let j = choose|j: int| 0 <= j < old(self).keys@.len() && #[trigger] old(self).keys@[j]@ == k;
                }
            }
            vstd::set_lib::lemma_len_subset(nm@.dom(), self.map@.dom());
        }
        self.map = nm;
        self.keys = nk;
        proof {
            assert(self@ =~= prune_stale(old(self)@, now));
        }
    }

    fn note_time(&mut self, now: u64)
        requires
            old(self).wf(),
        ensures
            final(self).wf(),
            final(self)@ == old(self)@,
            final(self).last_reading == if now > old(self).last_reading {
                now
            } else {
                old(self).last_reading
            },
    {
        if now > self.last_reading {
            self.last_reading = now;
        }
        assert(self.keys@ == old(self).keys@ && self.map@ == old(self).map@);
    }

    fn record(&mut self, key: &str, now: u64)
        requires
            old(self).wf(),
        ensures
            final(self).wf(),
            final(self)@ == old(self)@.insert(key@, now),
            final(self).last_reading == old(self).last_reading,
    {
        if !self.map.contains_key(key) {
            let ghost prev = self.keys@;
            self.keys.push(key.to_owned());
            proof {
                assert forall|i: int| 0 <= i < prev.len() implies #[trigger] self.keys@[i]@ == prev[i]@ by {}
                assert(self.keys@[prev.len() as int]@ == key@);
            }
        }
        self.map.insert(key.to_owned(), now);
        proof {
            assert forall|k: Seq<char>| self.map@.contains_key(k) implies exists|i: int|
                0 <= i < self.keys@.len() && #[trigger] self.keys@[i]@ == k by {
                if k == key@ && !old(self).map@.contains_key(key@) {
                    assert(self.keys@[self.keys@.len() - 1]@ == key@);
                } else {
                    let i = choose|i: int| 0 <= i < old(self).keys@.len() && #[trigger] old(self).keys@[i]@ == k;
                    assert(self.keys@[i]@ == k);
                }
            }
        }
    }

    /// Returns true if the key was NOT seen within the last 90 seconds
    /// (the caller should process it) and records it; `now` is in
    /// nanoseconds since this table's origin.
    pub fn see_at(&mut self, key: &str, now: u64) -> (fresh: bool)
        requires
            old(self).wf(),
        ensures
            final(self).wf(),
            (final(self)@, fresh) == see_spec(old(self)@, key@, now),
            final(self).last_time() == if now > old(self).last_time() {
                now
            } else {
                old(self).last_time()
            },
    {
        if self.map.len() > 50_000 {
            self.prune(now);
        }
        self.note_time(now);
        match self.map.get(key) {
            Some(t) => {
                if (elapsed_nanos(now, *t) as u128) < 90_000_000_000 {
                    return false;
                }
            },
            None => {},
        }
        self.record(key, now);
        true
    }

    /// `see_at` with the time read from the monotonic clock, never taken
    /// earlier than the latest time already looked up at, so lookups made
    /// through `see` arrive in time order; whatever the clock reads, the
    /// outcome is that of `see_at` at that time.
    pub fn see(&mut self, key: &str) -> (fresh: bool)
        requires
            old(self).wf(),
        ensures
            final(self).wf(),
            exists|now: u64|
                {
                    &&& now >= old(self).last_time()
                    &&& final(self).last_time() == now
                    &&& (final(self)@, fresh) == see_spec(old(self)@, key@, now)
                },
    {
        let reading = nanos_since(&self.origin);
        let now = if reading < self.last_reading {
            self.last_reading
        } else {
            reading
        };
        self.see_at(key, now)
    }

    /// `see` for the event with this topic and payload (see `event_key`).
    pub fn see_event(&mut self, topic: &str, payload: &[u8]) -> (fresh: bool)
        requires
            old(self).wf(),
        ensures
            final(self).wf(),
            exists|now: u64|
                {
                    &&& now >= old(self).last_time()
                    &&& final(self).last_time() == now
                    &&& (final(self)@, fresh) == see_spec(old(self)@, event_key_spec(topic@, payload@), now)
                },
    {
        let key = event_key(topic, payload);
        self.see(key.as_str())
    }
}

impl Default for Dedup {
    fn default() -> (r: Dedup)
        ensures
            r.wf(),
            r@ == Map::<Seq<char>, u64>::empty(),
    {
        Dedup::new()
    }
}

} // verus!
