//! Properties of the library that hold across calls or for all inputs: the
//! rate limiter, the event de-duplication table, the hub and its sessions,
//! file names, search patterns, interests, suggestions and the upload
//! pipeline.
use vstd::prelude::*;

use crate::clock::{elapsed, nanos_of_secs};
use crate::dedup::{byte_chars, event_key_spec, is_fresh, prune_stale, see_spec, ttl};
use crate::text::{decimal_text, utf8_len};
use crate::config::{config_outcome, env_get, env_opt};
use crate::text::parse_u64_spec;
use crate::suggest::interest_reason_spec;
use crate::validate::email_outcome;
use crate::hub::{
    connect_spec, disconnect_spec, has_conn, join_spec, leave_spec, online_users, room_targets, HubView,
};
use crate::rate_limit::{check_spec, is_active, prune, queue_of, LimiterView};
use crate::ws::leave_all;
use crate::media::{is_unsafe_name_char, sanitize_spec, upload_step_spec, ActionView, MediaKind, UploadState};
use crate::suggest::lowered_set;
use crate::routes::escape_like_spec;
use crate::validate::{has_control_char, interests_fold, interests_outcome};

verus! {

// ---------------------------------------------------------------------------
// Rate limiter
// ---------------------------------------------------------------------------

pub open spec fn sorted(q: Seq<u64>) -> bool {
    forall|i: int, j: int| 0 <= i <= j < q.len() ==> q[i] <= q[j]
}

pub open spec fn all_at_most(q: Seq<u64>, now: u64) -> bool {
    forall|i: int| 0 <= i < q.len() ==> q[i] <= now
}

/// The remembered requests that are still inside the window ending at `now`.
pub open spec fn in_window(q: Seq<u64>, now: u64, w: nat) -> Seq<u64> {
    q.filter(|t: u64| elapsed(now, t) < w)
}

proof fn lemma_prune_is_window(q: Seq<u64>, now: u64, w: nat)
    requires
        sorted(q),
        all_at_most(q, now),
    ensures
        prune(q, now, w) == in_window(q, now, w),
    decreases q.len(),
{
    reveal_with_fuel(Seq::filter, 1);
    if q.len() == 0 {
        assert(in_window(q, now, w) =~= Seq::<u64>::empty());
    } else if elapsed(now, q[0]) >= w {
        let r = q.drop_first();
        assert(sorted(r));
        assert(all_at_most(r, now));
        lemma_prune_is_window(r, now, w);
        lemma_filter_drop_first(q, now, w);
    } else {
        // every request after the first is at least as recent
        assert forall|i: int| 0 <= i < q.len() implies elapsed(now, #[trigger] q[i]) < w by {
            assert(q[0] <= q[i]);
        }
        lemma_filter_all(q, now, w);
    }
}

proof fn lemma_filter_all(q: Seq<u64>, now: u64, w: nat)
    requires
        forall|i: int| 0 <= i < q.len() ==> elapsed(now, #[trigger] q[i]) < w,
    ensures
        in_window(q, now, w) == q,
    decreases q.len(),
{
    reveal_with_fuel(Seq::filter, 1);
    if q.len() > 0 {
        let d = q.drop_last();
        assert forall|i: int| 0 <= i < d.len() implies elapsed(now, #[trigger] d[i]) < w by {
            assert(d[i] == q[i]);
        }
        lemma_filter_all(d, now, w);
        assert(q.last() == q[q.len() - 1]);
        assert(d.push(q.last()) =~= q);
    } else {
        assert(in_window(q, now, w) =~= q);
    }
}

proof fn lemma_filter_drop_first(q: Seq<u64>, now: u64, w: nat)
    requires
        q.len() > 0,
        elapsed(now, q[0]) >= w,
    ensures
        in_window(q, now, w) == in_window(q.drop_first(), now, w),
{
    let p = |t: u64| elapsed(now, t) < w;
    assert(q =~= seq![q[0]] + q.drop_first());
    Seq::<u64>::filter_distributes_over_add(seq![q[0]], q.drop_first(), p);
    reveal_with_fuel(Seq::filter, 2);
    assert(seq![q[0]].filter(p) =~= Seq::<u64>::empty());
    assert(Seq::<u64>::empty() + q.drop_first().filter(p) =~= q.drop_first().filter(p));
}

/// The sliding window: when a key's requests arrive in time order, a request
/// is refused exactly when `requests` earlier requests of that key lie
/// within the window ending now.
pub proof fn law_refused_iff_window_full(s: LimiterView, key: Seq<char>, now: u64)
    requires
        sorted(queue_of(s.queues, key)),
        all_at_most(queue_of(s.queues, key), now),
    ensures
        check_spec(s, key, now).1 is Err <==> in_window(queue_of(s.queues, key), now, s.window).len()
            >= s.requests,
{
    lemma_prune_is_window(queue_of(s.queues, key), now, s.window);
}

/// After an admitted request, the key remembers at most `requests` requests.
pub proof fn law_admitted_within_limit(s: LimiterView, key: Seq<char>, now: u64)
    requires
        check_spec(s, key, now).1 is Ok,
    ensures
        queue_of(check_spec(s, key, now).0.queues, key).len() <= s.requests,
{
}

/// Requests arriving in time order keep every key's queue in time order.
pub proof fn law_queue_stays_ordered(s: LimiterView, key: Seq<char>, now: u64)
    requires
        sorted(queue_of(s.queues, key)),
        all_at_most(queue_of(s.queues, key), now),
    ensures
        sorted(queue_of(check_spec(s, key, now).0.queues, key)),
        all_at_most(queue_of(check_spec(s, key, now).0.queues, key), now),
{
    let q = queue_of(s.queues, key);
    lemma_prune_suffix(q, now, s.window);
    let p = prune(q, now, s.window);
    assert(sorted(p)) by {
        let off = q.len() - p.len();
        assert forall|i: int, j: int| 0 <= i <= j < p.len() implies p[i] <= p[j] by {
            assert(p[i] == q[i + off]);
            assert(p[j] == q[j + off]);
        }
    }
    assert(all_at_most(p, now)) by {
        let off = q.len() - p.len();
        assert forall|i: int| 0 <= i < p.len() implies p[i] <= now by {
            assert(p[i] == q[i + off]);
        }
    }
    assert(sorted(p.push(now)));
    assert(all_at_most(p.push(now), now));
}

proof fn lemma_prune_head(q: Seq<u64>, now: u64, w: nat)
    ensures
        prune(q, now, w).len() > 0 ==> elapsed(now, prune(q, now, w)[0]) < w,
    decreases q.len(),
{
    if q.len() > 0 && elapsed(now, q[0]) >= w {
        lemma_prune_head(q.drop_first(), now, w);
    }
}

proof fn lemma_prune_suffix(q: Seq<u64>, now: u64, w: nat)
    ensures
        prune(q, now, w).len() <= q.len(),
        prune(q, now, w) == q.subrange(q.len() - prune(q, now, w).len(), q.len() as int),
    decreases q.len(),
{
    if q.len() > 0 && elapsed(now, q[0]) >= w {
        lemma_prune_suffix(q.drop_first(), now, w);
        let p = prune(q, now, w);
        assert(q.drop_first().subrange(q.len() - 1 - p.len(), q.len() - 1) =~= q.subrange(
            q.len() - p.len(),
            q.len() as int,
        ));
    } else {
        assert(q.subrange(0, q.len() as int) =~= q);
    }
}

/// A refused request is told to wait at least one second and, when the
/// window is at least a second, no longer than the window.
pub proof fn law_retry_after_bounds(s: LimiterView, key: Seq<char>, now: u64)
    requires
        s.window <= nanos_of_secs(u64::MAX),
        check_spec(s, key, now).1 is Err,
    ensures
        check_spec(s, key, now).1->Err_0 >= 1,
        s.window >= 1_000_000_000 ==> check_spec(s, key, now).1->Err_0 * 1_000_000_000 <= s.window,
{
    let p = prune(queue_of(s.queues, key), now, s.window);
    let oldest = if p.len() > 0 {
        p[0]
    } else {
        now
    };
    let e = elapsed(now, oldest);
    let rem: nat = if s.window > e {
        (s.window - e) as nat
    } else {
        0
    };
    assert((rem / 1_000_000_000) * 1_000_000_000 <= rem) by (nonlinear_arith);
    assert(rem / 1_000_000_000 <= u64::MAX) by (nonlinear_arith)
        requires
            rem <= s.window,
            s.window <= u64::MAX as nat * 1_000_000_000,
    ;
}

/// The limiter's answers over a run of requests, made one after another
/// from state `s`: the final state and the answer to each request.
pub open spec fn run_checks(s: LimiterView, calls: Seq<(Seq<char>, u64)>) -> (LimiterView, Seq<Result<(), u64>>)
    decreases calls.len(),
{
    if calls.len() == 0 {
        (s, Seq::empty())
    } else {
        let prev = run_checks(s, calls.drop_last());
        let step = check_spec(prev.0, calls.last().0, calls.last().1);
        (step.0, prev.1.push(step.1))
    }
}

pub open spec fn in_time_order(calls: Seq<(Seq<char>, u64)>) -> bool {
    forall|i: int, j: int| 0 <= i <= j < calls.len() ==> calls[i].1 <= calls[j].1
}

/// How many of the first `n` requests were for `key`, were admitted, and lie
/// within the window of length `w` ending at `now`.
pub open spec fn admitted_count(
    calls: Seq<(Seq<char>, u64)>,
    results: Seq<Result<(), u64>>,
    n: int,
    key: Seq<char>,
    now: u64,
    w: nat,
) -> nat
    decreases n,
{
    if n <= 0 {
        0
    } else {
        admitted_count(calls, results, n - 1, key, now, w) + if calls[n - 1].0 == key && results[n - 1] is Ok
            && elapsed(now, calls[n - 1].1) < w {
            1nat
        } else {
            0nat
        }
    }
}

spec fn queue_ok(s: LimiterView, k: Seq<char>, t: u64) -> bool {
    sorted(queue_of(s.queues, k)) && all_at_most(queue_of(s.queues, k), t)
}

spec fn count_ok(
    s: LimiterView,
    calls: Seq<(Seq<char>, u64)>,
    results: Seq<Result<(), u64>>,
    k: Seq<char>,
    now: u64,
) -> bool {
    in_window(queue_of(s.queues, k), now, s.window).len() == admitted_count(
        calls,
        results,
        calls.len() as int,
        k,
        now,
        s.window,
    )
}

/// The state remembers, for every key, exactly the admitted requests that
/// can still fall inside a window ending at `t` or later.
spec fn tracks(s: LimiterView, calls: Seq<(Seq<char>, u64)>, results: Seq<Result<(), u64>>, t: u64) -> bool {
    &&& calls.len() == results.len()
    &&& forall|k: Seq<char>| #[trigger] queue_ok(s, k, t)
    &&& forall|k: Seq<char>, now: u64| now >= t ==> #[trigger] count_ok(s, calls, results, k, now)
}

proof fn lemma_window_push(q: Seq<u64>, x: u64, now: u64, w: nat)
    ensures
        in_window(q.push(x), now, w) == if elapsed(now, x) < w {
            in_window(q, now, w).push(x)
        } else {
            in_window(q, now, w)
        },
{
    reveal_with_fuel(Seq::filter, 1);
    assert(q.push(x).drop_last() =~= q);
}

proof fn lemma_window_twice(q: Seq<u64>, t1: u64, t2: u64, w: nat)
    requires
        t1 <= t2,
    ensures
        in_window(in_window(q, t1, w), t2, w) == in_window(q, t2, w),
    decreases q.len(),
{
    reveal_with_fuel(Seq::filter, 1);
    if q.len() > 0 {
        let d = q.drop_last();
        let x = q.last();
        assert(d.push(x) =~= q);
        lemma_window_twice(d, t1, t2, w);
        lemma_window_push(d, x, t1, w);
        lemma_window_push(d, x, t2, w);
        lemma_window_push(in_window(d, t1, w), x, t2, w);
    } else {
        assert(in_window(q, t1, w) =~= q);
    }
}

proof fn lemma_window_empty(q: Seq<u64>, now: u64, w: nat)
    requires
        forall|i: int| 0 <= i < q.len() ==> elapsed(now, #[trigger] q[i]) >= w,
    ensures
        in_window(q, now, w).len() == 0,
    decreases q.len(),
{
    reveal_with_fuel(Seq::filter, 1);
    if q.len() > 0 {
        let d = q.drop_last();
        assert forall|i: int| 0 <= i < d.len() implies elapsed(now, #[trigger] d[i]) >= w by {
            assert(d[i] == q[i]);
        }
        lemma_window_empty(d, now, w);
        assert(d.push(q.last()) =~= q);
        lemma_window_push(d, q.last(), now, w);
        assert(q.last() == q[q.len() - 1]);
    }
}

proof fn lemma_admitted_prefix(
    calls: Seq<(Seq<char>, u64)>,
    results: Seq<Result<(), u64>>,
    c: (Seq<char>, u64),
    r: Result<(), u64>,
    m: int,
    key: Seq<char>,
    now: u64,
    w: nat,
)
    requires
        m <= calls.len(),
        calls.len() == results.len(),
    ensures
        admitted_count(calls.push(c), results.push(r), m, key, now, w) == admitted_count(
            calls,
            results,
            m,
            key,
            now,
            w,
        ),
    decreases m,
{
    if m > 0 {
        lemma_admitted_prefix(calls, results, c, r, m - 1, key, now, w);
    }
}

proof fn lemma_step_tracks(
    s: LimiterView,
    calls: Seq<(Seq<char>, u64)>,
    results: Seq<Result<(), u64>>,
    t: u64,
    key: Seq<char>,
    t2: u64,
)
    requires
        tracks(s, calls, results, t),
        t <= t2,
    ensures
        tracks(
            check_spec(s, key, t2).0,
            calls.push((key, t2)),
            results.push(check_spec(s, key, t2).1),
            t2,
        ),
        check_spec(s, key, t2).1 is Ok <==> admitted_count(calls, results, calls.len() as int, key, t2, s.window)
            < s.requests,
{
    let w = s.window;
    let n = calls.len() as int;
    let q = queue_of(s.queues, key);
    assert(queue_ok(s, key, t));
    assert(all_at_most(q, t2));
    lemma_prune_is_window(q, t2, w);
    assert(count_ok(s, calls, results, key, t2));
    let p = prune(q, t2, w);
    let step = check_spec(s, key, t2);
    let s2 = step.0;
    let r = step.1;
    let calls2 = calls.push((key, t2));
    let results2 = results.push(r);
    assert forall|k: Seq<char>| #[trigger] queue_ok(s2, k, t2) by {
        if k == key {
            law_queue_stays_ordered(s, key, t2);
        } else {
            assert(queue_ok(s, k, t));
            let qk = queue_of(s.queues, k);
            assert(queue_of(s2.queues, k) == qk || queue_of(s2.queues, k) == Seq::<u64>::empty());
        }
    }
    assert forall|k: Seq<char>, now: u64| now >= t2 implies #[trigger] count_ok(s2, calls2, results2, k, now) by {
        lemma_admitted_prefix(calls, results, (key, t2), r, n, k, now, w);
        assert(count_ok(s, calls, results, k, now));
        assert(admitted_count(calls2, results2, n + 1, k, now, w) == admitted_count(calls, results, n, k, now, w)
            + if k == key && r is Ok && elapsed(now, t2) < w {
            1nat
        } else {
            0nat
        });
        if k == key {
            lemma_window_twice(q, t2, now, w);
            if r is Err {
                assert(queue_of(s2.queues, k) == p);
            } else {
                lemma_window_push(p, t2, now, w);
                if queue_of(s2.queues, k) != p.push(t2) {
                    assert(queue_of(s2.queues, k) == Seq::<u64>::empty());
                    assert(w == 0) by {
                        assert(!is_active(p.push(t2), t2, w));
                        assert(p.push(t2).last() == t2);
                    }
                    lemma_window_empty(q, now, w);
                    assert(in_window(Seq::<u64>::empty(), now, w) =~= Seq::<u64>::empty()) by {
                        reveal_with_fuel(Seq::filter, 1);
                    }
                }
            }
        } else {
            let qk = queue_of(s.queues, k);
            assert(queue_ok(s, k, t));
            assert(in_window(Seq::<u64>::empty(), now, w) =~= Seq::<u64>::empty()) by {
                reveal_with_fuel(Seq::filter, 1);
            }
            if s.queues.contains_key(k) && !is_active(qk, t2, w) {
                // the key's latest request, and so every one, has left the
                // window: whether the periodic cleanup drops it or not, none
                // of its requests counts any more
                assert forall|i: int| 0 <= i < qk.len() implies elapsed(now, #[trigger] qk[i]) >= w by {
                    assert(qk[i] <= qk[qk.len() - 1]);
                    assert(qk.last() == qk[qk.len() - 1]);
                }
                lemma_window_empty(qk, now, w);
                assert(queue_of(s2.queues, k) == qk || queue_of(s2.queues, k) == Seq::<u64>::empty());
            } else {
                assert(queue_of(s2.queues, k) == qk);
            }
        }
    }
}

pub open spec fn last_time(calls: Seq<(Seq<char>, u64)>) -> u64 {
    if calls.len() == 0 {
        0
    } else {
        calls.last().1
    }
}

proof fn lemma_run_tracks(s: LimiterView, calls: Seq<(Seq<char>, u64)>)
    requires
        s.queues == Map::<Seq<char>, Seq<u64>>::empty(),
        in_time_order(calls),
    ensures
        run_checks(s, calls).0.requests == s.requests,
        run_checks(s, calls).0.window == s.window,
        tracks(run_checks(s, calls).0, calls, run_checks(s, calls).1, last_time(calls)),
        forall|j: int|
            0 <= j < calls.len() ==> (#[trigger] run_checks(s, calls).1[j] is Ok <==> admitted_count(
                calls,
                run_checks(s, calls).1,
                j,
                calls[j].0,
                calls[j].1,
                s.window,
            ) < s.requests),
    decreases calls.len(),
{
    if calls.len() == 0 {
        assert forall|k: Seq<char>| #[trigger] queue_ok(s, k, 0) by {
            assert(queue_of(s.queues, k) == Seq::<u64>::empty());
        }
        assert forall|k: Seq<char>, now: u64| now >= 0 implies #[trigger] count_ok(s, calls, Seq::empty(), k, now) by {
            assert(queue_of(s.queues, k) == Seq::<u64>::empty());
            reveal_with_fuel(Seq::filter, 1);
            assert(in_window(Seq::<u64>::empty(), now, s.window) =~= Seq::<u64>::empty());
        }
    } else {
        let pre = calls.drop_last();
        assert(in_time_order(pre));
        lemma_run_tracks(s, pre);
        let prev = run_checks(s, pre);
        let c = calls.last();
        assert(pre.push(c) =~= calls);
        assert(last_time(pre) <= c.1) by {
            if pre.len() > 0 {
                assert(pre.last() == calls[calls.len() - 2]);
                assert(c == calls[calls.len() - 1]);
            }
        }
        lemma_step_tracks(prev.0, pre, prev.1, last_time(pre), c.0, c.1);
        let res = run_checks(s, calls).1;
        assert(res == prev.1.push(check_spec(prev.0, c.0, c.1).1));
        assert forall|j: int| 0 <= j < calls.len() implies (#[trigger] res[j] is Ok <==> admitted_count(
            calls,
            res,
            j,
            calls[j].0,
            calls[j].1,
            s.window,
        ) < s.requests) by {
            if j < pre.len() {
                assert(res[j] == prev.1[j]);
                assert(calls[j] == pre[j]);
                lemma_admitted_prefix(pre, prev.1, c, check_spec(prev.0, c.0, c.1).1, j, calls[j].0, calls[j].1, s.window);
                assert(prev.1[j] is Ok <==> admitted_count(pre, prev.1, j, pre[j].0, pre[j].1, s.window)
                    < s.requests);
            } else {
                assert(calls[j] == c);
                lemma_admitted_prefix(pre, prev.1, c, check_spec(prev.0, c.0, c.1).1, j, c.0, c.1, s.window);
            }
        }
    }
}

/// The sliding window over any run of requests made in time order on a new
/// limiter: a request is admitted exactly when fewer than `requests` earlier
/// requests for the same key were admitted within the window ending at its
/// time.  Refused requests do not count, and requests for other keys never
/// change the answer for a key.
pub proof fn law_sliding_window(s: LimiterView, calls: Seq<(Seq<char>, u64)>)
    requires
        s.queues == Map::<Seq<char>, Seq<u64>>::empty(),
        in_time_order(calls),
    ensures
        run_checks(s, calls).1.len() == calls.len(),
        forall|j: int|
            0 <= j < calls.len() ==> (#[trigger] run_checks(s, calls).1[j] is Ok <==> admitted_count(
                calls,
                run_checks(s, calls).1,
                j,
                calls[j].0,
                calls[j].1,
                s.window,
            ) < s.requests),
{
    lemma_run_tracks(s, calls);
}

/// A request never changes the configured limit or window, so
/// `requests_per_minute` reports what the limiter was made with after any
/// number of requests.
pub proof fn law_check_keeps_settings(s: LimiterView, key: Seq<char>, now: u64)
    ensures
        check_spec(s, key, now).0.requests == s.requests,
        check_spec(s, key, now).0.window == s.window,
{
}

/// A run of requests never changes the configured limit or window.
pub proof fn law_run_keeps_settings(s: LimiterView, calls: Seq<(Seq<char>, u64)>)
    ensures
        run_checks(s, calls).0.requests == s.requests,
        run_checks(s, calls).0.window == s.window,
        run_checks(s, calls).1.len() == calls.len(),
    decreases calls.len(),
{
    if calls.len() > 0 {
        law_run_keeps_settings(s, calls.drop_last());
    }
}

/// While no request for `key` is admitted, its queue only loses requests
/// from the front: it is `p` or shorter than `p`.
proof fn lemma_refused_key_queue_shrinks(s: LimiterView, key: Seq<char>, p: Seq<u64>, calls: Seq<(Seq<char>, u64)>)
    requires
        p.len() >= 1,
        queue_of(s.queues, key).len() <= p.len(),
        queue_of(s.queues, key).len() == p.len() ==> queue_of(s.queues, key) == p,
        forall|i: int|
            0 <= i < calls.len() && #[trigger] calls[i].0 == key ==> run_checks(s, calls).1[i] is Err,
    ensures
        queue_of(run_checks(s, calls).0.queues, key).len() <= p.len(),
        queue_of(run_checks(s, calls).0.queues, key).len() == p.len() ==> queue_of(
            run_checks(s, calls).0.queues,
            key,
        ) == p,
    decreases calls.len(),
{
    if calls.len() > 0 {
        let pre = calls.drop_last();
        law_run_keeps_settings(s, pre);
        law_run_keeps_settings(s, calls);
        assert forall|i: int| 0 <= i < pre.len() && #[trigger] pre[i].0 == key implies run_checks(
            s,
            pre,
        ).1[i] is Err by {
            assert(calls[i] == pre[i]);
            assert(run_checks(s, calls).1[i] == run_checks(s, pre).1[i]);
        }
        lemma_refused_key_queue_shrinks(s, key, p, pre);
        let prev = run_checks(s, pre).0;
        let c = calls.last();
        let q = queue_of(prev.queues, key);
        let q2 = queue_of(run_checks(s, calls).0.queues, key);
        if c.0 == key {
            assert(calls[calls.len() - 1].0 == key);
            assert(run_checks(s, calls).1[calls.len() - 1] == check_spec(prev, key, c.1).1);
            lemma_prune_suffix(q, c.1, prev.window);
            assert(q2 == prune(q, c.1, prev.window));
            if q2.len() == p.len() {
                assert(q2 =~= q);
            }
        } else {
            assert(q2 == q || q2 == Seq::<u64>::empty());
        }
    }
}

/// A refused request may retry: once the advised number of seconds and one
/// more have passed, the next request for that key is admitted, whatever
/// requests for other keys, and refused ones for the same key, came in
/// between (for a key whose requests arrived in time order and that holds
/// at most `requests` of them, as every admission leaves it).
pub proof fn law_retry_is_admitted(
    s: LimiterView,
    key: Seq<char>,
    t: u64,
    between: Seq<(Seq<char>, u64)>,
    t2: u64,
)
    requires
        s.requests >= 1,
        s.window <= nanos_of_secs(u64::MAX),
        sorted(queue_of(s.queues, key)),
        all_at_most(queue_of(s.queues, key), t),
        queue_of(s.queues, key).len() <= s.requests,
        check_spec(s, key, t).1 is Err,
        forall|i: int|
            0 <= i < between.len() && #[trigger] between[i].0 == key ==> run_checks(
                check_spec(s, key, t).0,
                between,
            ).1[i] is Err,
        t2 >= t + (check_spec(s, key, t).1->Err_0 + 1) * 1_000_000_000,
    ensures
        check_spec(run_checks(check_spec(s, key, t).0, between).0, key, t2).1 is Ok,
{
    let q = queue_of(s.queues, key);
    let w = s.window;
    let p = prune(q, t, w);
    lemma_prune_suffix(q, t, w);
    let off = q.len() - p.len();
    assert(p.len() == s.requests);
    assert(p[0] == q[off]);
    assert(p[0] <= t);
    let s1 = check_spec(s, key, t).0;
    assert(queue_of(s1.queues, key) == p);
    let secs = check_spec(s, key, t).1->Err_0;
    let e = elapsed(t, p[0]);
    // p[0] is still inside the window, or it would have been pruned
    lemma_prune_head(q, t, w);
    assert(e < w);
    let rem: nat = (w - e) as nat;
    assert(rem / 1_000_000_000 <= u64::MAX) by (nonlinear_arith)
        requires
            rem <= w,
            w <= u64::MAX as nat * 1_000_000_000,
    ;
    assert(rem < (rem / 1_000_000_000 + 1) * 1_000_000_000) by (nonlinear_arith);
    assert(rem / 1_000_000_000 + 1 <= secs + 1);
    assert((rem / 1_000_000_000 + 1) * 1_000_000_000 <= (secs + 1) * 1_000_000_000) by (nonlinear_arith)
        requires
            rem / 1_000_000_000 + 1 <= secs + 1,
    ;
    assert(elapsed(t2, p[0]) >= w);
    lemma_refused_key_queue_shrinks(s1, key, p, between);
    law_run_keeps_settings(s1, between);
    let s2 = run_checks(s1, between).0;
    let q2 = queue_of(s2.queues, key);
    lemma_prune_suffix(q2, t2, w);
    if q2.len() == p.len() {
        lemma_prune_suffix(p.drop_first(), t2, w);
        assert(prune(p, t2, w) == prune(p.drop_first(), t2, w));
    }
}

/// A request for one key leaves the other keys' queues alone, unless it is
/// the admission that triggers the periodic cleanup.
pub proof fn law_other_keys_untouched(s: LimiterView, key: Seq<char>, other: Seq<char>, now: u64)
    requires
        key != other,
        check_spec(s, key, now).0.count % 10000 != 0 || check_spec(s, key, now).1 is Err,
    ensures
        queue_of(check_spec(s, key, now).0.queues, other) == queue_of(s.queues, other),
{
}

// ---------------------------------------------------------------------------
// Event de-duplication
// ---------------------------------------------------------------------------

/// An event seen as new is not delivered again within the TTL.
pub proof fn law_no_redelivery_within_ttl(m: Map<Seq<char>, u64>, key: Seq<char>, t: u64, t2: u64)
    requires
        see_spec(m, key, t).1,
        elapsed(t2, t) < ttl(),
    ensures
        !see_spec(see_spec(m, key, t).0, key, t2).1,
{
    let m1 = see_spec(m, key, t).0;
    assert(m1.contains_key(key) && m1[key] == t);
}

/// The table's answers over a run of lookups made one after another from
/// table `m`: the final table and the answer to each lookup.
pub open spec fn run_sees(m: Map<Seq<char>, u64>, calls: Seq<(Seq<char>, u64)>) -> (Map<Seq<char>, u64>, Seq<bool>)
    decreases calls.len(),
{
    if calls.len() == 0 {
        (m, Seq::empty())
    } else {
        let prev = run_sees(m, calls.drop_last());
        let step = see_spec(prev.0, calls.last().0, calls.last().1);
        (step.0, prev.1.push(step.1))
    }
}

proof fn lemma_run_sees_len(m: Map<Seq<char>, u64>, calls: Seq<(Seq<char>, u64)>)
    ensures
        run_sees(m, calls).1.len() == calls.len(),
    decreases calls.len(),
{
    if calls.len() > 0 {
        lemma_run_sees_len(m, calls.drop_last());
    }
}

proof fn lemma_run_sees_at(m: Map<Seq<char>, u64>, calls: Seq<(Seq<char>, u64)>, j: int)
    requires
        0 <= j < calls.len(),
    ensures
        run_sees(m, calls).1.len() == calls.len(),
        run_sees(m, calls).1[j] == see_spec(run_sees(m, calls.take(j)).0, calls[j].0, calls[j].1).1,
        run_sees(m, calls.take(j + 1)).0 == see_spec(run_sees(m, calls.take(j)).0, calls[j].0, calls[j].1).0,
    decreases calls.len(),
{
    let pre = calls.drop_last();
    lemma_run_sees_len(m, calls);
    lemma_run_sees_len(m, pre);
    assert(calls.take(j + 1).drop_last() =~= calls.take(j));
    assert(calls.take(j + 1).last() == calls[j]);
    if j == calls.len() - 1 {
        assert(pre =~= calls.take(j));
        if j > 0 {
            lemma_run_sees_at(m, pre, j - 1);
        }
    } else {
        lemma_run_sees_at(m, pre, j);
        assert(pre.take(j) =~= calls.take(j));
        assert(pre[j] == calls[j]);
    }
}

proof fn lemma_seen_key_kept(m: Map<Seq<char>, u64>, calls: Seq<(Seq<char>, u64)>, i: int, n: int, j: int)
    requires
        in_time_order(calls),
        0 <= i < n <= j < calls.len(),
        run_sees(m, calls).1[i],
        elapsed(calls[j].1, calls[i].1) < ttl(),
    ensures
        run_sees(m, calls.take(n)).0.contains_key(calls[i].0),
        run_sees(m, calls.take(n)).0[calls[i].0] == calls[i].1,
    decreases n,
{
    let k = calls[i].0;
    lemma_run_sees_at(m, calls, n - 1);
    let before = run_sees(m, calls.take(n - 1)).0;
    let c = calls[n - 1];
    if n - 1 == i {
        lemma_run_sees_at(m, calls, i);
    } else {
        lemma_seen_key_kept(m, calls, i, n - 1, j);
        assert(calls[i].1 <= c.1 && c.1 <= calls[j].1);
        assert(is_fresh(before[k], c.1));
        if before.dom().len() > crate::dedup::prune_above() {
            assert(prune_stale(before, c.1).contains_key(k));
        }
    }
}

/// Over any run of lookups made in time order, an event reported as new is
/// reported as already seen at every later lookup of the same key within
/// the TTL, whatever other lookups, and pruning, happen in between.
pub proof fn law_no_redelivery_over_run(m: Map<Seq<char>, u64>, calls: Seq<(Seq<char>, u64)>, i: int, j: int)
    requires
        in_time_order(calls),
        0 <= i < j < calls.len(),
        calls[j].0 == calls[i].0,
        run_sees(m, calls).1[i],
        elapsed(calls[j].1, calls[i].1) < ttl(),
    ensures
        !run_sees(m, calls).1[j],
{
    lemma_seen_key_kept(m, calls, i, j, j);
    lemma_run_sees_at(m, calls, j);
    let before = run_sees(m, calls.take(j)).0;
    let k = calls[i].0;
    assert(calls[i].1 <= calls[j].1);
    assert(is_fresh(before[k], calls[j].1));
    if before.dom().len() > crate::dedup::prune_above() {
        assert(prune_stale(before, calls[j].1).contains_key(k));
    }
}

proof fn lemma_decimal_shape(n: nat)
    ensures
        decimal_text(n).len() >= 1,
        n >= 10 ==> decimal_text(n).len() >= 2,
        forall|i: int| 0 <= i < decimal_text(n).len() ==> #[trigger] decimal_text(n)[i] != ':',
    decreases n,
{
    if n >= 10 {
        lemma_decimal_shape(n / 10);
        let d = decimal_text(n / 10);
        assert forall|i: int| 0 <= i < decimal_text(n).len() implies #[trigger] decimal_text(n)[i] != ':' by {
            if i < d.len() {
                assert(decimal_text(n)[i] == d[i]);
            } else {
                assert(decimal_text(n)[i] == (('0' as u32) + (n % 10)) as char);
            }
        }
    }
}

proof fn lemma_decimal_injective(n: nat, m: nat)
    requires
        decimal_text(n) == decimal_text(m),
    ensures
        n == m,
    decreases n,
{
    lemma_decimal_shape(n);
    lemma_decimal_shape(m);
    let t = decimal_text(n);
    if n >= 10 && m >= 10 {
        let a = decimal_text(n / 10);
        let b = decimal_text(m / 10);
        assert(t[t.len() - 1] == (('0' as u32) + (n % 10)) as char);
        assert(t[t.len() - 1] == (('0' as u32) + (m % 10)) as char);
        assert(n % 10 == m % 10);
        assert(a =~= t.take(t.len() - 1));
        assert(b =~= t.take(t.len() - 1));
        lemma_decimal_injective(n / 10, m / 10);
    } else if n < 10 && m < 10 {
        assert(t[0] == (('0' as u32) + n) as char);
        assert(t[0] == (('0' as u32) + m) as char);
    }
}

/// Two bus events get the same dedup key only when they have the same
/// topic and the same payload.
pub proof fn law_event_key_injective(t1: Seq<char>, p1: Seq<u8>, t2: Seq<char>, p2: Seq<u8>)
    requires
        event_key_spec(t1, p1) == event_key_spec(t2, p2),
    ensures
        t1 == t2,
        p1 == p2,
{
    let k = event_key_spec(t1, p1);
    let d1 = decimal_text(t1.len());
    let d2 = decimal_text(t2.len());
    lemma_decimal_shape(t1.len());
    lemma_decimal_shape(t2.len());
    assert(k[d1.len() as int] == ':');
    assert(event_key_spec(t2, p2)[d2.len() as int] == ':');
    if d1.len() < d2.len() {
        assert(k[d1.len() as int] == d2[d1.len() as int]);
    }
    if d2.len() < d1.len() {
        assert(k[d2.len() as int] == d1[d2.len() as int]);
    }
    assert(d1 =~= k.take(d1.len() as int));
    assert(d2 =~= k.take(d2.len() as int));
    lemma_decimal_injective(t1.len(), t2.len());
    let a: int = d1.len() as int + 1;
    assert(t1 =~= k.subrange(a, a + t1.len() as int));
    assert(t2 =~= k.subrange(a, a + t2.len() as int));
    assert(byte_chars(p1) =~= k.skip(a + t1.len() as int));
    assert(byte_chars(p2) =~= k.skip(a + t2.len() as int));
    assert(p1.len() == p2.len());
    assert forall|i: int| 0 <= i < p1.len() implies p1[i] == p2[i] by {
        assert(byte_chars(p1)[i] == byte_chars(p2)[i]);
        assert((p1[i] as char) as u32 == p1[i]);
        assert((p2[i] as char) as u32 == p2[i]);
    }
    assert(p1 =~= p2);
}

proof fn lemma_run_sees_keys(m: Map<Seq<char>, u64>, calls: Seq<(Seq<char>, u64)>, n: int, k: Seq<char>)
    requires
        0 <= n <= calls.len(),
        !m.contains_key(k),
        forall|i: int| 0 <= i < n ==> (#[trigger] calls[i]).0 != k,
    ensures
        !run_sees(m, calls.take(n)).0.contains_key(k),
    decreases n,
{
    if n == 0 {
        assert(calls.take(0) =~= Seq::<(Seq<char>, u64)>::empty());
    } else {
        lemma_run_sees_keys(m, calls, n - 1, k);
        lemma_run_sees_at(m, calls, n - 1);
        assert(calls[n - 1].0 != k);
    }
}

/// Only the echo of an event is suppressed: over any run of lookups, an
/// event whose topic or payload differs from every event looked up before
/// it (and that the table did not hold at the start) is reported as new,
/// whenever it comes.
pub proof fn law_distinct_event_delivered(
    m: Map<Seq<char>, u64>,
    events: Seq<(Seq<char>, Seq<u8>)>,
    calls: Seq<(Seq<char>, u64)>,
    j: int,
)
    requires
        calls.len() == events.len(),
        forall|i: int| 0 <= i < calls.len() ==> (#[trigger] calls[i]).0 == event_key_spec(events[i].0, events[i].1),
        0 <= j < calls.len(),
        !m.contains_key(calls[j].0),
        forall|i: int| 0 <= i < j ==> #[trigger] events[i] != events[j],
    ensures
        run_sees(m, calls).1[j],
{
    assert forall|i: int| 0 <= i < j implies (#[trigger] calls[i]).0 != calls[j].0 by {
        if calls[i].0 == calls[j].0 {
            law_event_key_injective(events[i].0, events[i].1, events[j].0, events[j].1);
            assert(events[i] == events[j]);
        }
    }
    lemma_run_sees_keys(m, calls, j, calls[j].0);
    lemma_run_sees_at(m, calls, j);
    let before = run_sees(m, calls.take(j)).0;
    if before.dom().len() > crate::dedup::prune_above() {
        assert(!prune_stale(before, calls[j].1).contains_key(calls[j].0));
    }
}

/// The answer does not depend on the occasional pruning: a key is new
/// exactly when it was not seen within the TTL.
pub proof fn law_pruning_keeps_answers(m: Map<Seq<char>, u64>, key: Seq<char>, now: u64)
    ensures
        see_spec(m, key, now).1 == !(m.contains_key(key) && is_fresh(m[key], now)),
{
    let p = prune_stale(m, now);
    if m.contains_key(key) && is_fresh(m[key], now) {
        assert(p.contains_key(key));
    }
}

/// A key seen as already known keeps its original time.
pub proof fn law_known_key_keeps_time(m: Map<Seq<char>, u64>, key: Seq<char>, now: u64)
    requires
        !see_spec(m, key, now).1,
    ensures
        see_spec(m, key, now).0.contains_key(key),
        see_spec(m, key, now).0[key] == m[key],
{
}

// ---------------------------------------------------------------------------
// Hub
// ---------------------------------------------------------------------------

/// When a user's last connection closes the user is offline and in no room,
/// so no room event reaches them.
pub proof fn law_last_disconnect_leaves_rooms(h: HubView, u: u128, c: u128, r: u128)
    requires
        h.conns.contains((u, c)),
        !has_conn(h.conns.remove((u, c)), u),
    ensures
        !has_conn(disconnect_spec(h, u, c).conns, u),
        !disconnect_spec(h, u, c).members.contains((r, u)),
        forall|c2: u128| !room_targets(disconnect_spec(h, u, c), r).contains((u, c2)),
{
}

/// Closing a connection of a user who keeps another one changes no room.
pub proof fn law_other_connection_keeps_rooms(h: HubView, u: u128, c: u128, c2: u128)
    requires
        c != c2,
        h.conns.contains((u, c2)),
    ensures
        disconnect_spec(h, u, c).members == h.members,
        has_conn(disconnect_spec(h, u, c).conns, u),
{
    assert(h.conns.remove((u, c)).contains((u, c2)));
}

/// Opening and then closing a new connection leaves the connections as they
/// were.
pub proof fn law_connect_then_disconnect(h: HubView, u: u128, c: u128)
    requires
        !h.conns.contains((u, c)),
    ensures
        disconnect_spec(connect_spec(h, u, c), u, c).conns == h.conns,
        has_conn(h.conns, u) ==> disconnect_spec(connect_spec(h, u, c), u, c).members == h.members,
{
    assert(h.conns.insert((u, c)).remove((u, c)) =~= h.conns);
    if has_conn(h.conns, u) {
        let c2 = choose|c2: u128| h.conns.contains((u, c2));
        assert(h.conns.insert((u, c)).remove((u, c)).contains((u, c2)));
    }
}

/// Joining and then leaving a room leaves the user out of it.
pub proof fn law_join_then_leave(h: HubView, u: u128, r: u128)
    ensures
        leave_spec(join_spec(h, u, r), u, r).members == h.members.remove((r, u)),
        !leave_spec(join_spec(h, u, r), u, r).members.contains((r, u)),
{
    assert(h.members.insert((r, u)).remove((r, u)) =~= h.members.remove((r, u)));
}

/// Closing a connection: when it was the user's last one, the user goes
/// offline and the number of online users drops by one; otherwise the online
/// users stay as they were.  Either way the other users' connections and
/// room memberships are untouched.  (Every hub meets the `requires`: see
/// `Hub::lemma_online_finite`.)
pub proof fn law_disconnect_online_count(h: HubView, u: u128, c: u128)
    requires
        online_users(h.conns).finite(),
        h.conns.contains((u, c)),
    ensures
        !has_conn(h.conns.remove((u, c)), u) ==> {
            &&& online_users(disconnect_spec(h, u, c).conns) == online_users(h.conns).remove(u)
            &&& online_users(disconnect_spec(h, u, c).conns).len() + 1 == online_users(h.conns).len()
        },
        has_conn(h.conns.remove((u, c)), u) ==> {
            &&& online_users(disconnect_spec(h, u, c).conns) == online_users(h.conns)
            &&& disconnect_spec(h, u, c).members == h.members
        },
        forall|v: u128, c2: u128|
            v != u ==> (#[trigger] disconnect_spec(h, u, c).conns.contains((v, c2)) <==> h.conns.contains((v, c2))),
        forall|r: u128, v: u128|
            v != u ==> (#[trigger] disconnect_spec(h, u, c).members.contains((r, v)) <==> h.members.contains((r, v))),
{
    let after = disconnect_spec(h, u, c).conns;
    assert(after == h.conns.remove((u, c)));
    assert(has_conn(h.conns, u));
    assert forall|v: u128| v != u implies (#[trigger] has_conn(after, v) <==> has_conn(h.conns, v)) by {
        if has_conn(h.conns, v) {
            let c2 = choose|c2: u128| h.conns.contains((v, c2));
            assert(after.contains((v, c2)));
        }
    }
    if !has_conn(after, u) {
        assert(online_users(after) =~= online_users(h.conns).remove(u));
    } else {
        assert(online_users(after) =~= online_users(h.conns));
    }
}

/// A member of a room receives a room event on each of their connections.
pub proof fn law_members_receive(h: HubView, u: u128, c: u128, r: u128)
    requires
        h.members.contains((r, u)),
        h.conns.contains((u, c)),
    ensures
        room_targets(h, r).contains((u, c)),
{
}


proof fn lemma_leave_all(h: HubView, u: u128, rooms: Seq<u128>)
    ensures
        forall|r: u128| rooms.contains(r) ==> !(#[trigger] leave_all(h, u, rooms).members.contains((r, u))),
        forall|r: u128, v: u128|
            v != u ==> (#[trigger] leave_all(h, u, rooms).members.contains((r, v)) == h.members.contains((r, v))),
        leave_all(h, u, rooms).conns == h.conns,
    decreases rooms.len(),
{
    if rooms.len() > 0 {
        let rest = rooms.drop_last();
        lemma_leave_all(h, u, rest);
        assert forall|r: u128| rooms.contains(r) implies !(#[trigger] leave_all(h, u, rooms).members.contains((r, u))) by {
            if r != rooms.last() {
                let k = choose|k: int| 0 <= k < rooms.len() && rooms[k] == r;
                assert(rest[k] == r);
            }
        }
    }
}

/// When a realtime session closes, its user is left in none of the rooms the
/// session joined, the other users keep their rooms, and the session's
/// connection is gone.
pub proof fn law_closed_session_leaves_joined_rooms(h: HubView, u: u128, c: u128, joined: Seq<u128>)
    ensures
        forall|r: u128|
            joined.contains(r) ==> !(#[trigger] leave_all(disconnect_spec(h, u, c), u, joined).members.contains(
                (r, u),
            )),
        forall|r: u128, v: u128|
            v != u ==> (#[trigger] leave_all(disconnect_spec(h, u, c), u, joined).members.contains((r, v))
                == h.members.contains((r, v))),
        !leave_all(disconnect_spec(h, u, c), u, joined).conns.contains((u, c)),
{
    lemma_leave_all(disconnect_spec(h, u, c), u, joined);
}


// ---------------------------------------------------------------------------
// Uploads and suggestions
// ---------------------------------------------------------------------------

/// A sanitized file name is never empty, holds at most 160 characters, and
/// contains no control character, path separator, quote or colon.
pub proof fn law_sanitized_name_is_safe(name: Seq<char>)
    ensures
        0 < sanitize_spec(name).len() <= 160,
        forall|i: int| 0 <= i < sanitize_spec(name).len() ==> !is_unsafe_name_char(#[trigger] sanitize_spec(name)[i]),
{
    let r = sanitize_spec(name);
    assert forall|i: int| 0 <= i < r.len() implies !is_unsafe_name_char(#[trigger] r[i]) by {
        if r == seq!['f', 'i', 'l', 'e'] {
            assert(r[i] == 'f' || r[i] == 'i' || r[i] == 'l' || r[i] == 'e');
        }
    }
    if r != seq!['f', 'i', 'l', 'e'] {
        if r.len() == 0 {
            assert(crate::text::trim(r).len() == 0);
        }
    }
}

/// The interests two people share never outnumber the interests of either,
/// so the interest part of a suggestion score is at most 1.
pub proof fn law_shared_interests_within_union(mine: Seq<String>, theirs: Seq<String>)
    ensures
        lowered_set(mine).intersect(lowered_set(theirs)).len() <= lowered_set(mine).union(
            lowered_set(theirs),
        ).len(),
        lowered_set(mine).union(lowered_set(theirs)).len() == 0 ==> lowered_set(mine).intersect(
            lowered_set(theirs),
        ).len() == 0,
{
    let a = lowered_set(mine);
    let b = lowered_set(theirs);
    vstd::seq_lib::seq_to_set_is_finite(crate::suggest::lowered(mine));
    vstd::seq_lib::seq_to_set_is_finite(crate::suggest::lowered(theirs));
    assert(a.intersect(b).subset_of(a.union(b)));
    vstd::set_lib::lemma_set_union_finite_iff(a, b);
    vstd::set_lib::lemma_len_subset(a.intersect(b), a.union(b));
}


// ---------------------------------------------------------------------------
// Search patterns
// ---------------------------------------------------------------------------

/// The literal text a `LIKE ... ESCAPE '\'` pattern matches when it has no
/// wildcard: `\c` stands for `c`; an unescaped `%` or `_`, or a trailing
/// `\`, makes it no literal.
pub open spec fn like_literal(p: Seq<char>) -> Option<Seq<char>>
    decreases p.len(),
{
    if p.len() == 0 {
        Some(Seq::empty())
    } else if p[0] == '\\' {
        if p.len() < 2 {
            None
        } else {
            match like_literal(p.skip(2)) {
                Some(r) => Some(seq![p[1]] + r),
                None => None,
            }
        }
    } else if p[0] == '%' || p[0] == '_' {
        None
    } else {
        match like_literal(p.skip(1)) {
            Some(r) => Some(seq![p[0]] + r),
            None => None,
        }
    }
}

proof fn lemma_like_literal_concat(a: Seq<char>, b: Seq<char>)
    requires
        like_literal(a) is Some,
    ensures
        like_literal(a + b) == match like_literal(b) {
            Some(y) => Some(like_literal(a)->0 + y),
            None => None::<Seq<char>>,
        },
    decreases a.len(),
{
    if a.len() == 0 {
        assert(a + b =~= b);
        assert(like_literal(a)->0 + like_literal(b)->0 =~= like_literal(b)->0) by {
            if like_literal(b) is Some {
            }
        }
        if like_literal(b) is Some {
            assert(Seq::<char>::empty() + like_literal(b)->0 =~= like_literal(b)->0);
        }
    } else if a[0] == '\\' {
        lemma_like_literal_concat(a.skip(2), b);
        assert((a + b).skip(2) =~= a.skip(2) + b);
        assert((a + b)[0] == a[0] && (a + b)[1] == a[1]);
        if like_literal(b) is Some {
            assert(seq![a[1]] + (like_literal(a.skip(2))->0 + like_literal(b)->0) =~= (seq![a[1]]
                + like_literal(a.skip(2))->0) + like_literal(b)->0);
        }
    } else {
        lemma_like_literal_concat(a.skip(1), b);
        assert((a + b).skip(1) =~= a.skip(1) + b);
        assert((a + b)[0] == a[0]);
        if like_literal(b) is Some {
            assert(seq![a[0]] + (like_literal(a.skip(1))->0 + like_literal(b)->0) =~= (seq![a[0]]
                + like_literal(a.skip(1))->0) + like_literal(b)->0);
        }
    }
}

/// An escaped query holds no wildcard: as a `LIKE` pattern with escape
/// character `\` it matches exactly the query's own text.
pub proof fn law_escaped_query_is_literal(q: Seq<char>)
    ensures
        like_literal(escape_like_spec(q)) == Some(q),
    decreases q.len(),
{
    if q.len() > 0 {
        let c = q.last();
        let rest = q.drop_last();
        law_escaped_query_is_literal(rest);
        let tail = if c == '\\' {
            seq!['\\', '\\']
        } else if c == '%' {
            seq!['\\', '%']
        } else if c == '_' {
            seq!['\\', '_']
        } else {
            seq![c]
        };
        assert(escape_like_spec(q) == escape_like_spec(rest) + tail);
        assert(like_literal(tail) == Some(seq![c])) by {
            assert(tail.skip(tail.len() as int) =~= Seq::<char>::empty());
            if c == '\\' || c == '%' || c == '_' {
                assert(like_literal(tail.skip(2)) == Some(Seq::<char>::empty()));
                assert(seq![tail[1]] + Seq::<char>::empty() =~= seq![c]);
            } else {
                assert(like_literal(tail.skip(1)) == Some(Seq::<char>::empty()));
                assert(seq![tail[0]] + Seq::<char>::empty() =~= seq![c]);
            }
        }
        lemma_like_literal_concat(escape_like_spec(rest), tail);
        assert(rest + seq![c] =~= q);
    } else {
        assert(escape_like_spec(q) =~= Seq::<char>::empty());
    }
}

// ---------------------------------------------------------------------------
// Interests
// ---------------------------------------------------------------------------

/// Accepted interests are clean: at most 20, each 1 to 32 characters with
/// no control character, and no interest twice.
pub open spec fn clean_interests(v: Seq<Seq<char>>) -> bool {
    &&& v.no_duplicates()
    &&& forall|i: int| 0 <= i < v.len() ==> 1 <= (#[trigger] v[i]).len() <= 32 && !has_control_char(v[i])
}

proof fn lemma_fold_clean(ts: Seq<Seq<char>>)
    ensures
        interests_fold(ts) matches Ok(v) ==> clean_interests(v) && v.len() <= ts.len(),
    decreases ts.len(),
{
    if ts.len() > 0 {
        lemma_fold_clean(ts.drop_last());
        let t = ts.last();
        match interests_fold(ts.drop_last()) {
            Ok(kept) => {
                if !(t.len() == 0 || t.len() > 32) && !has_control_char(t) && !kept.contains(t) {
                    let v = kept.push(t);
                    assert forall|i: int, j: int| 0 <= i < j < v.len() implies v[i] != v[j] by {
                        if j == kept.len() {
                            assert(kept.contains(kept[i]));
                        }
                    }
                    assert forall|i: int| 0 <= i < v.len() implies 1 <= (#[trigger] v[i]).len() <= 32
                        && !has_control_char(v[i]) by {
                        if i < kept.len() {
                            assert(v[i] == kept[i]);
                        }
                    }
                }
            },
            Err(_) => {},
        }
    }
}

/// Whatever a user submits, the interests that are stored are clean (see
/// `clean_interests`) and at most 20.
pub proof fn law_accepted_interests_are_clean(ts: Seq<Seq<char>>)
    ensures
        interests_outcome(ts) matches Ok(v) ==> clean_interests(v) && v.len() <= 20,
{
    lemma_fold_clean(ts);
}


// ---------------------------------------------------------------------------
// The upload pipeline
// ---------------------------------------------------------------------------

/// How many steps at most remain before the pipeline is done.
pub open spec fn steps_left(s: UploadState) -> nat {
    match s {
        UploadState::Begin => 5,
        UploadState::ImageMain => 4,
        UploadState::ImageFallback => 3,
        UploadState::ImageThumb { .. } => 2,
        UploadState::ImageProbe { .. } => 1,
        UploadState::VideoMain => 3,
        UploadState::VideoThumb => 2,
        UploadState::VideoProbe { .. } => 1,
        UploadState::AudioMain => 2,
        UploadState::AudioProbe => 1,
        UploadState::FileCopy => 1,
        UploadState::Done => 0,
    }
}

/// Every step of the upload pipeline brings it closer to its end, so it is
/// done after at most five steps whatever the outcomes of the tools; the
/// step that ends it reports the stored file or the failure, every other
/// step asks for one tool run, probe or copy; once done it does nothing.
pub proof fn law_upload_pipeline_ends(
    kind: MediaKind,
    input: Seq<char>,
    stem: Seq<char>,
    ext: Seq<char>,
    mime: Seq<char>,
    s: UploadState,
    ok: bool,
)
    ensures
        ({
            let (next, action) = upload_step_spec(kind, input, stem, ext, mime, s, ok);
            &&& steps_left(s) <= 5
            &&& s != UploadState::Done ==> steps_left(next) < steps_left(s)
            &&& (s != UploadState::Done && next == UploadState::Done) ==> (action is Finish || action is Fail)
            &&& next != UploadState::Done ==> (action is Ffmpeg || action is Probe || action is Copy)
            &&& s == UploadState::Done ==> (next == UploadState::Done && action is Idle)
        }),
{
}

// ---------------------------------------------------------------------------
// What single operations are for
// ---------------------------------------------------------------------------

/// A file that is not image, video or audio is copied to `<stem>.<ext>` and
/// then recorded there with the content type it was uploaded with, or
/// `application/octet-stream` when it came with none; it is never probed
/// and has no thumbnail, whatever the copy reported.
pub proof fn law_file_upload_keeps_content_type(
    input: Seq<char>,
    stem: Seq<char>,
    ext: Seq<char>,
    mime: Seq<char>,
    first: bool,
    copied: bool,
)
    ensures
        upload_step_spec(MediaKind::File, input, stem, ext, mime, UploadState::Begin, first) == (
            UploadState::FileCopy,
            ActionView::Copy(stem + seq!['.'] + ext),
        ),
        upload_step_spec(MediaKind::File, input, stem, ext, mime, UploadState::FileCopy, copied).0
            == UploadState::Done,
        upload_step_spec(MediaKind::File, input, stem, ext, mime, UploadState::FileCopy, copied).1 matches ActionView::Finish {
            stored,
            mime: recorded,
            thumb,
            probed,
        } && stored == stem + seq!['.'] + ext && thumb is None && !probed && (mime.len() > 0 ==> recorded
            == mime) && (mime.len() == 0 ==> recorded == "application/octet-stream"@),
{
    reveal_strlit("application/octet-stream");
}

/// ASCII letters and digits.
pub open spec fn plain_alnum(c: char) -> bool {
    ('a' <= c && c <= 'z') || ('A' <= c && c <= 'Z') || ('0' <= c && c <= '9')
}

/// An address whose local part is made of ASCII letters, digits and the
/// characters of ".!#$%&'*+-/=?^_`{|}~", followed by `@` and a domain of at
/// least 3 bytes made of letters, digits, `.` and `-` that holds a `.`, is
/// accepted unchanged (if it is at most 254 bytes long).
pub proof fn law_email_local_part_characters(local: Seq<char>, domain: Seq<char>)
    requires
        local.len() > 0,
        forall|i: int|
            0 <= i < local.len() ==> plain_alnum(#[trigger] local[i]) || ".!#$%&'*+-/=?^_`{|}~"@.contains(
                local[i],
            ),
        utf8_len(domain) >= 3,
        domain.contains('.'),
        forall|i: int|
            0 <= i < domain.len() ==> plain_alnum(#[trigger] domain[i]) || domain[i] == '.' || domain[i] == '-',
        utf8_len(local + seq!['@'] + domain) <= 254,
    ensures
        email_outcome(local + seq!['@'] + domain) == Ok::<Seq<char>, crate::error::ErrorView>(
            local + seq!['@'] + domain,
        ),
{
    reveal_strlit(".!#$%&'*+-/=?^_`{|}~");
    let lit = ".!#$%&'*+-/=?^_`{|}~"@;
    let e = local + seq!['@'] + domain;
    assert forall|i: int| 0 <= i < local.len() implies crate::validate::is_local_char(#[trigger] local[i]) by {
        let c = local[i];
        if !plain_alnum(c) {
            let k = choose|k: int| 0 <= k < lit.len() && lit[k] == c;
            assert(0 <= k < 20);
            assert(k == 0 || k == 1 || k == 2 || k == 3 || k == 4 || k == 5 || k == 6 || k == 7 || k == 8
                || k == 9 || k == 10 || k == 11 || k == 12 || k == 13 || k == 14 || k == 15 || k == 16 || k
                == 17 || k == 18 || k == 19);
        }
    }
    assert forall|j: int| 0 <= j < local.len() implies e[j] != '@' by {
        assert(e[j] == local[j]);
        if !plain_alnum(local[j]) {
            let k = choose|k: int| 0 <= k < lit.len() && lit[k] == local[j];
            assert(0 <= k < 20);
        }
    }
    assert(e[local.len() as int] == '@');
    crate::validate::lemma_first_index_at(e, '@', local.len() as int);
    assert(e.subrange(0, local.len() as int) =~= local);
    assert(e.subrange(local.len() as int + 1, e.len() as int) =~= domain);
    assert forall|i: int| 0 <= i < domain.len() implies crate::validate::is_domain_char(#[trigger] domain[i]) by {}
}

/// The rate-limit window is the value of `RATE_LIMIT_WINDOW_SECONDS` when
/// it is set, and 60 seconds when it is unset or blank.
pub proof fn law_rate_limit_window_setting(e: Seq<(Seq<char>, Seq<char>)>)
    requires
        config_outcome(e) is Ok,
    ensures
        env_opt(e, "RATE_LIMIT_WINDOW_SECONDS"@) matches Some(raw) ==> parse_u64_spec(raw) == Some(
            config_outcome(e)->Ok_0.rate_limit_window_secs,
        ),
        env_opt(e, "RATE_LIMIT_WINDOW_SECONDS"@) is None ==> config_outcome(e)->Ok_0.rate_limit_window_secs
            == 60,
{
}

/// The "shared interests" reason lists the first shared interests, at most
/// three of them, separated by an Arabic comma; with none there is no reason.
pub proof fn law_interest_reason_lists_first_three(common: Seq<Seq<char>>)
    ensures
        common.len() == 0 ==> interest_reason_spec(common) is None,
        common.len() == 1 ==> interest_reason_spec(common) == Some("اهتمامات مشتركة: "@ + common[0]),
        common.len() == 2 ==> interest_reason_spec(common) == Some(
            "اهتمامات مشتركة: "@ + common[0] + "، "@ + common[1],
        ),
        common.len() >= 3 ==> interest_reason_spec(common) == Some(
            "اهتمامات مشتركة: "@ + common[0] + "، "@ + common[1] + "، "@ + common[2],
        ),
{
    reveal_with_fuel(crate::suggest::join_with, 3);
    let sep = "، "@;
    if common.len() == 1 {
        assert(common.take(1) =~= seq![common[0]]);
    } else if common.len() == 2 {
        let t = common.take(2);
        assert(t.drop_last() =~= seq![common[0]]);
        assert(t.last() == common[1]);
    } else if common.len() >= 3 {
        let t = common.take(3);
        assert(t.drop_last() =~= seq![common[0], common[1]]);
        assert(t.drop_last().drop_last() =~= seq![common[0]]);
        assert(seq![common[0], common[1]].last() == common[1]);
        assert(t.last() == common[2]);
    }
}

/// A numeric setting: the value of variable `k` when it is set (not blank),
/// `default` when it is not.
pub open spec fn number_setting(e: Seq<(Seq<char>, Seq<char>)>, k: Seq<char>, field: int, default: int) -> bool {
    match env_opt(e, k) {
        Some(raw) => parse_u64_spec(raw) matches Some(v) && v == field,
        None => field == default,
    }
}

/// A text setting: the value of variable `k` when it is set (not blank),
/// `default` when it is not.
pub open spec fn text_setting(e: Seq<(Seq<char>, Seq<char>)>, k: Seq<char>, field: Seq<char>, default: Seq<char>) -> bool {
    match env_opt(e, k) {
        Some(v) => field == v,
        None => field == default,
    }
}

/// A switch: on exactly when variable `k` is `true`, or when it is unset and
/// the default is on.
pub open spec fn flag_setting(e: Seq<(Seq<char>, Seq<char>)>, k: Seq<char>, field: bool, default: bool) -> bool {
    match env_opt(e, k) {
        Some(v) => field == (v == "true"@),
        None => field == default,
    }
}

/// Every setting of a loaded configuration comes from its own environment
/// variable, with its documented default when the variable is unset or
/// blank; the upload limit is given in megabytes.
#[verifier::rlimit(50)]
pub proof fn law_config_settings(e: Seq<(Seq<char>, Seq<char>)>)
    requires
        config_outcome(e) is Ok,
    ensures
        ({
            let c = config_outcome(e)->Ok_0;
            &&& text_setting(e, "APP_HOST"@, c.host, "0.0.0.0"@)
            &&& number_setting(e, "APP_PORT"@, c.port as int, 8080)
            &&& env_get(e, "DATABASE_URL"@) == Some(c.database_url)
            &&& env_opt(e, "JWT_SECRET"@) == Some(c.jwt_secret)
            &&& number_setting(e, "JWT_ACCESS_TTL_SECONDS"@, c.jwt_access_ttl_secs as int, 900)
            &&& number_setting(e, "JWT_REFRESH_TTL_SECONDS"@, c.jwt_refresh_ttl_secs as int, 2592000)
            &&& number_setting(e, "DB_MAX_CONNECTIONS"@, c.db_max_connections as int, 10)
            &&& number_setting(e, "RATE_LIMIT_REQUESTS"@, c.rate_limit_requests as int, 120)
            &&& number_setting(e, "RATE_LIMIT_WINDOW_SECONDS"@, c.rate_limit_window_secs as int, 60)
            &&& flag_setting(e, "MQTT_ENABLED"@, c.mqtt_enabled, true)
            &&& text_setting(e, "MQTT_URL"@, c.mqtt_url, "tcp://localhost:1883"@)
            &&& c.mqtt_username == env_opt(e, "MQTT_USERNAME"@)
            &&& c.mqtt_password == env_opt(e, "MQTT_PASSWORD"@)
            &&& text_setting(e, "FFMPEG_PATH"@, c.ffmpeg_path, "/usr/bin/ffmpeg"@)
            &&& text_setting(e, "FFPROBE_PATH"@, c.ffprobe_path, "/usr/bin/ffprobe"@)
            &&& text_setting(e, "UPLOAD_DIR"@, c.upload_dir, "./uploads"@)
            &&& text_setting(e, "STATIC_DIR"@, c.static_dir, "./static"@)
            &&& (exists|mb: int|
                #![trigger number_setting(e, "MAX_UPLOAD_MB"@, mb, 50)]
                number_setting(e, "MAX_UPLOAD_MB"@, mb, 50) && c.max_upload_bytes == mb * 1048576)
            &&& flag_setting(e, "TRUST_PROXY"@, c.trust_proxy, false)
            &&& text_setting(e, "LOG_LEVEL"@, c.log_level, "info"@)
            &&& flag_setting(e, "AUTO_MIGRATE"@, c.auto_migrate, true)
            &&& number_setting(e, "MAX_MESSAGE_LENGTH"@, c.max_message_len as int, 4000)
            &&& number_setting(e, "MAX_ATTACHMENTS_PER_MESSAGE"@, c.max_attachment_per_message as int, 1)
            &&& number_setting(e, "MEDIA_TIMEOUT_SECONDS"@, c.media_timeout_secs as int, 120)
        }),
{
    reveal_strlit("true");
    reveal_strlit("false");
    assert("false"@.len() != "true"@.len());
    let c = config_outcome(e)->Ok_0;
    assert(text_setting(e, "APP_HOST"@, c.host, "0.0.0.0"@));
    assert(number_setting(e, "APP_PORT"@, c.port as int, 8080));
    assert(env_get(e, "DATABASE_URL"@) == Some(c.database_url));
    assert(env_opt(e, "JWT_SECRET"@) == Some(c.jwt_secret));
    assert(number_setting(e, "JWT_ACCESS_TTL_SECONDS"@, c.jwt_access_ttl_secs as int, 900));
    assert(number_setting(e, "JWT_REFRESH_TTL_SECONDS"@, c.jwt_refresh_ttl_secs as int, 2592000));
    assert(number_setting(e, "DB_MAX_CONNECTIONS"@, c.db_max_connections as int, 10));
    assert(number_setting(e, "RATE_LIMIT_REQUESTS"@, c.rate_limit_requests as int, 120));
    assert(number_setting(e, "RATE_LIMIT_WINDOW_SECONDS"@, c.rate_limit_window_secs as int, 60));
    assert(flag_setting(e, "MQTT_ENABLED"@, c.mqtt_enabled, true));
    assert(flag_setting(e, "TRUST_PROXY"@, c.trust_proxy, false));
    assert(flag_setting(e, "AUTO_MIGRATE"@, c.auto_migrate, true));
    assert(number_setting(e, "MAX_MESSAGE_LENGTH"@, c.max_message_len as int, 4000));
    assert(number_setting(e, "MAX_ATTACHMENTS_PER_MESSAGE"@, c.max_attachment_per_message as int, 1));
    assert(number_setting(e, "MEDIA_TIMEOUT_SECONDS"@, c.media_timeout_secs as int, 120));
    let mb = crate::config::env_bounded(e, "MAX_UPLOAD_MB"@, 1, 50, crate::config::max_upload_mb())->Ok_0;
    assert(mb * 1048576 <= usize::MAX) by (nonlinear_arith)
        requires
            mb <= crate::config::max_upload_mb(),
            crate::config::max_upload_mb() == usize::MAX / 1048576,
    ;
    assert(number_setting(e, "MAX_UPLOAD_MB"@, mb as int, 50));
}

/// How each media pipeline ends: an image is recorded as WebP, or as JPEG
/// after the fallback; a video as MP4 and an audio file as M4A; with the
/// thumbnail when it was made, and probed.  Failed conversions are refused
/// as unsupported media, except that a failed WebP conversion falls back to
/// JPEG.
pub proof fn law_media_outcomes(
    input: Seq<char>,
    stem: Seq<char>,
    ext: Seq<char>,
    mime: Seq<char>,
    ok: bool,
    thumb: bool,
)
    ensures
        upload_step_spec(MediaKind::Image, input, stem, ext, mime, UploadState::ImageProbe { jpeg: false, thumb }, ok)
            == (UploadState::Done, ActionView::Finish {
            stored: stem + ".webp"@,
            mime: "image/webp"@,
            thumb: if thumb { Some(stem + "_t.webp"@) } else { None },
            probed: true,
        }),
        upload_step_spec(MediaKind::Image, input, stem, ext, mime, UploadState::ImageProbe { jpeg: true, thumb }, ok)
            == (UploadState::Done, ActionView::Finish {
            stored: stem + ".jpg"@,
            mime: "image/jpeg"@,
            thumb: if thumb { Some(stem + "_t.webp"@) } else { None },
            probed: true,
        }),
        upload_step_spec(MediaKind::Video, input, stem, ext, mime, UploadState::VideoProbe { thumb }, ok) == (
            UploadState::Done,
            ActionView::Finish {
                stored: stem + ".mp4"@,
                mime: "video/mp4"@,
                thumb: if thumb { Some(stem + "_t.webp"@) } else { None },
                probed: true,
            },
        ),
        upload_step_spec(MediaKind::Audio, input, stem, ext, mime, UploadState::AudioProbe, ok) == (
            UploadState::Done,
            ActionView::Finish { stored: stem + ".m4a"@, mime: "audio/mp4"@, thumb: None, probed: true },
        ),
        upload_step_spec(MediaKind::Image, input, stem, ext, mime, UploadState::ImageMain, false).0
            == UploadState::ImageFallback,
        upload_step_spec(MediaKind::Image, input, stem, ext, mime, UploadState::ImageFallback, false).1 matches ActionView::Fail(
            crate::error::ErrorView::UnsupportedMedia(_),
        ),
        upload_step_spec(MediaKind::Video, input, stem, ext, mime, UploadState::VideoMain, false).1 matches ActionView::Fail(
            crate::error::ErrorView::UnsupportedMedia(_),
        ),
        upload_step_spec(MediaKind::Audio, input, stem, ext, mime, UploadState::AudioMain, false).1 matches ActionView::Fail(
            crate::error::ErrorView::UnsupportedMedia(_),
        ),
{
}

/// An address is refused when a character of its local part is neither an
/// ASCII letter or digit nor one of ".!#$%&'*+-/=?^_`{|}~", or when a
/// character of its domain is not a letter, digit, `.` or `-`.
pub proof fn law_email_refuses_other_characters(local: Seq<char>, domain: Seq<char>, i: int)
    requires
        !local.contains('@'),
        (0 <= i < local.len() && !plain_alnum(local[i]) && !".!#$%&'*+-/=?^_`{|}~"@.contains(local[i])) || (0
            <= i < domain.len() && !plain_alnum(domain[i]) && domain[i] != '.' && domain[i] != '-'),
    ensures
        email_outcome(local + seq!['@'] + domain) is Err,
{
    reveal_strlit(".!#$%&'*+-/=?^_`{|}~");
    let lit = ".!#$%&'*+-/=?^_`{|}~"@;
    let e = local + seq!['@'] + domain;
    assert forall|j: int| 0 <= j < local.len() implies e[j] != '@' by {
        assert(e[j] == local[j]);
    }
    crate::validate::lemma_first_index_at(e, '@', local.len() as int);
    assert(e.subrange(0, local.len() as int) =~= local);
    assert(e.subrange(local.len() as int + 1, e.len() as int) =~= domain);
    if 0 <= i < local.len() && !plain_alnum(local[i]) && !lit.contains(local[i]) {
        let c = local[i];
        assert(lit[0] == '.' && lit[1] == '!' && lit[2] == '#' && lit[3] == '$' && lit[4] == '%' && lit[5] == '&'
            && lit[6] == '\'' && lit[7] == '*' && lit[8] == '+' && lit[9] == '-' && lit[10] == '/' && lit[11] == '='
            && lit[12] == '?' && lit[13] == '^' && lit[14] == '_' && lit[15] == '`' && lit[16] == '{' && lit[17] == '|'
            && lit[18] == '}' && lit[19] == '~');
        assert(!crate::validate::is_local_char(c)) by {
            if crate::validate::is_local_char(c) {
                if c == '.' { assert(lit[0] == c); }
                if c == '!' { assert(lit[1] == c); }
                if c == '#' { assert(lit[2] == c); }
                if c == '$' { assert(lit[3] == c); }
                if c == '%' { assert(lit[4] == c); }
                if c == '&' { assert(lit[5] == c); }
                if c == '\'' { assert(lit[6] == c); }
                if c == '*' { assert(lit[7] == c); }
                if c == '+' { assert(lit[8] == c); }
                if c == '-' { assert(lit[9] == c); }
                if c == '/' { assert(lit[10] == c); }
                if c == '=' { assert(lit[11] == c); }
                if c == '?' { assert(lit[12] == c); }
                if c == '^' { assert(lit[13] == c); }
                if c == '_' { assert(lit[14] == c); }
                if c == '`' { assert(lit[15] == c); }
                if c == '{' { assert(lit[16] == c); }
                if c == '|' { assert(lit[17] == c); }
                if c == '}' { assert(lit[18] == c); }
                if c == '~' { assert(lit[19] == c); }
            }
        }
    }
}

/// An address is refused when it is longer than 254 bytes, has no `@`, has
/// nothing before its first `@`, or has a domain shorter than 3 bytes or
/// without a `.`; an accepted address is returned as it is.
pub proof fn law_email_shape(e: Seq<char>)
    ensures
        utf8_len(e) > 254 ==> email_outcome(e) is Err,
        !e.contains('@') ==> email_outcome(e) is Err,
        e.len() > 0 && e[0] == '@' ==> email_outcome(e) is Err,
        (forall|at: int| 0 <= at < e.len() && e[at] == '@' ==> {
            let d = e.subrange(at + 1, e.len() as int);
            utf8_len(d) < 3 || !d.contains('.')
        }) ==> email_outcome(e) is Err,
        email_outcome(e) matches Ok(r) ==> r == e,
{
    if e.contains('@') && utf8_len(e) <= 254 {
        let k = choose|k: int| 0 <= k < e.len() && e[k] == '@';
        assert(exists|i: int| crate::validate::is_first_index(e, '@', i)) by {
            lemma_first_at(e, '@', k);
        }
        let at = choose|i: int| crate::validate::is_first_index(e, '@', i);
        crate::validate::lemma_first_index_at(e, '@', at);
        if e[0] == '@' {
            assert(at == 0) by {
                if at > 0 {
                    assert(e[0] != '@');
                }
            }
        }
    } else if !e.contains('@') && utf8_len(e) <= 254 {
        assert(!exists|i: int| crate::validate::is_first_index(e, '@', i)) by {
            if exists|i: int| crate::validate::is_first_index(e, '@', i) {
                let i = choose|i: int| crate::validate::is_first_index(e, '@', i);
                assert(e[i] == '@');
            }
        }
    }
}

proof fn lemma_first_at(s: Seq<char>, c: char, k: int)
    requires
        0 <= k < s.len(),
        s[k] == c,
    ensures
        exists|i: int| crate::validate::is_first_index(s, c, i),
    decreases k,
{
    if exists|j: int| 0 <= j < k && s[j] == c {
        let j = choose|j: int| 0 <= j < k && s[j] == c;
        lemma_first_at(s, c, j);
    } else {
        assert(crate::validate::is_first_index(s, c, k));
    }
}

/// The configuration is refused when `DATABASE_URL` is missing or is not a
/// PostgreSQL URL, or when the signing secret is shorter than 32 bytes.
pub proof fn law_config_refusals(e: Seq<(Seq<char>, Seq<char>)>)
    ensures
        env_get(e, "DATABASE_URL"@) is None ==> config_outcome(e) is Err,
        env_get(e, "DATABASE_URL"@) matches Some(u) && !crate::text::has_prefix(u, "postgres://"@)
            && !crate::text::has_prefix(u, "postgresql://"@) ==> config_outcome(e) is Err,
        (match env_opt(e, "JWT_SECRET"@) {
            Some(s) => utf8_len(s) < 32,
            None => true,
        }) ==> config_outcome(e) is Err,
{
    assert(utf8_len(Seq::<char>::empty()) == 0) by {
        reveal_with_fuel(utf8_len, 1);
    }
}

} // verus!
