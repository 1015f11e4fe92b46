//! Friend suggestions, the parts without floating point: shared interests
//! (compared lower-cased), the reason text listing them, and the ranking
//! of scored candidates.
use vstd::hash_set::StringHashSet;
use vstd::prelude::*;

use crate::error::concat;
use crate::text::{decimal_text, lowercase, to_lowercase, u64_text};
use crate::validate::views_of;

verus! {

/// The lower-cased strings of a list.
pub open spec fn lowered(v: Seq<String>) -> Seq<Seq<char>> {
    v.map_values(|s: String| lowercase(s@))
}

/// The lower-cased interests of a list, as a set.
pub open spec fn lowered_set(v: Seq<String>) -> Set<Seq<char>> {
    lowered(v).to_set()
}

fn lower_all(v: &Vec<String>) -> (r: Vec<String>)
    ensures
        views_of(r@) == lowered(v@),
{
    let mut out: Vec<String> = Vec::new();
    let mut i: usize = 0;
    while i < v.len()
        invariant
            i <= v@.len(),
            views_of(out@) == lowered(v@).take(i as int),
        decreases v@.len() - i,
    {
        let ghost prev = out@;
        out.push(to_lowercase(v[i].as_str()));
        assert(views_of(out@) =~= views_of(prev).push(lowercase(v@[i as int]@)));
        assert(lowered(v@).take(i + 1) =~= lowered(v@).take(i as int).push(lowercase(v@[i as int]@)));
        i = i + 1;
    }
    assert(lowered(v@).take(v@.len() as int) =~= lowered(v@));
    out
}

/// The values of a list of strings, as a hash set.
fn set_of(v: &Vec<String>) -> (r: StringHashSet)
    ensures
        r@ == views_of(v@).to_set(),
{
    let mut r = StringHashSet::new();
    let mut i: usize = 0;
    assert(views_of(v@).take(0).to_set() =~= r@);
    while i < v.len()
        invariant
            i <= v@.len(),
            r@ == views_of(v@).take(i as int).to_set(),
        decreases v@.len() - i,
    {
        let ghost t0 = views_of(v@).take(i as int);
        let ghost t1 = views_of(v@).take(i + 1);
        r.insert(v[i].clone());
        proof {
            assert(t1 =~= t0.push(v@[i as int]@));
            assert forall|y: Seq<char>| #[trigger] t1.contains(y) <==> t0.contains(y) || y == v@[i as int]@ by {
                if t1.contains(y) {
                    let k = choose|k: int| 0 <= k < t1.len() && t1[k] == y;
                    if k < i {
                        assert(t0[k] == y);
                    }
                }
                if t0.contains(y) {
                    let k = choose|k: int| 0 <= k < t0.len() && t0[k] == y;
                    assert(t1[k] == y);
                }
                if y == v@[i as int]@ {
                    assert(t1[i as int] == y);
                }
            }
            assert(r@ =~= t1.to_set());
        }
        i = i + 1;
    }
    assert(views_of(v@).take(v@.len() as int) =~= views_of(v@));
    r
}

/// The distinct values of a list of strings.
fn distinct(v: &Vec<String>) -> (r: Vec<String>)
    ensures
        views_of(r@).no_duplicates(),
        views_of(r@).to_set() == views_of(v@).to_set(),
        r@.len() <= v@.len(),
{
    let mut out: Vec<String> = Vec::new();
    let mut seen = StringHashSet::new();
    let mut i: usize = 0;
    assert(views_of(out@).to_set() =~= seen@);
    while i < v.len()
        invariant
            i <= v@.len(),
            views_of(out@).no_duplicates(),
            views_of(out@).to_set() == views_of(v@).take(i as int).to_set(),
            seen@ == views_of(out@).to_set(),
            out@.len() <= i,
        decreases v@.len() - i,
    {
        let ghost prev = views_of(out@);
        let ghost t0 = views_of(v@).take(i as int);
        let ghost t1 = views_of(v@).take(i + 1);
        let x = &v[i];
        proof {
            assert(t1 =~= t0.push(x@));
            assert(t1.to_set() =~= t0.to_set().insert(x@)) by {
                assert forall|y: Seq<char>| t1.contains(y) <==> t0.contains(y) || y == x@ by {
                    if t1.contains(y) {
                        let k = choose|k: int| 0 <= k < t1.len() && t1[k] == y;
                        if k < i {
                            assert(t0[k] == y);
                        }
                    }
                    if t0.contains(y) {
                        let k = choose|k: int| 0 <= k < t0.len() && t0[k] == y;
                        assert(t1[k] == y);
                    }
                    if y == x@ {
                        assert(t1[i as int] == y);
                    }
                }
            }
        }
        let ghost before = seen@;
        if seen.insert(x.clone()) {
            out.push(x.clone());
            proof {
                let now = views_of(out@);
                assert(now =~= prev.push(x@));
                assert forall|a: int, b: int| 0 <= a < now.len() && 0 <= b < now.len() && a != b implies now[a] != now[b] by {
                    if a < prev.len() && b < prev.len() {
                        assert(now[a] == prev[a] && now[b] == prev[b]);
                    } else if a == prev.len() {
                        assert(now[b] == prev[b]);
                        assert(prev.contains(prev[b]));
                    } else {
                        assert(now[a] == prev[a]);
                        assert(prev.contains(prev[a]));
                    }
                }
                assert(now.to_set() =~= prev.to_set().insert(x@)) by {
                    assert forall|y: Seq<char>| now.contains(y) <==> prev.contains(y) || y == x@ by {
                        if now.contains(y) {
                            let k = choose|k: int| 0 <= k < now.len() && now[k] == y;
                            if k < prev.len() {
                                assert(prev[k] == y);
                            }
                        }
                        if prev.contains(y) {
                            let k = choose|k: int| 0 <= k < prev.len() && prev[k] == y;
                            assert(now[k] == y);
                        }
                        if y == x@ {
                            assert(now[prev.len() as int] == y);
                        }
                    }
                }
            }
        } else {
            proof {
                assert(prev.to_set().insert(x@) =~= prev.to_set());
            }
        }
        proof {
            assert(seen@ =~= views_of(out@).to_set());
        }
        i = i + 1;
    }
    assert(views_of(v@).take(v@.len() as int) =~= views_of(v@));
    out
}

/// Number of interests shared by two people and number of interests of
/// either, compared lower-cased.
pub fn interest_overlap(mine: &Vec<String>, theirs: &Vec<String>) -> (r: (usize, usize))
    requires
        mine@.len() + theirs@.len() <= usize::MAX,
    ensures
        r.0 == lowered_set(mine@).intersect(lowered_set(theirs@)).len(),
        r.1 == lowered_set(mine@).union(lowered_set(theirs@)).len(),
{
    let lm = lower_all(mine);
    let lt = lower_all(theirs);
    assert(lm@.len() == mine@.len() && lt@.len() == theirs@.len()) by {
        assert(views_of(lm@).len() == lowered(mine@).len());
        assert(views_of(lt@).len() == lowered(theirs@).len());
    }
    let a = distinct(&lm);
    let b = distinct(&lt);
    let sa = set_of(&a);
    let ghost av = views_of(a@);
    let ghost bv = views_of(b@);
    let mut inter: usize = 0;
    let mut only_b: usize = 0;
    let ghost mut iset: Set<Seq<char>> = Set::empty();
    let ghost mut oset: Set<Seq<char>> = Set::empty();
    let mut i: usize = 0;
    while i < b.len()
        invariant
            i <= b@.len(),
            av == views_of(a@),
            bv == views_of(b@),
            bv.no_duplicates(),
            sa@ == av.to_set(),
            iset == bv.take(i as int).to_set().intersect(av.to_set()),
            oset == bv.take(i as int).to_set().difference(av.to_set()),
            iset.finite(),
            oset.finite(),
            inter == iset.len(),
            only_b == oset.len(),
            inter + only_b == i,
            a@.len() + b@.len() <= usize::MAX,
        decreases b@.len() - i,
    {
        let x = &b[i];
        let ghost t0 = bv.take(i as int);
        let ghost t1 = bv.take(i + 1);
        proof {
            assert(t1 =~= t0.push(x@));
            assert(!t0.contains(x@)) by {
                if t0.contains(x@) {
                    let k = choose|k: int| 0 <= k < t0.len() && t0[k] == x@;
                    assert(bv[k] == bv[i as int]);
                }
            }
            assert forall|y: Seq<char>| t1.to_set().contains(y) <==> t0.to_set().contains(y) || y == x@ by {
                if t1.contains(y) {
                    let k = choose|k: int| 0 <= k < t1.len() && t1[k] == y;
                    if k < i {
                        assert(t0[k] == y);
                    }
                }
                if t0.contains(y) {
                    let k = choose|k: int| 0 <= k < t0.len() && t0[k] == y;
                    assert(t1[k] == y);
                }
                if y == x@ {
                    assert(t1[i as int] == y);
                }
            }
        }
        if sa.contains(x.as_str()) {
            proof {
                assert(!iset.contains(x@));
                iset = iset.insert(x@);
                assert(iset =~= t1.to_set().intersect(av.to_set()));
                assert(oset =~= t1.to_set().difference(av.to_set()));
            }
            inter = inter + 1;
        } else {
            proof {
                assert(!oset.contains(x@));
                oset = oset.insert(x@);
                assert(iset =~= t1.to_set().intersect(av.to_set()));
                assert(oset =~= t1.to_set().difference(av.to_set()));
            }
            only_b = only_b + 1;
        }
        i = i + 1;
    }
    proof {
        assert(bv.take(b@.len() as int) =~= bv);
        views_of(a@).unique_seq_to_set();
        assert(av.to_set() == lowered_set(mine@));
        assert(bv.to_set() == lowered_set(theirs@));
        assert(iset =~= lowered_set(mine@).intersect(lowered_set(theirs@)));
        let u = lowered_set(mine@).union(lowered_set(theirs@));
        assert(u =~= av.to_set() + oset);
        assert(av.to_set().disjoint(oset));
        vstd::set_lib::lemma_set_disjoint_lens(av.to_set(), oset);
    }
    (inter, a.len() + only_b)
}

/// A candidate's interests that are also mine (compared lower-cased), in
/// the candidate's order and spelling.
pub fn common_interests(mine: &Vec<String>, theirs: &Vec<String>) -> (r: Vec<String>)
    ensures
        views_of(r@) == views_of(theirs@.filter(|s: String| lowered_set(mine@).contains(lowercase(s@)))),
{
    let lm = lower_all(mine);
    let ls = set_of(&lm);
    let mut out: Vec<String> = Vec::new();
    let mut i: usize = 0;
    while i < theirs.len()
        invariant
            i <= theirs@.len(),
            ls@ == lowered_set(mine@),
            views_of(out@) == views_of(theirs@.take(i as int).filter(|s: String| lowered_set(mine@).contains(lowercase(s@)))),
        decreases theirs@.len() - i,
    {
        let s = &theirs[i];
        let l = to_lowercase(s.as_str());
        let ghost prev = views_of(out@);
        proof {
            assert(theirs@.take(i + 1).drop_last() =~= theirs@.take(i as int));
            reveal_with_fuel(Seq::filter, 1);
        }
        if ls.contains(l.as_str()) {
            out.push(s.clone());
            assert(views_of(out@) =~= prev.push(s@));
        }
        proof {
            let f = |s: String| lowered_set(mine@).contains(lowercase(s@));
            let t0 = theirs@.take(i as int);
            let t1 = theirs@.take(i + 1);
            assert(t1.filter(f) == if f(*s) { t0.filter(f).push(*s) } else { t0.filter(f) });
            if f(*s) {
                assert(views_of(t1.filter(f)) =~= views_of(t0.filter(f)).push(s@));
            }
        }
        i = i + 1;
    }
    assert(theirs@.take(theirs@.len() as int) =~= theirs@);
    out
}

/// The "shared interests" reason: the first three shared interests joined
/// by an Arabic comma; none when nothing is shared.
pub open spec fn interest_reason_spec(common: Seq<Seq<char>>) -> Option<Seq<char>>
{
    if common.len() == 0 {
        None
    } else {
        let first = common.take(if common.len() < 3 { common.len() as int } else { 3 });
        Some("اهتمامات مشتركة: "@ + join_with(first, "، "@))
    }
}

pub open spec fn join_with(parts: Seq<Seq<char>>, sep: Seq<char>) -> Seq<char>
    decreases parts.len(),
{
    if parts.len() == 0 {
        Seq::empty()
    } else if parts.len() == 1 {
        parts[0]
    } else {
        join_with(parts.drop_last(), sep) + sep + parts.last()
    }
}

pub fn interest_reason(common: &Vec<String>) -> (r: Option<String>)
    ensures
        match r {
            Some(t) => interest_reason_spec(views_of(common@)) == Some(t@),
            None => interest_reason_spec(views_of(common@)) is None,
        },
{
    if common.len() == 0 {
        return None;
    }
    let n: usize = if common.len() < 3 {
        common.len()
    } else {
        3
    };
    let ghost parts = views_of(common@).take(n as int);
    let mut joined = common[0].clone();
    let mut i: usize = 1;
    assert(parts.take(1).drop_last() =~= Seq::<Seq<char>>::empty());
    while i < n
        invariant
            1 <= i <= n <= common@.len(),
            n <= 3,
            parts == views_of(common@).take(n as int),
            joined@ == join_with(parts.take(i as int), "، "@),
        decreases n - i,
    {
        let a = concat(joined.as_str(), "، ");
        joined = concat(a.as_str(), common[i].as_str());
        assert(parts.take(i + 1).drop_last() =~= parts.take(i as int));
        i = i + 1;
    }
    assert(parts.take(n as int) =~= parts);
    Some(concat("اهتمامات مشتركة: ", joined.as_str()))
}

/// The "nearby" reason for a distance already formatted in whole kilometres.
pub open spec fn nearby_reason_spec(km: Seq<char>) -> Seq<char> {
    "قريب منك جغرافياً ("@ + km + " كم)"@
}

/// The "mutual connections" reason.
pub open spec fn mutual_reason_spec(mutuals: nat) -> Seq<char> {
    "أصدقاء/متابعات مشتركة: "@ + decimal_text(mutuals)
}

pub open spec fn fallback_reason() -> Seq<char> {
    "نشط في MEEV"@
}

pub open spec fn opt_seq(o: Option<Seq<char>>) -> Seq<Seq<char>> {
    match o {
        Some(t) => seq![t],
        None => Seq::empty(),
    }
}

/// The reasons shown with a suggestion, in order: shared interests, a
/// nearby distance (given when the candidate is under 30 km away), mutual
/// connections; a generic "active" reason when none applies.
pub open spec fn reasons_spec(common: Seq<Seq<char>>, nearby_km: Option<Seq<char>>, mutuals: int) -> Seq<
    Seq<char>,
> {
    let all = opt_seq(interest_reason_spec(common)) + opt_seq(
        match nearby_km {
            Some(k) => Some(nearby_reason_spec(k)),
            None => None,
        },
    ) + (if mutuals > 0 {
        seq![mutual_reason_spec(mutuals as nat)]
    } else {
        Seq::empty()
    });
    if all.len() == 0 {
        seq![fallback_reason()]
    } else {
        all
    }
}

pub fn suggestion_reasons(common: &Vec<String>, nearby_km: Option<&str>, mutuals: i64) -> (r: Vec<
    String,
>)
    ensures
        views_of(r@) == reasons_spec(
            views_of(common@),
            match nearby_km {
                Some(k) => Some(k@),
                None => None,
            },
            mutuals as int,
        ),
{
    let mut out: Vec<String> = Vec::new();
    let ghost a = opt_seq(interest_reason_spec(views_of(common@)));
    let ghost b = opt_seq(
        match nearby_km {
            Some(k) => Some(nearby_reason_spec(k@)),
            None => None,
        },
    );
    let ghost c = if mutuals > 0 {
        seq![mutual_reason_spec(mutuals as nat)]
    } else {
        Seq::<Seq<char>>::empty()
    };
    match interest_reason(common) {
        Some(t) => {
            out.push(t);
        },
        None => {},
    }
    assert(views_of(out@) =~= a);
    match nearby_km {
        Some(k) => {
            let t0 = concat("قريب منك جغرافياً (", k);
            let t = concat(t0.as_str(), " كم)");
            let ghost prev = out@;
            out.push(t);
            assert(views_of(out@) =~= views_of(prev).push(t@));
        },
        None => {},
    }
    assert(views_of(out@) =~= a + b);
    if mutuals > 0 {
        let n = u64_text(mutuals as u64);
        let t = concat("أصدقاء/متابعات مشتركة: ", n.as_str());
        let ghost prev = out@;
        out.push(t);
        assert(views_of(out@) =~= views_of(prev).push(t@));
    }
    assert(views_of(out@) =~= a + b + c);
    if out.len() == 0 {
        out.push(String::from_str("نشط في MEEV"));
        assert(views_of(out@) =~= seq![fallback_reason()]);
    }
    out
}

pub open spec fn micros_per_day() -> int {
    86_400_000_000
}

/// Whole days in a span of microseconds, rounded toward zero (as
/// `chrono::TimeDelta::num_days` counts them).
pub open spec fn whole_days(micros: int) -> int {
    if micros >= 0 {
        micros / micros_per_day()
    } else {
        -((-micros) / micros_per_day())
    }
}

/// A candidate counts as recently active when last seen at most seven whole
/// days before `now` (timestamps in microseconds since the epoch).
pub fn active_within_week(now: i64, last_seen: Option<i64>) -> (b: bool)
    ensures
        b == match last_seen {
            Some(t) => whole_days(now - t) <= 7,
            None => false,
        },
{
    match last_seen {
        None => false,
        Some(t) => {
            let d: i128 = now as i128 - t as i128;
            proof {
                let dd = d as int;
                if dd >= 0 {
                    assert(dd / micros_per_day() <= 7 <==> dd < 8 * micros_per_day()) by (nonlinear_arith)
                        requires dd >= 0;
                } else {
                    assert((-dd) / micros_per_day() >= 0) by (nonlinear_arith)
                        requires -dd > 0;
                }
            }
            d < 691_200_000_000
        },
    }
}

// ---------------------------------------------------------------------------
// Ranking
// ---------------------------------------------------------------------------

/// Candidate `a` comes before candidate `b`: a higher score, or the same
/// score and an earlier position (the sort is stable).
pub open spec fn ranks_before(scores: Seq<i32>, a: int, b: int) -> bool {
    scores[a] > scores[b] || (scores[a] == scores[b] && a < b)
}

pub open spec fn ranked(scores: Seq<i32>, r: Seq<usize>) -> bool {
    forall|i: int, j: int| 0 <= i < j < r.len() ==> ranks_before(scores, r[i] as int, r[j] as int)
}

fn insert_ranked(scores: &Vec<i32>, v: &mut Vec<usize>, x: usize)
    requires
        x < scores@.len(),
        ranked(scores@, old(v)@),
        !old(v)@.contains(x),
        forall|k: int| 0 <= k < old(v)@.len() ==> old(v)@[k] < scores@.len(),
    ensures
        ranked(scores@, final(v)@),
        final(v)@.to_set() == old(v)@.to_set().insert(x),
        final(v)@.len() == old(v)@.len() + 1,
        forall|k: int| 0 <= k < final(v)@.len() ==> final(v)@[k] < scores@.len(),
{
    let mut i: usize = 0;
    while i < v.len() && (scores[v[i]] > scores[x] || (scores[v[i]] == scores[x] && v[i] < x))
        invariant
            i <= v@.len(),
            x < scores@.len(),
            forall|k: int| 0 <= k < v@.len() ==> v@[k] < scores@.len(),
            forall|j: int| 0 <= j < i ==> ranks_before(scores@, v@[j] as int, x as int),
        decreases v@.len() - i,
    {
        i = i + 1;
    }
    let ghost prev = v@;
    v.insert(i, x);
    proof {
        assert(v@ =~= prev.insert(i as int, x));
        if i < prev.len() {
            assert(prev[i as int] != x) by {
                assert(prev.contains(prev[i as int]));
            }
            assert(ranks_before(scores@, x as int, prev[i as int] as int));
        }
        assert forall|a: int, b: int| 0 <= a < b < v@.len() implies ranks_before(scores@, v@[a] as int, v@[b] as int) by {
            if b < i {
                assert(v@[a] == prev[a] && v@[b] == prev[b]);
            } else if b == i {
                assert(v@[a] == prev[a]);
            } else if a < i {
                assert(v@[a] == prev[a] && v@[b] == prev[b - 1]);
                if b - 1 > i {
                    assert(ranks_before(scores@, prev[i as int] as int, prev[b - 1] as int));
                }
            } else if a == i {
                assert(v@[b] == prev[b - 1]);
                if b - 1 > i {
                    assert(ranks_before(scores@, prev[i as int] as int, prev[b - 1] as int));
                }
            } else {
                assert(v@[a] == prev[a - 1] && v@[b] == prev[b - 1]);
            }
        }
        assert forall|y: usize| #[trigger] v@.to_set().contains(y) <==> prev.to_set().insert(x).contains(y) by {
            if v@.contains(y) {
                let k = choose|k: int| 0 <= k < v@.len() && v@[k] == y;
                if k < i {
                    assert(prev[k] == y);
                } else if k > i {
                    assert(prev[k - 1] == y);
                }
            }
            if prev.contains(y) {
                let k = choose|k: int| 0 <= k < prev.len() && prev[k] == y;
                if k < i {
                    assert(v@[k] == y);
                } else {
                    assert(v@[k + 1] == y);
                }
            }
            if y == x {
                assert(v@[i as int] == x);
            }
        }
        assert(v@.to_set() =~= prev.to_set().insert(x));
        assert forall|k: int| 0 <= k < v@.len() implies v@[k] < scores@.len() by {
            if k < i {
                assert(v@[k] == prev[k]);
            } else if k > i {
                assert(v@[k] == prev[k - 1]);
            }
        }
    }
}

pub open spec fn range_set(n: nat) -> Set<usize> {
    Set::new(|x: usize| x < n)
}

/// The order in which scored candidates are shown: by score, highest
/// first, ties in their original order; at most `max(limit, 6)` of them.
pub fn rank_indices(scores: &Vec<i32>, limit: usize) -> (r: Vec<usize>)
    ensures
        ranked(scores@, r@),
        r@.no_duplicates(),
        forall|k: int| 0 <= k < r@.len() ==> r@[k] < scores@.len(),
        r@.len() == (if scores@.len() < (if limit < 6 { 6 } else { limit }) {
            scores@.len()
        } else {
            (if limit < 6 { 6 } else { limit }) as nat
        }),
        forall|x: usize|
            x < scores@.len() && !r@.contains(x) ==> forall|k: int|
                0 <= k < r@.len() ==> ranks_before(scores@, r@[k] as int, x as int),
{
    let mut v: Vec<usize> = Vec::new();
    let mut i: usize = 0;
    assert(v@.to_set() =~= range_set(0));
    while i < scores.len()
        invariant
            i <= scores@.len(),
            ranked(scores@, v@),
            v@.to_set() == range_set(i as nat),
            v@.len() == i,
            forall|k: int| 0 <= k < v@.len() ==> v@[k] < scores@.len(),
        decreases scores@.len() - i,
    {
        proof {
            assert(!v@.contains(i)) by {
                if v@.contains(i) {
                    assert(v@.to_set().contains(i));
                }
            }
        }
        insert_ranked(scores, &mut v, i);
        assert(v@.to_set() =~= range_set((i + 1) as nat));
        i = i + 1;
    }
    let keep: usize = if limit < 6 {
        6
    } else {
        limit
    };
    let mut out: Vec<usize> = Vec::new();
    let mut k: usize = 0;
    while k < v.len() && k < keep
        invariant
            k <= v@.len(),
            k <= keep,
            out@ == v@.take(k as int),
        decreases v@.len() - k,
    {
        out.push(v[k]);
        assert(v@.take(k + 1) =~= v@.take(k as int).push(v@[k as int]));
        k = k + 1;
    }
    proof {
        let n = scores@.len();
        assert forall|a: int, b: int| 0 <= a < v@.len() && 0 <= b < v@.len() && a != b implies v@[a] != v@[b] by {
            if a < b {
                assert(ranks_before(scores@, v@[a] as int, v@[b] as int));
            } else {
                assert(ranks_before(scores@, v@[b] as int, v@[a] as int));
            }
        }
        assert forall|x: usize| x < n && !out@.contains(x) implies forall|j: int|
            0 <= j < out@.len() ==> ranks_before(scores@, out@[j] as int, x as int) by {
            assert(v@.to_set().contains(x));
            let p = choose|p: int| 0 <= p < v@.len() && v@[p] == x;
            if p < k {
                assert(out@[p] == x);
            }
            assert forall|j: int| 0 <= j < out@.len() implies ranks_before(scores@, out@[j] as int, x as int) by {
                assert(out@[j] == v@[j]);
                assert(j < p);
            }
        }
        assert forall|a: int, b: int| 0 <= a < out@.len() && 0 <= b < out@.len() && a != b implies out@[a] != out@[b] by {
            assert(out@[a] == v@[a] && out@[b] == v@[b]);
        }
    }
    out
}

} // verus!
