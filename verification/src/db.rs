//! Schema initialization: the idempotent schema is applied statement by
//! statement.  It holds no functions or triggers, so splitting on `;` is
//! enough.
use vstd::prelude::*;

use crate::auth::span_until;
use crate::text::{chars_of, starts_with_chars, string_of, take_prefix, trim, trim_chars};

verus! {

pub open spec fn comment_mark() -> Seq<char> {
    seq!['-', '-']
}

/// The statements of a schema: the `;`-separated parts, trimmed, without
/// empty parts and parts that start with `--`.
pub open spec fn sql_statements(s: Seq<char>) -> Seq<Seq<char>>
    decreases s.len(),
{
    let end = span_until(s, ';') as int;
    let part = trim(s.take(end));
    let rest = if end >= s.len() {
        Seq::<Seq<char>>::empty()
    } else {
        sql_statements(s.skip(end + 1))
    };
    if part.len() == 0 || (part.len() >= 2 && part.take(2) == comment_mark()) {
        rest
    } else {
        seq![part] + rest
    }
}


/// The statements to execute, in order.
pub fn schema_statements(sql: &str) -> (r: Vec<String>)
    ensures
        r@.map_values(|x: String| x@) == sql_statements(sql@),
{
    let v = chars_of(sql);
    let mark: Vec<char> = vec!['-', '-'];
    assert(mark@ =~= comment_mark());
    let mut out: Vec<String> = Vec::new();
    let mut start: usize = 0;
    assert(v@.skip(0) =~= v@);
    assert(out@.map_values(|x: String| x@) =~= Seq::<Seq<char>>::empty());
    loop
        invariant
            v@ == sql@,
            mark@ == comment_mark(),
            start <= v@.len(),
            sql_statements(sql@) == out@.map_values(|x: String| x@) + sql_statements(v@.skip(start as int)),
        decreases v@.len() - start,
    {
        let ghost rest = v@.skip(start as int);
        let mut end: usize = start;
        while end < v.len() && v[end] != ';'
            invariant
                start <= end <= v@.len(),
                forall|j: int| start <= j < end ==> v@[j] != ';',
            decreases v@.len() - end,
        {
            end = end + 1;
        }
        proof {
            assert forall|j: int| 0 <= j < end - start implies rest[j] != ';' by {
                assert(rest[j] == v@[start + j]);
            }
            if end < v.len() {
                assert(rest[end - start] == v@[end as int]);
            }
            crate::auth::lemma_span_until(rest, ';', end - start);
        }
        let mut part: Vec<char> = Vec::new();
        let mut k: usize = start;
        while k < end
            invariant
                start <= k <= end <= v@.len(),
                part@ == v@.subrange(start as int, k as int),
            decreases end - k,
        {
            part.push(v[k]);
            assert(v@.subrange(start as int, k + 1) =~= v@.subrange(start as int, k as int).push(v@[k as int]));
            k = k + 1;
        }
        assert(part@ =~= rest.take(end - start));
        let t = trim_chars(part.as_slice());
        let ghost before = out@.map_values(|x: String| x@);
        let keep = t.len() > 0 && !starts_with_chars(t.as_slice(), mark.as_slice());
        if keep {
            out.push(string_of(t.as_slice()));
            assert(out@.map_values(|x: String| x@) =~= before.push(t@));
        }
        if end == v.len() {
            proof {
                assert(sql_statements(rest) == (if !keep {
                    Seq::<Seq<char>>::empty()
                } else {
                    seq![t@]
                }));
                assert(out@.map_values(|x: String| x@) =~= before + sql_statements(rest));
            }
            return out;
        }
        proof {
            assert(rest.skip(end - start + 1) =~= v@.skip(end + 1));
            assert(out@.map_values(|x: String| x@) + sql_statements(v@.skip(end + 1)) =~= before
                + sql_statements(rest));
        }
        start = end + 1;
    }
}

} // verus!
