//! What the REST handlers compute from their inputs before and after the
//! database: cleaned free text, message content, group membership, paging,
//! search patterns, unread counts and follow status.
use vstd::prelude::*;

use crate::error::{bad_request, text_outcome, unit_outcome, AppError, ErrorView};
use crate::text::{
    chars_of, lowercase, remove_controls, string_of, strip_controls, take_chars, take_prefix,
    to_lowercase, trim, trim_chars, trim_str,
};

verus! {

// ---------------------------------------------------------------------------
// Free text
// ---------------------------------------------------------------------------

/// Trimmed, control characters removed, at most `max` characters.
pub open spec fn clean_spec(s: Seq<char>, max: nat) -> Seq<char> {
    take_chars(strip_controls(trim(s), false, false), max)
}

/// Cleans free text such as a location or group name.
pub fn clean_text(s: &str, max: usize) -> (r: String)
    ensures
        r@ == clean_spec(s@, max as nat),
{
    let v = chars_of(s);
    let t = trim_chars(v.as_slice());
    let c = remove_controls(t.as_slice(), false, false);
    let k = take_prefix(c.as_slice(), max);
    string_of(k.as_slice())
}

/// Cleaned optional text; what is empty after cleaning is dropped.
pub fn clean_optional(s: Option<&str>, max: usize) -> (r: Option<String>)
    ensures
        match s {
            Some(x) => if clean_spec(x@, max as nat).len() == 0 {
                r is None
            } else {
                r matches Some(y) && y@ == clean_spec(x@, max as nat)
            },
            None => r is None,
        },
{
    match s {
        Some(x) => {
            let c = clean_text(x, max);
            if c.as_str().is_empty() {
                None
            } else {
                Some(c)
            }
        },
        None => None,
    }
}

/// Message content: trimmed, control characters other than newline and
/// tab removed, at most `max_len` characters; no content is empty content.
pub open spec fn content_spec(raw: Option<Seq<char>>, max_len: nat) -> Seq<char> {
    let s = match raw {
        Some(x) => x,
        None => Seq::empty(),
    };
    take_chars(strip_controls(trim(s), true, true), max_len)
}

pub fn message_content(raw: Option<&str>, max_len: usize) -> (r: String)
    ensures
        r@ == content_spec(
            match raw {
                Some(x) => Some(x@),
                None => None,
            },
            max_len as nat,
        ),
{
    let v = match raw {
        Some(x) => chars_of(x),
        None => Vec::new(),
    };
    let t = trim_chars(v.as_slice());
    let c = remove_controls(t.as_slice(), true, true);
    let k = take_prefix(c.as_slice(), max_len);
    string_of(k.as_slice())
}

pub open spec fn msg_attachments_off() -> Seq<char> {
    "المرفقات معطلة."@
}

pub open spec fn msg_attachment_missing() -> Seq<char> {
    "المرفق غير موجود أو تم استخدامه من قبل."@
}

pub open spec fn msg_empty_message() -> Seq<char> {
    "لا يمكن إرسال رسالة فارغة."@
}

/// The membership test of a user (`$2`) in a conversation (`$1`).
pub fn is_member_sql() -> (r: &'static str)
    ensures
        r@ == "SELECT EXISTS(SELECT 1 FROM conversation_members WHERE conversation_id = $1 AND user_id = $2)"@,
{
    "SELECT EXISTS(SELECT 1 FROM conversation_members WHERE conversation_id = $1 AND user_id = $2)"
}

/// Attachments are refused when the configuration allows none.
pub fn attachments_enabled(max_per_message: usize) -> (r: Result<(), AppError>)
    ensures
        unit_outcome(r) == (if max_per_message < 1 {
            Err(ErrorView::BadRequest(msg_attachments_off()))
        } else {
            Ok(())
        }),
{
    if max_per_message < 1 {
        Err(bad_request("المرفقات معطلة."))
    } else {
        Ok(())
    }
}

/// An attachment must belong to the sender and not be used yet.
pub fn attachment_usable(found: bool) -> (r: Result<(), AppError>)
    ensures
        unit_outcome(r) == (if !found {
            Err(ErrorView::BadRequest(msg_attachment_missing()))
        } else {
            Ok(())
        }),
{
    if !found {
        Err(bad_request("المرفق غير موجود أو تم استخدامه من قبل."))
    } else {
        Ok(())
    }
}

/// A message needs non-blank content or an attachment.
pub fn message_not_empty(content: &str, has_attachment: bool) -> (r: Result<(), AppError>)
    ensures
        unit_outcome(r) == (if trim(content@).len() == 0 && !has_attachment {
            Err(ErrorView::BadRequest(msg_empty_message()))
        } else {
            Ok(())
        }),
{
    let t = trim_chars(chars_of(content).as_slice());
    if t.len() == 0 && !has_attachment {
        Err(bad_request("لا يمكن إرسال رسالة فارغة."))
    } else {
        Ok(())
    }
}

// ---------------------------------------------------------------------------
// Conversations
// ---------------------------------------------------------------------------

pub open spec fn msg_self_dm() -> Seq<char> {
    "لا يمكنك مراسلة نفسك."@
}

/// A direct conversation needs another user.
pub fn dm_peer(peer: u128, me: u128) -> (r: Result<(), AppError>)
    ensures
        unit_outcome(r) == (if peer == me {
            Err(ErrorView::BadRequest(msg_self_dm()))
        } else {
            Ok(())
        }),
{
    if peer == me {
        Err(bad_request("لا يمكنك مراسلة نفسك."))
    } else {
        Ok(())
    }
}

pub open spec fn msg_group_size() -> Seq<char> {
    "المجموعة يجب أن تضم بين 1 و 49 عضواً غيرك."@
}

pub open spec fn msg_group_small() -> Seq<char> {
    "المجموعة تحتاج عضواً واحداً على الأقل غيرك."@
}

pub open spec fn strictly_increasing(s: Seq<u128>) -> bool {
    forall|i: int, j: int| 0 <= i < j < s.len() ==> s[i] < s[j]
}

/// The members of a new group: the requested ids and the creator, each
/// once, in increasing order; 1 to 49 requested ids, and at least three
/// distinct members in all.
pub open spec fn group_ok(req: Seq<u128>, me: u128, r: Seq<u128>) -> bool {
    &&& strictly_increasing(r)
    &&& r.to_set() == req.to_set().insert(me)
}

pub open spec fn group_error(req: Seq<u128>, me: u128) -> Option<ErrorView> {
    if req.len() == 0 || req.len() > 49 {
        Some(ErrorView::BadRequest(msg_group_size()))
    } else if req.to_set().insert(me).len() < 3 {
        Some(ErrorView::BadRequest(msg_group_small()))
    } else {
        None
    }
}

/// Inserts `x` into a strictly increasing vector unless it is present.
fn insert_sorted(v: &mut Vec<u128>, x: u128)
    requires
        strictly_increasing(old(v)@),
    ensures
        strictly_increasing(final(v)@),
        final(v)@.to_set() == old(v)@.to_set().insert(x),
{
    let mut i: usize = 0;
    while i < v.len() && v[i] < x
        invariant
            i <= v@.len(),
            forall|j: int| 0 <= j < i ==> v@[j] < x,
        decreases v@.len() - i,
    {
        i = i + 1;
    }
    if i < v.len() && v[i] == x {
        proof {
            assert(v@.to_set().insert(x) =~= v@.to_set()) by {
                assert(v@.contains(x)) by {
                    assert(v@[i as int] == x);
                }
            }
        }
        return;
    }
    let ghost prev = v@;
    v.insert(i, x);
    proof {
        assert(v@ =~= prev.insert(i as int, x));
        assert forall|a: int, b: int| 0 <= a < b < v@.len() implies v@[a] < v@[b] by {
            if b < i {
                assert(v@[a] == prev[a] && v@[b] == prev[b]);
            } else if b == i {
                assert(v@[a] == prev[a]);
            } else if a < i {
                assert(v@[a] == prev[a] && v@[b] == prev[b - 1]);
                assert(prev[b - 1] >= x) by {
                    assert(prev[i as int] > x || prev[i as int] == x);
                    if b - 1 > i {
                        assert(prev[i as int] < prev[b - 1]);
                    }
                }
                if b - 1 == i {
                    assert(prev[i as int] != x);
                }
            } else if a == i {
                assert(v@[b] == prev[b - 1]);
                if b - 1 > i {
                    assert(prev[i as int] < prev[b - 1]);
                }
                assert(prev[i as int] != x);
            } else {
                assert(v@[a] == prev[a - 1] && v@[b] == prev[b - 1]);
            }
        }
        assert forall|y: u128| #[trigger] v@.to_set().contains(y) <==> prev.to_set().insert(x).contains(y) by {
            if v@.contains(y) {
                let k = choose|k: int| 0 <= k < v@.len() && v@[k] == y;
                if k < i {
                    assert(prev[k] == y);
                } else if k > i {
                    assert(prev[k - 1] == y);
                }
            }
            if prev.contains(y) {
                let k = choose|k: int| 0 <= k < prev.len() && prev[k] == y;
                if k < i {
                    assert(v@[k] == y);
                } else {
                    assert(v@[k + 1] == y);
                }
            }
            if y == x {
                assert(v@[i as int] == x);
            }
        }
        assert(v@.to_set() =~= prev.to_set().insert(x));
    }
}

proof fn lemma_increasing_unique(s: Seq<u128>)
    requires
        strictly_increasing(s),
    ensures
        s.no_duplicates(),
        s.to_set().len() == s.len(),
{
    assert(s.no_duplicates()) by {
        assert forall|i: int, j: int| 0 <= i < s.len() && 0 <= j < s.len() && i != j implies s[i] != s[j] by {
            if i < j {
                assert(s[i] < s[j]);
            } else {
                assert(s[j] < s[i]);
            }
        }
    }
    s.unique_seq_to_set();
}

/// The members of a new group (see `group_ok` and `group_error`).
pub fn group_members(member_ids: &Vec<u128>, me: u128) -> (r: Result<Vec<u128>, AppError>)
    ensures
        match r {
            Ok(v) => group_error(member_ids@, me) is None && group_ok(member_ids@, me, v@),
            Err(e) => group_error(member_ids@, me) == Some(e@),
        },
{
    if member_ids.len() == 0 || member_ids.len() > 49 {
        return Err(bad_request("المجموعة يجب أن تضم بين 1 و 49 عضواً غيرك."));
    }
    let mut ids: Vec<u128> = Vec::new();
    let mut i: usize = 0;
    assert(ids@.to_set() =~= Set::<u128>::empty());
    while i < member_ids.len()
        invariant
            i <= member_ids@.len(),
            strictly_increasing(ids@),
            ids@.to_set() == member_ids@.take(i as int).to_set(),
        decreases member_ids@.len() - i,
    {
        let ghost before = ids@;
        insert_sorted(&mut ids, member_ids[i]);
        proof {
            let t0 = member_ids@.take(i as int);
            let t1 = member_ids@.take(i + 1);
            let x = member_ids@[i as int];
            assert(t1 =~= t0.push(x));
            assert forall|y: u128| t1.contains(y) <==> t0.contains(y) || y == x by {
                if t1.contains(y) {
                    let k = choose|k: int| 0 <= k < t1.len() && t1[k] == y;
                    if k < i {
                        assert(t0[k] == y);
                    }
                }
                if t0.contains(y) {
                    let k = choose|k: int| 0 <= k < t0.len() && t0[k] == y;
                    assert(t1[k] == y);
                }
                if y == x {
                    assert(t1[i as int] == y);
                }
            }
            assert(t1.to_set() =~= t0.to_set().insert(x));
        }
        i = i + 1;
    }
    assert(member_ids@.take(member_ids@.len() as int) =~= member_ids@);
    insert_sorted(&mut ids, me);
    proof {
        lemma_increasing_unique(ids@);
    }
    if ids.len() < 3 {
        return Err(bad_request("المجموعة تحتاج عضواً واحداً على الأقل غيرك."));
    }
    Ok(ids)
}

/// Unread marker of a conversation: 1 when its last message is newer than
/// the reader's last read time (the epoch if never read) and was sent by
/// someone else, 0 otherwise.  Times are microseconds since the epoch.
pub fn unread_count(last: Option<(i64, u128)>, last_read: Option<i64>, me: u128) -> (n: i64)
    ensures
        n == match last {
            Some((sent_at, sender)) => {
                let read_ts: i64 = match last_read {
                    Some(t) => t,
                    None => 0i64,
                };
                if sent_at > read_ts && sender != me {
                    1i64
                } else {
                    0i64
                }
            },
            None => 0i64,
        },
{
    match last {
        Some((sent_at, sender)) => {
            let read_ts = match last_read {
                Some(t) => t,
                None => 0,
            };
            if sent_at > read_ts && sender != me {
                1
            } else {
                0
            }
        },
        None => 0,
    }
}

// ---------------------------------------------------------------------------
// Paging, search and login
// ---------------------------------------------------------------------------

/// `value.unwrap_or(default).clamp(lo, hi)`.
pub fn page_limit(value: Option<i64>, default: i64, lo: i64, hi: i64) -> (r: i64)
    requires
        lo <= hi,
    ensures
        r == ({
            let v = match value {
                Some(x) => x,
                None => default,
            };
            if v < lo {
                lo
            } else if v > hi {
                hi
            } else {
                v
            }
        }),
{
    let v = match value {
        Some(x) => x,
        None => default,
    };
    if v < lo {
        lo
    } else if v > hi {
        hi
    } else {
        v
    }
}

/// `value.unwrap_or(0).max(0)`.
pub fn page_offset(value: Option<i64>) -> (r: i64)
    ensures
        r == (match value {
            Some(x) => if x < 0 {
                0
            } else {
                x
            },
            None => 0,
        }),
{
    match value {
        Some(x) => if x < 0 {
            0
        } else {
            x
        },
        None => 0,
    }
}

/// Number of suggestions asked for: 24 by default, between 6 and 60.
pub fn suggestion_limit(value: Option<usize>) -> (r: usize)
    ensures
        r == ({
            let v = match value {
                Some(x) => x,
                None => 24,
            };
            if v < 6 {
                6
            } else if v > 60 {
                60
            } else {
                v
            }
        }),
{
    let v = match value {
        Some(x) => x,
        None => 24,
    };
    if v < 6 {
        6
    } else if v > 60 {
        60
    } else {
        v
    }
}

/// LIKE wildcards escaped: `\` doubled, `%` and `_` preceded by `\`.
pub open spec fn escape_like_spec(s: Seq<char>) -> Seq<char>
    decreases s.len(),
{
    if s.len() == 0 {
        Seq::empty()
    } else {
        let c = s.last();
        let tail = if c == '\\' {
            seq!['\\', '\\']
        } else if c == '%' {
            seq!['\\', '%']
        } else if c == '_' {
            seq!['\\', '_']
        } else {
            seq![c]
        };
        escape_like_spec(s.drop_last()) + tail
    }
}

pub fn escape_like(q: &str) -> (r: String)
    ensures
        r@ == escape_like_spec(q@),
{
    let v = chars_of(q);
    let mut out: Vec<char> = Vec::new();
    let mut i: usize = 0;
    while i < v.len()
        invariant
            v@ == q@,
            i <= v@.len(),
            out@ == escape_like_spec(v@.take(i as int)),
        decreases v@.len() - i,
    {
        let c = v[i];
        assert(v@.take(i + 1).drop_last() =~= v@.take(i as int));
        if c == '\\' {
            out.push('\\');
            out.push('\\');
        } else if c == '%' {
            out.push('\\');
            out.push('%');
        } else if c == '_' {
            out.push('\\');
            out.push('_');
        } else {
            out.push(c);
        }
        assert(out@ =~= escape_like_spec(v@.take(i + 1)));
        i = i + 1;
    }
    assert(v@.take(v@.len() as int) =~= v@);
    string_of(out.as_slice())
}

/// `%<escaped query>%`: matches names containing the query literally.
pub fn search_pattern(q: &str) -> (r: String)
    ensures
        r@ == seq!['%'] + escape_like_spec(q@) + seq!['%'],
{
    let e = escape_like(q);
    let mut v: Vec<char> = vec!['%'];
    let ev = chars_of(e.as_str());
    let mut i: usize = 0;
    while i < ev.len()
        invariant
            i <= ev@.len(),
            v@ == seq!['%'] + ev@.take(i as int),
        decreases ev@.len() - i,
    {
        v.push(ev[i]);
        assert(ev@.take(i + 1) =~= ev@.take(i as int).push(ev@[i as int]));
        i = i + 1;
    }
    v.push('%');
    assert(ev@.take(ev@.len() as int) =~= ev@);
    assert(v@ =~= seq!['%'] + escape_like_spec(q@) + seq!['%']);
    string_of(v.as_slice())
}

/// `<escaped prefix>%`: matches names starting with the prefix literally.
pub fn prefix_pattern(q: &str) -> (r: String)
    ensures
        r@ == escape_like_spec(q@) + seq!['%'],
{
    let e = escape_like(q);
    let mut v = chars_of(e.as_str());
    v.push('%');
    string_of(v.as_slice())
}

/// The search query: trimmed; `None` when nothing is left (no search).
pub fn search_query(q: &str) -> (r: Option<String>)
    ensures
        trim(q@).len() == 0 ==> r is None,
        trim(q@).len() > 0 ==> (r matches Some(t) && t@ == trim(q@)),
{
    let t = trim_str(q);
    if t.as_str().is_empty() {
        None
    } else {
        Some(t)
    }
}

pub open spec fn msg_login_missing() -> Seq<char> {
    "أدخل اسم المستخدم/البريد وكلمة المرور."@
}

/// The identifier a login looks up (trimmed, lower-cased username or
/// email); blank identifiers and empty passwords are refused.
pub open spec fn login_outcome(lowered: Seq<char>, password: Seq<char>) -> Result<Seq<char>, ErrorView> {
    if lowered.len() == 0 || password.len() == 0 {
        Err(ErrorView::BadRequest(msg_login_missing()))
    } else {
        Ok(lowered)
    }
}

/// The check on an identifier that is already trimmed and lower-cased.
pub fn check_login(lowered: String, password: &str) -> (r: Result<String, AppError>)
    ensures
        text_outcome(r) == login_outcome(lowered@, password@),
{
    if lowered.as_str().is_empty() || password.is_empty() {
        Err(bad_request("أدخل اسم المستخدم/البريد وكلمة المرور."))
    } else {
        Ok(lowered)
    }
}

pub fn login_identifier(identifier: &str, password: &str) -> (r: Result<String, AppError>)
    ensures
        text_outcome(r) == login_outcome(lowercase(trim(identifier@)), password@),
{
    let t = trim_str(identifier);
    let l = to_lowercase(t.as_str());
    check_login(l, password)
}

/// A username given in a path or query: trimmed and lower-cased.
pub fn username_key(s: &str) -> (r: String)
    ensures
        r@ == lowercase(trim(s@)),
{
    let t = trim_str(s);
    to_lowercase(t.as_str())
}

// ---------------------------------------------------------------------------
// Follows
// ---------------------------------------------------------------------------

pub open spec fn msg_self_follow() -> Seq<char> {
    "لا يمكنك متابعة نفسك."@
}

/// Following oneself is refused.
pub fn follow_target(target: u128, me: u128) -> (r: Result<(), AppError>)
    ensures
        unit_outcome(r) == (if target == me {
            Err(ErrorView::BadRequest(msg_self_follow()))
        } else {
            Ok(())
        }),
{
    if target == me {
        Err(bad_request("لا يمكنك متابعة نفسك."))
    } else {
        Ok(())
    }
}

/// A follow of a private account waits for approval.
pub fn follow_status(target_private: bool) -> (r: &'static str)
    ensures
        r@ == (if target_private {
            "pending"@
        } else {
            "accepted"@
        }),
{
    if target_private {
        "pending"
    } else {
        "accepted"
    }
}

} // verus!
