//! Input validation: every user-supplied value is validated and normalized
//! before it reaches the database.
use vstd::prelude::*;
use vstd::hash_set::StringHashSet;

use crate::error::{bad_request, text_outcome, AppError, ErrorView};
use crate::text::{
    ascii_alphabetic, ascii_alphanumeric, byte_len, chars_of, has_control,
    is_ascii_alphabetic, is_ascii_alphanumeric, is_control, lowercase, remove_controls,
    strip_controls, string_of, to_lowercase, trim, trim_chars, trim_str, utf8_len,
};

verus! {

// ---------------------------------------------------------------------------
// Username
// ---------------------------------------------------------------------------

pub open spec fn msg_username_length() -> Seq<char> {
    "اسم المستخدم يجب أن يكون بين 3 و 24 حرفاً."@
}

pub open spec fn msg_username_first() -> Seq<char> {
    "اسم المستخدم يجب أن يبدأ بحرف."@
}

pub open spec fn msg_username_chars() -> Seq<char> {
    "اسم المستخدم مسموح فيه فقط الأحرف اللاتينية والأرقام و _ و ."@
}

pub open spec fn is_username_char(c: char) -> bool {
    is_ascii_alphanumeric(c) || c == '_' || c == '.'
}

/// Outcome of checking an already trimmed and lower-cased username.
pub open spec fn username_outcome(u: Seq<char>) -> Result<Seq<char>, ErrorView> {
    if utf8_len(u) < 3 || utf8_len(u) > 24 {
        Err(ErrorView::BadRequest(msg_username_length()))
    } else if !is_ascii_alphabetic(u[0]) {
        Err(ErrorView::BadRequest(msg_username_first()))
    } else if !(forall|i: int| 0 <= i < u.len() ==> is_username_char(#[trigger] u[i])) {
        Err(ErrorView::BadRequest(msg_username_chars()))
    } else {
        Ok(u)
    }
}

proof fn lemma_utf8_len_nonempty(s: Seq<char>)
    requires
        utf8_len(s) > 0,
    ensures
        s.len() > 0,
{
    if s.len() == 0 {
        assert(vstd::utf8::encode_utf8(s) =~= Seq::<u8>::empty());
    }
}

/// Length and character checks of a username that is already trimmed and
/// lower-cased: 3 to 24 bytes, a Latin letter first, then only Latin
/// letters, digits, `_` and `.`.
pub fn check_username(u: String) -> (r: Result<String, AppError>)
    ensures
        text_outcome(r) == username_outcome(u@),
{
    let n = byte_len(u.as_str());
    if n < 3 || n > 24 {
        return Err(bad_request("اسم المستخدم يجب أن يكون بين 3 و 24 حرفاً."));
    }
    proof {
        lemma_utf8_len_nonempty(u@);
    }
    let v = chars_of(u.as_str());
    if !ascii_alphabetic(v[0]) {
        return Err(bad_request("اسم المستخدم يجب أن يبدأ بحرف."));
    }
    let mut i: usize = 0;
    while i < v.len()
        invariant
            v@ == u@,
            3 <= utf8_len(u@) <= 24,
            v@.len() > 0,
            is_ascii_alphabetic(u@[0]),
            i <= v@.len(),
            forall|j: int| 0 <= j < i ==> is_username_char(#[trigger] v@[j]),
        decreases v@.len() - i,
    {
        let c = v[i];
        if !(ascii_alphanumeric(c) || c == '_' || c == '.') {
            assert(!is_username_char(u@[i as int]));
            return Err(bad_request("اسم المستخدم مسموح فيه فقط الأحرف اللاتينية والأرقام و _ و ."));
        }
        i = i + 1;
    }
    Ok(u)
}

/// Trims and lower-cases a username, then checks it (`check_username`).
pub fn normalize_username(username: &str) -> (r: Result<String, AppError>)
    ensures
        text_outcome(r) == username_outcome(lowercase(trim(username@))),
{
    let t = trim_str(username);
    let u = to_lowercase(t.as_str());
    check_username(u)
}

// ---------------------------------------------------------------------------
// Email
// ---------------------------------------------------------------------------

pub open spec fn msg_email_long() -> Seq<char> {
    "البريد الإلكتروني طويل جداً."@
}

pub open spec fn msg_email_invalid() -> Seq<char> {
    "البريد الإلكتروني غير صالح."@
}

/// Characters allowed in the local part besides ASCII letters and digits.
pub open spec fn is_local_symbol(c: char) -> bool {
    c == '.' || c == '!' || c == '#' || c == '$' || c == '%' || c == '&' || c == '\'' || c == '*'
        || c == '+' || c == '-' || c == '/' || c == '=' || c == '?' || c == '^' || c == '_' || c
        == '`' || c == '{' || c == '|' || c == '}' || c == '~'
}

pub open spec fn is_local_char(c: char) -> bool {
    is_ascii_alphanumeric(c) || is_local_symbol(c)
}

pub open spec fn is_domain_char(c: char) -> bool {
    is_ascii_alphanumeric(c) || c == '.' || c == '-'
}

pub open spec fn is_first_index(s: Seq<char>, c: char, i: int) -> bool {
    0 <= i < s.len() && s[i] == c && forall|j: int| 0 <= j < i ==> s[j] != c
}

/// Index of the first occurrence of `c` in `s`.
pub open spec fn first_index(s: Seq<char>, c: char) -> Option<int> {
    if exists|i: int| is_first_index(s, c, i) {
        Some(choose|i: int| is_first_index(s, c, i))
    } else {
        None
    }
}

/// Outcome of checking an already trimmed and lower-cased email address.
pub open spec fn email_outcome(e: Seq<char>) -> Result<Seq<char>, ErrorView> {
    if utf8_len(e) > 254 {
        Err(ErrorView::BadRequest(msg_email_long()))
    } else {
        match first_index(e, '@') {
            None => Err(ErrorView::BadRequest(msg_email_invalid())),
            Some(at) => {
                let local = e.subrange(0, at);
                let domain = e.subrange(at + 1, e.len() as int);
                if local.len() == 0 || utf8_len(domain) < 3 || !domain.contains('.') {
                    Err(ErrorView::BadRequest(msg_email_invalid()))
                } else if !(forall|i: int| 0 <= i < local.len() ==> is_local_char(#[trigger] local[i])) {
                    Err(ErrorView::BadRequest(msg_email_invalid()))
                } else if !(forall|i: int| 0 <= i < domain.len() ==> is_domain_char(#[trigger] domain[i])) {
                    Err(ErrorView::BadRequest(msg_email_invalid()))
                } else {
                    Ok(e)
                }
            },
        }
    }
}

/// The first occurrence of `c` is at `i` when `s[i]` is `c` and no earlier
/// character is.
pub proof fn lemma_first_index_at(s: Seq<char>, c: char, i: int)
    requires
        0 <= i < s.len(),
        s[i] == c,
        forall|j: int| 0 <= j < i ==> s[j] != c,
    ensures
        first_index(s, c) == Some(i),
{
    lemma_first_index_unique(s, c, i);
}

proof fn lemma_first_index_unique(s: Seq<char>, c: char, i: int)
    requires
        is_first_index(s, c, i),
    ensures
        first_index(s, c) == Some(i),
{
    let k = choose|k: int| is_first_index(s, c, k);
    assert(is_first_index(s, c, k));
    if k < i {
        assert(s[k] == c);
    } else if k > i {
        assert(s[i] == c);
    }
}

fn local_char(c: char) -> (b: bool)
    ensures
        b == is_local_char(c),
{
    ascii_alphanumeric(c) || c == '.' || c == '!' || c == '#' || c == '$' || c == '%' || c == '&'
        || c == '\'' || c == '*' || c == '+' || c == '-' || c == '/' || c == '=' || c == '?' || c
        == '^' || c == '_' || c == '`' || c == '{' || c == '|' || c == '}' || c == '~'
}

/// Checks an email address that is already trimmed and lower-cased: at most
/// 254 bytes, a non-empty local part of allowed characters before the first
/// `@`, and a domain of at least 3 bytes holding a `.`, made of letters,
/// digits, `.` and `-`.
pub fn check_email(e: String) -> (r: Result<String, AppError>)
    ensures
        text_outcome(r) == email_outcome(e@),
{
    if byte_len(e.as_str()) > 254 {
        return Err(bad_request("البريد الإلكتروني طويل جداً."));
    }
    let v = chars_of(e.as_str());
    let mut at: usize = 0;
    while at < v.len() && v[at] != '@'
        invariant
            v@ == e@,
            at <= v@.len(),
            forall|j: int| 0 <= j < at ==> v@[j] != '@',
        decreases v@.len() - at,
    {
        at = at + 1;
    }
    if at == v.len() {
        proof {
            if exists|i: int| is_first_index(e@, '@', i) {
                let i = choose|i: int| is_first_index(e@, '@', i);
                assert(v@[i] == '@');
            }
        }
        return Err(bad_request("البريد الإلكتروني غير صالح."));
    }
    proof {
        assert(is_first_index(e@, '@', at as int));
        lemma_first_index_unique(e@, '@', at as int);
    }
    let local = crate::text::take_prefix(v.as_slice(), at);
    assert(local@ =~= e@.subrange(0, at as int));
    let mut domain: Vec<char> = Vec::new();
    let mut k: usize = at + 1;
    while k < v.len()
        invariant
            v@ == e@,
            at < v@.len(),
            at + 1 <= k <= v@.len(),
            domain@ == v@.subrange(at + 1, k as int),
        decreases v@.len() - k,
    {
        domain.push(v[k]);
        assert(v@.subrange(at + 1, k + 1) =~= v@.subrange(at + 1, k as int).push(v@[k as int]));
        k = k + 1;
    }
    assert(domain@ =~= e@.subrange(at + 1, e@.len() as int));
    let ds = string_of(domain.as_slice());
    let mut has_dot = false;
    let mut j: usize = 0;
    while j < domain.len()
        invariant
            j <= domain@.len(),
            has_dot == exists|x: int| 0 <= x < j && domain@[x] == '.',
        decreases domain@.len() - j,
    {
        if domain[j] == '.' {
            has_dot = true;
        }
        j = j + 1;
    }
    proof {
        if has_dot {
            let x = choose|x: int| 0 <= x < domain@.len() && domain@[x] == '.';
            assert(domain@.contains('.'));
        }
        if domain@.contains('.') {
            let x = choose|x: int| 0 <= x < domain@.len() && domain@[x] == '.';
            assert(has_dot);
        }
    }
    if local.len() == 0 || byte_len(ds.as_str()) < 3 || !has_dot {
        assert(first_index(e@, '@') == Some(at as int));
        assert(local@.len() == 0 || utf8_len(e@.subrange(at + 1, e@.len() as int)) < 3 || !e@.subrange(at + 1, e@.len() as int).contains('.'));
        assert(email_outcome(e@) == Err::<Seq<char>, ErrorView>(ErrorView::BadRequest(msg_email_invalid())));
        return Err(bad_request("البريد الإلكتروني غير صالح."));
    }
    let mut i: usize = 0;
    while i < local.len()
        invariant
            i <= local@.len(),
            local@ == e@.subrange(0, at as int),
            domain@ == e@.subrange(at + 1, e@.len() as int),
            first_index(e@, '@') == Some(at as int),
            utf8_len(e@) <= 254,
            local@.len() != 0,
            utf8_len(domain@) >= 3,
            domain@.contains('.'),
            forall|y: int| 0 <= y < i ==> is_local_char(#[trigger] local@[y]),
        decreases local@.len() - i,
    {
        if !local_char(local[i]) {
            assert(!is_local_char(local@[i as int]));
            return Err(bad_request("البريد الإلكتروني غير صالح."));
        }
        i = i + 1;
    }
    let mut i: usize = 0;
    while i < domain.len()
        invariant
            i <= domain@.len(),
            local@ == e@.subrange(0, at as int),
            domain@ == e@.subrange(at + 1, e@.len() as int),
            first_index(e@, '@') == Some(at as int),
            utf8_len(e@) <= 254,
            local@.len() != 0,
            utf8_len(domain@) >= 3,
            domain@.contains('.'),
            forall|y: int| 0 <= y < local@.len() ==> is_local_char(#[trigger] local@[y]),
            forall|y: int| 0 <= y < i ==> is_domain_char(#[trigger] domain@[y]),
        decreases domain@.len() - i,
    {
        let c = domain[i];
        if !(ascii_alphanumeric(c) || c == '.' || c == '-') {
            assert(!is_domain_char(domain@[i as int]));
            return Err(bad_request("البريد الإلكتروني غير صالح."));
        }
        i = i + 1;
    }
    Ok(e)
}

/// Trims and lower-cases an email address, then checks it (`check_email`).
pub fn validate_email(email: &str) -> (r: Result<String, AppError>)
    ensures
        text_outcome(r) == email_outcome(lowercase(trim(email@))),
{
    let t = trim_str(email);
    let e = to_lowercase(t.as_str());
    check_email(e)
}

// ---------------------------------------------------------------------------
// Display name and bio
// ---------------------------------------------------------------------------

pub open spec fn msg_name_empty() -> Seq<char> {
    "الاسم الظاهر لا يمكن أن يكون فارغاً."@
}

pub open spec fn msg_name_long() -> Seq<char> {
    "الاسم الظاهر طويل جداً (الحد 40 حرفاً)."@
}

pub open spec fn msg_name_invalid() -> Seq<char> {
    "الاسم الظاهر غير صالح."@
}

/// Outcome of validating a display name: trimmed, 1 to 40 characters,
/// control characters removed, and something left after that.
pub open spec fn display_name_outcome(name: Seq<char>) -> Result<Seq<char>, ErrorView> {
    let n = trim(name);
    let cleaned = strip_controls(n, false, false);
    if n.len() == 0 {
        Err(ErrorView::BadRequest(msg_name_empty()))
    } else if n.len() > 40 {
        Err(ErrorView::BadRequest(msg_name_long()))
    } else if trim(cleaned).len() == 0 {
        Err(ErrorView::BadRequest(msg_name_invalid()))
    } else {
        Ok(trim(cleaned))
    }
}

pub fn validate_display_name(name: &str) -> (r: Result<String, AppError>)
    ensures
        text_outcome(r) == display_name_outcome(name@),
{
    let v = chars_of(name);
    let n = trim_chars(v.as_slice());
    if n.len() == 0 {
        return Err(bad_request("الاسم الظاهر لا يمكن أن يكون فارغاً."));
    }
    if n.len() > 40 {
        return Err(bad_request("الاسم الظاهر طويل جداً (الحد 40 حرفاً)."));
    }
    let cleaned = remove_controls(n.as_slice(), false, false);
    let t = trim_chars(cleaned.as_slice());
    if t.len() == 0 {
        return Err(bad_request("الاسم الظاهر غير صالح."));
    }
    Ok(string_of(t.as_slice()))
}

pub open spec fn msg_bio_long() -> Seq<char> {
    "السيرة الذاتية طويلة جداً (الحد 300 حرفاً)."@
}

/// Outcome of validating a bio: trimmed, at most 300 characters, control
/// characters other than newline removed.
pub open spec fn bio_outcome(bio: Seq<char>) -> Result<Seq<char>, ErrorView> {
    let b = trim(bio);
    if b.len() > 300 {
        Err(ErrorView::BadRequest(msg_bio_long()))
    } else {
        Ok(strip_controls(b, true, false))
    }
}

pub fn validate_bio(bio: &str) -> (r: Result<String, AppError>)
    ensures
        text_outcome(r) == bio_outcome(bio@),
{
    let v = chars_of(bio);
    let b = trim_chars(v.as_slice());
    if b.len() > 300 {
        return Err(bad_request("السيرة الذاتية طويلة جداً (الحد 300 حرفاً)."));
    }
    let kept = remove_controls(b.as_slice(), true, false);
    Ok(string_of(kept.as_slice()))
}

// ---------------------------------------------------------------------------
// Interests
// ---------------------------------------------------------------------------

pub open spec fn msg_interests_max() -> Seq<char> {
    "الحد الأقصى 20 اهتماماً."@
}

pub open spec fn msg_interest_length() -> Seq<char> {
    "كل اهتمام يجب أن يكون بين 1 و 32 حرفاً."@
}

pub open spec fn msg_interest_invalid() -> Seq<char> {
    "قيمة اهتمام غير صالحة."@
}

pub open spec fn has_control_char(s: Seq<char>) -> bool {
    exists|i: int| 0 <= i < s.len() && is_control(#[trigger] s[i])
}

/// One step over a normalized interest: reject it, or keep it unless it was
/// already kept.
pub open spec fn interests_step(
    acc: Result<Seq<Seq<char>>, ErrorView>,
    t: Seq<char>,
) -> Result<Seq<Seq<char>>, ErrorView> {
    match acc {
        Err(e) => Err(e),
        Ok(kept) => if t.len() == 0 || t.len() > 32 {
            Err(ErrorView::BadRequest(msg_interest_length()))
        } else if has_control_char(t) {
            Err(ErrorView::BadRequest(msg_interest_invalid()))
        } else if kept.contains(t) {
            Ok(kept)
        } else {
            Ok(kept.push(t))
        },
    }
}

pub open spec fn interests_fold(ts: Seq<Seq<char>>) -> Result<Seq<Seq<char>>, ErrorView>
    decreases ts.len(),
{
    if ts.len() == 0 {
        Ok(Seq::empty())
    } else {
        interests_step(interests_fold(ts.drop_last()), ts.last())
    }
}

/// Outcome of validating already trimmed and lower-cased interests: at most
/// 20, each 1 to 32 characters without control characters; duplicates are
/// dropped, first occurrences kept in order.
pub open spec fn interests_outcome(ts: Seq<Seq<char>>) -> Result<Seq<Seq<char>>, ErrorView> {
    if ts.len() > 20 {
        Err(ErrorView::BadRequest(msg_interests_max()))
    } else {
        interests_fold(ts)
    }
}

pub open spec fn views_of(v: Seq<String>) -> Seq<Seq<char>> {
    v.map_values(|s: String| s@)
}

pub open spec fn list_outcome(r: Result<Vec<String>, AppError>) -> Result<Seq<Seq<char>>, ErrorView> {
    match r {
        Ok(v) => Ok(views_of(v@)),
        Err(e) => Err(e@),
    }
}

/// Checks and de-duplicates interests that are already trimmed and
/// lower-cased (see `interests_outcome`).
pub fn check_interests(ts: &Vec<String>) -> (r: Result<Vec<String>, AppError>)
    ensures
        list_outcome(r) == interests_outcome(views_of(ts@)),
{
    if ts.len() > 20 {
        return Err(bad_request("الحد الأقصى 20 اهتماماً."));
    }
    let mut out: Vec<String> = Vec::new();
    let mut seen = StringHashSet::new();
    let mut i: usize = 0;
    assert(views_of(ts@).take(0) =~= Seq::<Seq<char>>::empty());
    assert(views_of(out@) =~= Seq::<Seq<char>>::empty());
    assert(views_of(out@).to_set() =~= seen@);
    while i < ts.len()
        invariant
            i <= ts@.len(),
            ts@.len() <= 20,
            interests_fold(views_of(ts@).take(i as int)) == Ok::<Seq<Seq<char>>, ErrorView>(
                views_of(out@),
            ),
            seen@ == views_of(out@).to_set(),
        decreases ts@.len() - i,
    {
        let t = &ts[i];
        proof {
            assert(views_of(ts@).take(i + 1).drop_last() =~= views_of(ts@).take(i as int));
            assert(views_of(ts@).take(i + 1).last() == t@);
        }
        let cs = chars_of(t.as_str());
        proof {
            if has_control_char(t@) {
                let x = choose|x: int| 0 <= x < t@.len() && is_control(#[trigger] t@[x]);
                assert(is_control(cs@[x]));
            }
        }
        if cs.len() == 0 || cs.len() > 32 {
            proof {
                assert(interests_fold(views_of(ts@).take(i + 1)) == Err::<Seq<Seq<char>>, ErrorView>(
                    ErrorView::BadRequest(msg_interest_length())));
                lemma_fold_err_sticky(views_of(ts@), i + 1);
                assert(interests_outcome(views_of(ts@)) == Err::<Seq<Seq<char>>, ErrorView>(
                    ErrorView::BadRequest(msg_interest_length())));
            }
            return Err(bad_request("كل اهتمام يجب أن يكون بين 1 و 32 حرفاً."));
        }
        if has_control(cs.as_slice()) {
            proof {
                assert(interests_fold(views_of(ts@).take(i + 1)) == Err::<Seq<Seq<char>>, ErrorView>(
                    ErrorView::BadRequest(msg_interest_invalid())));
                lemma_fold_err_sticky(views_of(ts@), i + 1);
                assert(interests_outcome(views_of(ts@)) == Err::<Seq<Seq<char>>, ErrorView>(
                    ErrorView::BadRequest(msg_interest_invalid())));
            }
            return Err(bad_request("قيمة اهتمام غير صالحة."));
        }
        proof {
            assert(has_control_char(t@) ==> false);
        }
        let ghost before = seen@;
        if seen.insert(t.clone()) {
            let ghost prev = out@;
            out.push(t.clone());
            assert(views_of(out@) =~= views_of(prev).push(t@));
            assert(views_of(out@).to_set() =~= before.insert(t@)) by {
                lemma_push_to_set(views_of(prev), t@);
            }
        } else {
            assert(seen@ =~= before);
        }
        proof {
            assert(views_of(out@).contains(t@) <==> views_of(out@).to_set().contains(t@));
        }
        i = i + 1;
    }
    assert(views_of(ts@).take(ts@.len() as int) =~= views_of(ts@));
    Ok(out)
}

proof fn lemma_push_to_set(s: Seq<Seq<char>>, x: Seq<char>)
    ensures
        s.push(x).to_set() == s.to_set().insert(x),
{
    assert forall|y: Seq<char>| #[trigger] s.push(x).contains(y) <==> s.contains(y) || y == x by {
        if s.contains(y) {
            let k = choose|k: int| 0 <= k < s.len() && s[k] == y;
            assert(s.push(x)[k] == y);
        }
        if y == x {
            assert(s.push(x)[s.len() as int] == y);
        }
        if s.push(x).contains(y) && y != x {
            let k = choose|k: int| 0 <= k < s.len() + 1 && s.push(x)[k] == y;
            assert(s[k] == y);
        }
    }
    assert(s.push(x).to_set() =~= s.to_set().insert(x));
}

proof fn lemma_fold_err_sticky(ts: Seq<Seq<char>>, k: int)
    requires
        0 <= k <= ts.len(),
        interests_fold(ts.take(k)) is Err,
    ensures
        interests_fold(ts) == interests_fold(ts.take(k)),
    decreases ts.len() - k,
{
    if k == ts.len() {
        assert(ts.take(k) =~= ts);
    } else {
        assert(ts.take(k + 1).drop_last() =~= ts.take(k));
        lemma_fold_err_sticky(ts, k + 1);
    }
}


/// An interest as it is stored: trimmed, then lower-cased.
pub open spec fn normalized_interest(s: Seq<char>) -> Seq<char> {
    lowercase(trim(s))
}

pub open spec fn normalized_interests(list: Seq<String>) -> Seq<Seq<char>> {
    list.map_values(|s: String| normalized_interest(s@))
}

/// Trims and lower-cases each interest, then checks and de-duplicates them
/// (see `interests_outcome`).
pub fn validate_interests(list: &[String]) -> (r: Result<Vec<String>, AppError>)
    ensures
        list_outcome(r) == interests_outcome(normalized_interests(list@)),
{
    if list.len() > 20 {
        return Err(bad_request("الحد الأقصى 20 اهتماماً."));
    }
    let mut ts: Vec<String> = Vec::new();
    let mut i: usize = 0;
    while i < list.len()
        invariant
            i <= list@.len(),
            views_of(ts@) == normalized_interests(list@).take(i as int),
        decreases list@.len() - i,
    {
        let t = trim_str(list[i].as_str());
        let l = to_lowercase(t.as_str());
        let ghost prev = ts@;
        ts.push(l);
        assert(views_of(ts@) =~= views_of(prev).push(normalized_interest(list@[i as int]@)));
        assert(normalized_interests(list@).take(i + 1) =~= normalized_interests(list@).take(
            i as int,
        ).push(normalized_interest(list@[i as int]@)));
        i = i + 1;
    }
    assert(normalized_interests(list@).take(list@.len() as int) =~= normalized_interests(list@));
    check_interests(&ts)
}

} // verus!
