//! Authentication: password policy, Argon2id hashing, token claims, the
//! stored form of refresh tokens, and where a request carries its token.
use argon2::{PasswordHasher, PasswordVerifier};
use sha2::Digest;
use vstd::prelude::*;
use vstd::utf8::{decode_utf8, encode_utf8, valid_utf8};

use crate::error::{bad_request, internal, unauthorized, unit_outcome, AppError, ErrorView};
use crate::ids::{hex_digit, uuid_parse, uuid_string, uuid_text, uuid_from_str};
use crate::text::{
    ascii_digit, chars_of, has_prefix, opt_view, is_ascii_digit, is_uppercase, is_lowercase, string_of,
    trim, trim_chars, unicode_lowercase, unicode_uppercase, utf8_len,
};

verus! {

// ---------------------------------------------------------------------------
// Password policy
// ---------------------------------------------------------------------------

pub open spec fn msg_password_short() -> Seq<char> {
    "كلمة المرور يجب أن تكون 10 أحرف على الأقل."@
}

pub open spec fn msg_password_long() -> Seq<char> {
    "كلمة المرور طويلة جداً (الحد 128 حرفاً)."@
}

pub open spec fn msg_password_weak() -> Seq<char> {
    "كلمة المرور يجب أن تحتوي على حرف كبير وحرف صغير ورقم على الأقل."@
}

/// The policy on a password's length in characters and its character
/// classes.
pub open spec fn password_verdict_spec(len: usize, upper: bool, lower: bool, digit: bool) -> Result<(), ErrorView> {
    if len < 10 {
        Err(ErrorView::BadRequest(msg_password_short()))
    } else if len > 128 {
        Err(ErrorView::BadRequest(msg_password_long()))
    } else if !(upper && lower && digit) {
        Err(ErrorView::BadRequest(msg_password_weak()))
    } else {
        Ok(())
    }
}

pub open spec fn has_upper(s: Seq<char>) -> bool {
    exists|i: int| 0 <= i < s.len() && unicode_uppercase(#[trigger] s[i])
}

pub open spec fn has_lower(s: Seq<char>) -> bool {
    exists|i: int| 0 <= i < s.len() && unicode_lowercase(#[trigger] s[i])
}

pub open spec fn has_digit(s: Seq<char>) -> bool {
    exists|i: int| 0 <= i < s.len() && is_ascii_digit(#[trigger] s[i])
}

/// 10 to 128 characters, with an upper-case letter, a lower-case letter and
/// an ASCII digit.
pub open spec fn password_outcome(pw: Seq<char>) -> Result<(), ErrorView> {
    password_verdict_spec(pw.len() as usize, has_upper(pw), has_lower(pw), has_digit(pw))
}

/// The policy decision from the measured facts about a password.
pub fn password_verdict(len: usize, upper: bool, lower: bool, digit: bool) -> (r: Result<(), AppError>)
    ensures
        unit_outcome(r) == password_verdict_spec(len, upper, lower, digit),
{
    if len < 10 {
        return Err(bad_request("كلمة المرور يجب أن تكون 10 أحرف على الأقل."));
    }
    if len > 128 {
        return Err(bad_request("كلمة المرور طويلة جداً (الحد 128 حرفاً)."));
    }
    if !(upper && lower && digit) {
        return Err(bad_request("كلمة المرور يجب أن تحتوي على حرف كبير وحرف صغير ورقم على الأقل."));
    }
    Ok(())
}

/// Strong password policy: 10-128 characters, must contain lower, upper,
/// digit.
pub fn validate_password(pw: &str) -> (r: Result<(), AppError>)
    ensures
        unit_outcome(r) == password_outcome(pw@),
{
    let v = chars_of(pw);
    let n = v.len();
    let mut up = false;
    let mut low = false;
    let mut dig = false;
    let mut i: usize = 0;
    while i < v.len()
        invariant
            v@ == pw@,
            i <= v@.len(),
            up == exists|j: int| 0 <= j < i && unicode_uppercase(#[trigger] v@[j]),
            low == exists|j: int| 0 <= j < i && unicode_lowercase(#[trigger] v@[j]),
            dig == exists|j: int| 0 <= j < i && is_ascii_digit(#[trigger] v@[j]),
        decreases v@.len() - i,
    {
        let c = v[i];
        if is_uppercase(c) {
            up = true;
        }
        if is_lowercase(c) {
            low = true;
        }
        if ascii_digit(c) {
            dig = true;
        }
        proof {
            assert(up == exists|j: int| 0 <= j < i + 1 && unicode_uppercase(#[trigger] v@[j])) by {
                if exists|j: int| 0 <= j < i + 1 && unicode_uppercase(#[trigger] v@[j]) {
                    let j = choose|j: int| 0 <= j < i + 1 && unicode_uppercase(#[trigger] v@[j]);
                }
            }
            assert(low == exists|j: int| 0 <= j < i + 1 && unicode_lowercase(#[trigger] v@[j])) by {
                if exists|j: int| 0 <= j < i + 1 && unicode_lowercase(#[trigger] v@[j]) {
                    let j = choose|j: int| 0 <= j < i + 1 && unicode_lowercase(#[trigger] v@[j]);
                }
            }
            assert(dig == exists|j: int| 0 <= j < i + 1 && is_ascii_digit(#[trigger] v@[j])) by {
                if exists|j: int| 0 <= j < i + 1 && is_ascii_digit(#[trigger] v@[j]) {
                    let j = choose|j: int| 0 <= j < i + 1 && is_ascii_digit(#[trigger] v@[j]);
                }
            }
        }
        i = i + 1;
    }
    password_verdict(n, up, low, dig)
}

// ---------------------------------------------------------------------------
// Argon2id password hashing
// ---------------------------------------------------------------------------

/// Whether `argon2` accepts `password` against the PHC string `hash`
/// (`PasswordHash::new` then `Argon2::verify_password`).
pub uninterp spec fn argon2_accepts(password: Seq<char>, hash: Seq<char>) -> bool;

/// The start of every PHC string that `Argon2::default()` produces.
pub open spec fn argon2id_prefix() -> Seq<char> {
    "$argon2id$"@
}

/// The longest password `argon2` hashes, in bytes (`MAX_PWD_LEN`).
pub open spec fn max_password_bytes() -> nat {
    0xFFFF_FFFF
}

/// Hashes with `Argon2::default()` (Argon2id) and a fresh salt from the OS
/// generator, then renders the PHC string.  The hash is random; what is
/// stated is that it starts with `$argon2id$`, that `argon2` accepts the
/// password against it (verification recomputes the hash with the
/// parameters and salt recorded in it), and that hashing succeeds for
/// every password of at most `MAX_PWD_LEN` bytes: with the default
/// parameters and a generated salt that is the only check that can fail.
/// On failure, `argon2`'s error text.
#[verifier::external_body]
fn argon2_hash(password: &str) -> (r: Result<String, String>)
    ensures
        r matches Ok(h) ==> argon2_accepts(password@, h@) && has_prefix(h@, argon2id_prefix()),
        utf8_len(password@) <= max_password_bytes() ==> r is Ok,
{
    let salt = argon2::password_hash::SaltString::generate(
        &mut argon2::password_hash::rand_core::OsRng,
    );
    match argon2::Argon2::default().hash_password(password.as_bytes(), &salt) {
        Ok(h) => Ok(h.to_string()),
        Err(e) => Err(e.to_string()),
    }
}

/// Whether a string cannot be a PHC string: `PasswordHash::new` refuses an
/// empty string and one that does not start with `$`.
pub open spec fn not_phc(hash: Seq<char>) -> bool {
    hash.len() == 0 || hash[0] != '$'
}

/// Parses `hash` with `PasswordHash::new` and checks `password` against it
/// with `Argon2::default().verify_password`; an unparsable hash is refused.
#[verifier::external_body]
fn argon2_check(password: &str, hash: &str) -> (r: bool)
    ensures
        r == argon2_accepts(password@, hash@),
        not_phc(hash@) ==> !r,
{
    match argon2::password_hash::PasswordHash::new(hash) {
        Ok(parsed) => argon2::Argon2::default().verify_password(password.as_bytes(), &parsed).is_ok(),
        Err(_) => false,
    }
}

pub open spec fn msg_hashing_prefix() -> Seq<char> {
    "hashing failed: "@
}

/// Argon2id hash of a password, as a PHC string starting `$argon2id$`.  A
/// hash it returns verifies the same password; hashing succeeds for every
/// password of at most 0xFFFFFFFF bytes; a failure is an internal error
/// carrying argon2's reason.
pub fn hash_password(password: &str) -> (r: Result<String, AppError>)
    ensures
        r matches Ok(h) ==> argon2_accepts(password@, h@) && has_prefix(h@, argon2id_prefix()),
        utf8_len(password@) <= max_password_bytes() ==> r is Ok,
        r matches Err(e) ==> exists|reason: Seq<char>| e@ == ErrorView::Internal(msg_hashing_prefix() + reason),
{
    match argon2_hash(password) {
        Ok(h) => Ok(h),
        Err(e) => {
            let m = crate::error::concat("hashing failed: ", e.as_str());
            let r = AppError::Internal(m);
            assert(r@ == ErrorView::Internal(msg_hashing_prefix() + e@));
            Err(r)
        },
    }
}

/// Whether `password` matches the stored `hash`; a string that is no PHC
/// string is refused.
pub fn verify_password(password: &str, hash: &str) -> (r: bool)
    ensures
        r == argon2_accepts(password@, hash@),
        not_phc(hash@) ==> !r,
{
    argon2_check(password, hash)
}

pub open spec fn msg_bad_credentials() -> Seq<char> {
    "بيانات الدخول غير صحيحة."@
}

/// The login decision for the stored password hash of the active account
/// found for the identifier, if any: the same refusal for an unknown
/// account and for a wrong password, so accounts cannot be enumerated.
pub fn login_verdict(password: &str, stored_hash: Option<&str>) -> (r: Result<(), AppError>)
    ensures
        r is Ok <==> (stored_hash matches Some(h) && argon2_accepts(password@, h@)),
        r matches Err(e) ==> e@ == ErrorView::Unauthorized(msg_bad_credentials()),
{
    match stored_hash {
        Some(h) => if verify_password(password, h) {
            Ok(())
        } else {
            Err(unauthorized("بيانات الدخول غير صحيحة."))
        },
        None => Err(unauthorized("بيانات الدخول غير صحيحة.")),
    }
}

// ---------------------------------------------------------------------------
// Token claims
// ---------------------------------------------------------------------------

/// JWT claims: subject (user id), username, issued-at and expiry (seconds
/// since the epoch), and the refresh-token id for refresh tokens.
#[derive(Debug, Clone)]
pub struct Claims {
    pub sub: String,
    pub username: String,
    pub iat: usize,
    pub exp: usize,
    pub jti: Option<String>,
}

/// Model of [`Claims`]: text as character sequences.
pub struct ClaimsView {
    pub sub: Seq<char>,
    pub username: Seq<char>,
    pub iat: usize,
    pub exp: usize,
    pub jti: Option<Seq<char>>,
}

impl View for Claims {
    type V = ClaimsView;

    open spec fn view(&self) -> ClaimsView {
        ClaimsView {
            sub: self.sub@,
            username: self.username@,
            iat: self.iat,
            exp: self.exp,
            jti: opt_view(self.jti),
        }
    }
}

/// The claims of an access token for `user_id` issued at `now` for `ttl`
/// seconds.
pub open spec fn access_claims_spec(user_id: u128, username: Seq<char>, now: usize, ttl: usize) -> ClaimsView {
    ClaimsView { sub: uuid_text(user_id), username, iat: now, exp: (now + ttl) as usize, jti: None }
}

/// The claims of a refresh token with id `jti`; its username is empty.
pub open spec fn refresh_claims_spec(user_id: u128, jti: Seq<char>, now: usize, ttl: usize) -> ClaimsView {
    ClaimsView {
        sub: uuid_text(user_id),
        username: Seq::empty(),
        iat: now,
        exp: (now + ttl) as usize,
        jti: Some(jti),
    }
}

/// Claims of an access token issued at `now` for `ttl` seconds.
pub fn access_claims(user_id: u128, username: &str, now: usize, ttl: usize) -> (c: Claims)
    requires
        now + ttl <= usize::MAX,
    ensures
        c.sub@ == uuid_text(user_id),
        c.username@ == username@,
        c.iat == now,
        c.exp == now + ttl,
        c.jti is None,
        c@ == access_claims_spec(user_id, username@, now, ttl),
{
    Claims { sub: uuid_string(user_id), username: username.to_owned(), iat: now, exp: now + ttl, jti: None }
}

/// Claims of a refresh token with id `jti` issued at `now` for `ttl`
/// seconds; its username is empty.
pub fn refresh_claims(user_id: u128, jti: &str, now: usize, ttl: usize) -> (c: Claims)
    requires
        now + ttl <= usize::MAX,
    ensures
        c.sub@ == uuid_text(user_id),
        c.username@ == Seq::<char>::empty(),
        c.iat == now,
        c.exp == now + ttl,
        c.jti matches Some(j) && j@ == jti@,
        c@ == refresh_claims_spec(user_id, jti@, now, ttl),
{
    Claims {
        sub: uuid_string(user_id),
        username: String::new(),
        iat: now,
        exp: now + ttl,
        jti: Some(jti.to_owned()),
    }
}

/// The user a verified access token identifies.
#[derive(Debug, Clone)]
pub struct AuthedUser {
    pub user_id: u128,
    pub username: String,
}

pub open spec fn msg_bad_token() -> Seq<char> {
    "رمز غير صالح."@
}

pub open spec fn msg_login_required() -> Seq<char> {
    "يجب تسجيل الدخول أولاً."@
}

/// The authenticated user named by verified access-token claims; a subject
/// that is not a UUID is refused.
pub fn authed_user_from_claims(claims: Claims) -> (r: Result<AuthedUser, AppError>)
    ensures
        match r {
            Ok(u) => uuid_parse(claims.sub@) == Some(u.user_id) && u.username@ == claims.username@,
            Err(e) => uuid_parse(claims.sub@) is None && e@ == ErrorView::Unauthorized(msg_bad_token()),
        },
{
    match uuid_from_str(claims.sub.as_str()) {
        Ok(id) => Ok(AuthedUser { user_id: id, username: claims.username }),
        Err(_) => Err(unauthorized("رمز غير صالح.")),
    }
}

/// The token of a request: the bearer token, else the `token` query
/// parameter, else the request is refused.
pub fn select_token(bearer: Option<String>, query: Option<String>) -> (r: Result<String, AppError>)
    ensures
        match (bearer, query) {
            (Some(b), _) => r matches Ok(t) && t@ == b@,
            (None, Some(q)) => r matches Ok(t) && t@ == q@,
            (None, None) => r matches Err(e) && e@ == ErrorView::Unauthorized(msg_login_required()),
        },
{
    match bearer {
        Some(b) => Ok(b),
        None => match query {
            Some(q) => Ok(q),
            None => Err(unauthorized("يجب تسجيل الدخول أولاً.")),
        },
    }
}

/// The user id and token id carried by refresh-token claims: a token
/// without an id, or with a subject that is not a UUID, is refused.
pub fn refresh_subject(claims: &Claims) -> (r: Result<(u128, String), AppError>)
    ensures
        match r {
            Ok((id, jti)) => claims.jti matches Some(j) && j@ == jti@ && uuid_parse(claims.sub@) == Some(id),
            Err(e) => (claims.jti is None || uuid_parse(claims.sub@) is None) && e@
                == ErrorView::Unauthorized(msg_bad_token()),
        },
{
    let jti = match &claims.jti {
        Some(j) => j.clone(),
        None => return Err(unauthorized("رمز غير صالح.")),
    };
    match uuid_from_str(claims.sub.as_str()) {
        Ok(id) => Ok((id, jti)),
        Err(_) => Err(unauthorized("رمز غير صالح.")),
    }
}

// ---------------------------------------------------------------------------
// Stored form of refresh tokens: hex(SHA-256(token))
// ---------------------------------------------------------------------------

/// What `sha2::Sha256` digests a byte string to.
pub uninterp spec fn sha256(data: Seq<u8>) -> Seq<u8>;

/// SHA-256 of `data` (`Sha256::digest`): 32 bytes.
#[verifier::external_body]
fn sha256_digest(data: &[u8]) -> (r: Vec<u8>)
    ensures
        r@ == sha256(data@),
        r@.len() == 32,
{
    sha2::Sha256::digest(data).to_vec()
}

/// Lower-case hexadecimal, two digits per byte, high nibble first.
pub open spec fn hex_lower(data: Seq<u8>) -> Seq<char> {
    Seq::new(
        2 * data.len(),
        |i: int|
            if i % 2 == 0 {
                hex_digit((data[i / 2] / 16) as u128)
            } else {
                hex_digit((data[i / 2] % 16) as u128)
            },
    )
}

/// `hex::encode` of a byte string.
#[verifier::external_body]
fn hex_encode(data: &[u8]) -> (r: String)
    ensures
        r@ == hex_lower(data@),
{
    hex::encode(data)
}

/// Lower-case hexadecimal SHA-256 of a byte string (the checksum recorded
/// for a stored upload).
pub fn sha256_hex(data: &[u8]) -> (r: String)
    ensures
        r@ == hex_lower(sha256(data@)),
        r@.len() == 64,
{
    let d = sha256_digest(data);
    hex_encode(d.as_slice())
}

/// The value stored for a refresh token: hex(SHA-256(UTF-8 bytes)).
pub fn refresh_hash(token: &str) -> (r: String)
    ensures
        r@ == hex_lower(sha256(encode_utf8(token@))),
        r@.len() == 64,
{
    sha256_hex(token.as_bytes())
}

// ---------------------------------------------------------------------------
// Where a request carries its token
// ---------------------------------------------------------------------------

pub open spec fn bearer_prefix() -> Seq<char> {
    seq!['B', 'e', 'a', 'r', 'e', 'r', ' ']
}

/// The token of an `Authorization` header value: what follows `Bearer `,
/// trimmed; `None` without that prefix.
pub open spec fn bearer_spec(h: Seq<char>) -> Option<Seq<char>> {
    if h.len() >= 7 && h.take(7) == bearer_prefix() {
        Some(trim(h.skip(7)))
    } else {
        None
    }
}

pub fn bearer_token(header: &str) -> (r: Option<String>)
    ensures
        match r {
            Some(t) => bearer_spec(header@) == Some(t@),
            None => bearer_spec(header@) is None,
        },
{
    let v = chars_of(header);
    let p: Vec<char> = vec!['B', 'e', 'a', 'r', 'e', 'r', ' '];
    assert(p@ =~= bearer_prefix());
    if !crate::text::starts_with_chars(v.as_slice(), p.as_slice()) {
        return None;
    }
    let mut rest: Vec<char> = Vec::new();
    let mut i: usize = 7;
    while i < v.len()
        invariant
            7 <= v@.len(),
            7 <= i <= v@.len(),
            rest@ == v@.subrange(7, i as int),
        decreases v@.len() - i,
    {
        rest.push(v[i]);
        assert(v@.subrange(7, i + 1) =~= v@.subrange(7, i as int).push(v@[i as int]));
        i = i + 1;
    }
    assert(rest@ =~= header@.skip(7));
    let t = trim_chars(rest.as_slice());
    Some(string_of(t.as_slice()))
}

/// Number of leading characters of `s` before the first `c` (all of `s`
/// when it holds no `c`).
pub open spec fn span_until(s: Seq<char>, c: char) -> nat
    decreases s.len(),
{
    if s.len() == 0 || s[0] == c {
        0
    } else {
        1 + span_until(s.drop_first(), c)
    }
}

pub open spec fn token_key() -> Seq<char> {
    seq!['t', 'o', 'k', 'e', 'n', '=']
}

/// The raw value of the first `&`-separated part of a query string that
/// starts with `token=`.
pub open spec fn query_token_raw(q: Seq<char>) -> Option<Seq<char>>
    decreases q.len(),
{
    let end: int = span_until(q, '&') as int;
    let part = q.take(end as int);
    if part.len() >= 6 && part.take(6) == token_key() {
        Some(part.skip(6))
    } else if end >= q.len() {
        None
    } else {
        query_token_raw(q.skip(end + 1 as int))
    }
}

/// `span_until` is the index of the first `c`, or the length without one.
pub proof fn lemma_span_until(s: Seq<char>, c: char, k: int)
    requires
        0 <= k <= s.len(),
        forall|j: int| 0 <= j < k ==> s[j] != c,
        k == s.len() || s[k] == c,
    ensures
        span_until(s, c) == k,
    decreases k,
{
    if k > 0 {
        lemma_span_until(s.drop_first(), c, k - 1);
    }
}

pub open spec fn hex_value(b: u8) -> Option<u8> {
    if 48 <= b <= 57 {
        Some((b - 48) as u8)
    } else if 97 <= b <= 102 {
        Some((b - 87) as u8)
    } else if 65 <= b <= 70 {
        Some((b - 55) as u8)
    } else {
        None
    }
}

/// `u8::from_str_radix` of the two-byte string `b1 b2` in base 16: an
/// optional leading `+`, then hexadecimal digits.
pub open spec fn hex_pair(b1: u8, b2: u8) -> Option<u8> {
    if b1 == 43 {
        hex_value(b2)
    } else {
        match (hex_value(b1), hex_value(b2)) {
            (Some(h), Some(l)) => Some((h * 16 + l) as u8),
            _ => None,
        }
    }
}

/// Percent-decoding of bytes: `%` followed by two more bytes that parse as
/// a hexadecimal byte is replaced by that byte; everything else is kept.
pub open spec fn pct_decode(b: Seq<u8>) -> Seq<u8>
    decreases b.len(),
{
    if b.len() == 0 {
        Seq::empty()
    } else if b[0] == 37 && 2 < b.len() && hex_pair(b[1], b[2]) is Some {
        seq![hex_pair(b[1], b[2])->0] + pct_decode(b.skip(3))
    } else {
        seq![b[0]] + pct_decode(b.skip(1))
    }
}

/// The decoding never slices a string inside a character: wherever it
/// looks at a `%` with two more bytes, the byte after those starts a
/// character (or is the end).
pub open spec fn pct_safe(b: Seq<u8>) -> bool
    decreases b.len(),
{
    if b.len() == 0 {
        true
    } else if b[0] == 37 && 2 < b.len() {
        (b.len() == 3 || !(0x80 <= b[3] && b[3] <= 0xbf)) && if hex_pair(b[1], b[2]) is Some {
            pct_safe(b.skip(3))
        } else {
            pct_safe(b.skip(1))
        }
    } else {
        pct_safe(b.skip(1))
    }
}

/// What `String::from_utf8_lossy` makes of a byte string.
pub uninterp spec fn utf8_lossy(b: Seq<u8>) -> Seq<char>;

/// `String::from_utf8_lossy`: invalid sequences become U+FFFD; valid UTF-8
/// is decoded unchanged.
#[verifier::external_body]
fn lossy_string(b: &[u8]) -> (r: String)
    ensures
        r@ == utf8_lossy(b@),
        valid_utf8(b@) ==> r@ == decode_utf8(b@),
{
    String::from_utf8_lossy(b).into_owned()
}

fn hex_val(b: u8) -> (r: Option<u8>)
    ensures
        r == hex_value(b),
{
    if 48 <= b && b <= 57 {
        Some(b - 48)
    } else if 97 <= b && b <= 102 {
        Some(b - 87)
    } else if 65 <= b && b <= 70 {
        Some(b - 55)
    } else {
        None
    }
}

fn hex_pair_value(b1: u8, b2: u8) -> (r: Option<u8>)
    ensures
        r == hex_pair(b1, b2),
{
    if b1 == 43 {
        hex_val(b2)
    } else {
        match (hex_val(b1), hex_val(b2)) {
            (Some(h), Some(l)) => Some(h * 16 + l),
            _ => None,
        }
    }
}

/// Whether `percent_decode` can run on `s` (see `pct_safe`).
pub fn percent_decode_safe(s: &str) -> (r: bool)
    ensures
        r == pct_safe(encode_utf8(s@)),
{
    let b = s.as_bytes();
    let mut i: usize = 0;
    let mut ok = true;
    assert(b@.skip(0) =~= b@);
    while i < b.len()
        invariant
            b@ == encode_utf8(s@),
            i <= b@.len(),
            pct_safe(b@) == (ok && pct_safe(b@.skip(i as int))),
        decreases b@.len() - i,
    {
        let ghost rest = b@.skip(i as int);
        if b[i] == 37 && b.len() - i > 2 {
            if !(i + 3 == b.len() || !(0x80 <= b[i + 3] && b[i + 3] <= 0xbf)) {
                ok = false;
            }
            proof {
                assert(rest[0] == b@[i as int] && rest[1] == b@[i + 1] && rest[2] == b@[i + 2]);
                if rest.len() > 3 {
                    assert(rest[3] == b@[i + 3]);
                }
            }
            if hex_pair_value(b[i + 1], b[i + 2]).is_some() {
                assert(rest.skip(3) =~= b@.skip(i + 3));
                i = i + 3;
            } else {
                assert(rest.skip(1) =~= b@.skip(i + 1));
                i = i + 1;
            }
        } else {
            assert(rest.skip(1) =~= b@.skip(i + 1));
            i = i + 1;
        }
    }
    ok
}

/// Percent-decoding of the bytes of `s`, then lossy UTF-8 decoding.
pub fn percent_decode(s: &str) -> (r: String)
    requires
        pct_safe(encode_utf8(s@)),
    ensures
        r@ == utf8_lossy(pct_decode(encode_utf8(s@))),
        valid_utf8(pct_decode(encode_utf8(s@))) ==> r@ == decode_utf8(pct_decode(encode_utf8(s@))),
{
    let b = s.as_bytes();
    let mut out: Vec<u8> = Vec::new();
    let mut i: usize = 0;
    assert(b@.skip(0) =~= b@);
    while i < b.len()
        invariant
            b@ == encode_utf8(s@),
            i <= b@.len(),
            pct_decode(b@) == out@ + pct_decode(b@.skip(i as int)),
        decreases b@.len() - i,
    {
        let ghost rest = b@.skip(i as int);
        if b[i] == 37 && b.len() - i > 2 {
            proof {
                assert(rest[0] == b@[i as int] && rest[1] == b@[i + 1] && rest[2] == b@[i + 2]);
            }
            match hex_pair_value(b[i + 1], b[i + 2]) {
                Some(v) => {
                    out.push(v);
                    assert(rest.skip(3) =~= b@.skip(i + 3));
                    i = i + 3;
                    continue;
                },
                None => {},
            }
        }
        out.push(b[i]);
        assert(rest.skip(1) =~= b@.skip(i + 1));
        i = i + 1;
    }
    assert(b@.skip(b@.len() as int) =~= Seq::<u8>::empty());
    assert(out@ + Seq::<u8>::empty() =~= out@);
    lossy_string(out.as_slice())
}

/// The `token` query parameter, percent-decoded.
pub open spec fn query_token_spec(q: Seq<char>) -> Option<Seq<char>> {
    match query_token_raw(q) {
        Some(v) => Some(utf8_lossy(pct_decode(encode_utf8(v)))),
        None => None,
    }
}

/// Whether the `token` query parameter, if any, can be percent-decoded.
pub open spec fn query_token_safe(q: Seq<char>) -> bool {
    match query_token_raw(q) {
        Some(v) => pct_safe(encode_utf8(v)),
        None => true,
    }
}

/// The raw value of the first `token=` part of a query string.
pub fn query_token_value(q: &str) -> (r: Option<String>)
    ensures
        match r {
            Some(t) => query_token_raw(q@) == Some(t@),
            None => query_token_raw(q@) is None,
        },
{
    let v = chars_of(q);
    let key: Vec<char> = vec!['t', 'o', 'k', 'e', 'n', '='];
    assert(key@ =~= token_key());
    let mut start: usize = 0;
    assert(v@.skip(0) =~= v@);
    while start <= v.len()
        invariant
            v@ == q@,
            start <= v@.len() + 1,
            start <= v@.len() ==> query_token_raw(q@) == query_token_raw(v@.skip(start as int)),
            start > v@.len() ==> query_token_raw(q@) is None,
            key@ == token_key(),
        decreases v@.len() + 1 - start,
    {
        let ghost rest = v@.skip(start as int);
        let mut end: usize = start;
        while end < v.len() && v[end] != '&'
            invariant
                v@ == q@,
                start <= end <= v@.len(),
                forall|j: int| start <= j < end ==> v@[j] != '&',
            decreases v@.len() - end,
        {
            end = end + 1;
        }
        proof {
            assert forall|j: int| 0 <= j < end - start implies rest[j] != '&' by {
                assert(rest[j] == v@[start + j]);
            }
            if end < v.len() {
                assert(rest[end - start] == v@[end as int]);
            }
            lemma_span_until(rest, '&', end - start);
        }
        let mut part: Vec<char> = Vec::new();
        let mut k: usize = start;
        while k < end
            invariant
                start <= k <= end <= v@.len(),
                part@ == v@.subrange(start as int, k as int),
            decreases end - k,
        {
            part.push(v[k]);
            assert(v@.subrange(start as int, k + 1) =~= v@.subrange(start as int, k as int).push(v@[k as int]));
            k = k + 1;
        }
        assert(part@ =~= rest.take(end - start));
        if crate::text::starts_with_chars(part.as_slice(), key.as_slice()) {
            let mut val: Vec<char> = Vec::new();
            let mut m: usize = 6;
            while m < part.len()
                invariant
                    6 <= part@.len(),
                    6 <= m <= part@.len(),
                    val@ == part@.subrange(6, m as int),
                decreases part@.len() - m,
            {
                val.push(part[m]);
                assert(part@.subrange(6, m + 1) =~= part@.subrange(6, m as int).push(part@[m as int]));
                m = m + 1;
            }
            assert(val@ =~= part@.skip(6));
            return Some(string_of(val.as_slice()));
        }
        if end == v.len() {
            return None;
        }
        assert(rest.skip(end - start + 1) =~= v@.skip(end + 1));
        start = end + 1;
    }
    None
}

/// The value of the first `token=` part of a query string, percent-decoded.
pub fn query_token(q: &str) -> (r: Option<String>)
    requires
        query_token_safe(q@),
    ensures
        match r {
            Some(t) => query_token_spec(q@) == Some(t@),
            None => query_token_spec(q@) is None,
        },
{
    match query_token_value(q) {
        Some(v) => Some(percent_decode(v.as_str())),
        None => None,
    }
}

} // verus!
