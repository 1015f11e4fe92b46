//! Signed tokens (JWT, HS512): access and refresh tokens are signed with the
//! configured secret; a presented token is checked and its claims read back.
use jsonwebtoken::{decode, encode, Algorithm, DecodingKey, EncodingKey, Header, Validation};
use serde_json::Value as JsonRaw;
use vstd::prelude::*;
use vstd::utf8::encode_utf8;

use crate::auth::{
    access_claims, access_claims_spec, msg_bad_token, refresh_claims, refresh_claims_spec,
    refresh_subject, Claims, ClaimsView,
};
use crate::config::Config;
use crate::error::{unauthorized, AppError, ErrorView};
use crate::ids::uuid_parse;

verus! {

/// A value of a token's payload object, as far as the claims read it.
#[derive(Debug)]
pub enum JsonValue {
    Null,
    Bool(bool),
    /// A number, with its value when it is a non-negative integer that
    /// fits in 64 bits.
    Num(Option<u64>),
    Str(String),
    /// An array or an object.
    Other,
}

pub enum JsonView {
    Null,
    Bool(bool),
    Num(Option<u64>),
    Str(Seq<char>),
    Other,
}

impl View for JsonValue {
    type V = JsonView;

    open spec fn view(&self) -> JsonView {
        match self {
            JsonValue::Null => JsonView::Null,
            JsonValue::Bool(b) => JsonView::Bool(*b),
            JsonValue::Num(n) => JsonView::Num(*n),
            JsonValue::Str(s) => JsonView::Str(s@),
            JsonValue::Other => JsonView::Other,
        }
    }
}

pub open spec fn fields_view(f: Seq<(String, JsonValue)>) -> Seq<(Seq<char>, JsonView)> {
    f.map_values(|p: (String, JsonValue)| (p.0@, p.1@))
}

/// The token `jsonwebtoken::encode` makes of the claims with an HS512
/// header and the secret.
pub uninterp spec fn jwt_hs512(secret: Seq<u8>, c: ClaimsView) -> Seq<char>;

/// The entries of a token's payload object, in key order, as
/// `jsonwebtoken::decode` returns them with an HS512 check under
/// `DecodingKey::from_secret(secret)` and no check against the clock:
/// `Some` when the signature is valid, the payload is a JSON object with a
/// whole-number `exp` and no `aud`; `None` otherwise.  Whether the token
/// has expired is decided by the library (see `live_claims`).
pub uninterp spec fn jwt_hs512_payload(secret: Seq<u8>, token: Seq<char>) -> Option<Seq<(Seq<char>, JsonView)>>;

pub open spec fn key_exp() -> Seq<char> {
    "exp"@
}

pub open spec fn key_iat() -> Seq<char> {
    "iat"@
}

pub open spec fn key_jti() -> Seq<char> {
    "jti"@
}

pub open spec fn key_sub() -> Seq<char> {
    "sub"@
}

pub open spec fn key_username() -> Seq<char> {
    "username"@
}

/// The payload object of a token signed for claims `c`: its fields under
/// their names, in the order of the names.
pub open spec fn claims_json(c: ClaimsView) -> Seq<(Seq<char>, JsonView)> {
    seq![
        (key_exp(), JsonView::Num(Some(c.exp as u64))),
        (key_iat(), JsonView::Num(Some(c.iat as u64))),
        (key_jti(), match c.jti {
            Some(j) => JsonView::Str(j),
            None => JsonView::Null,
        }),
        (key_sub(), JsonView::Str(c.sub)),
        (key_username(), JsonView::Str(c.username)),
    ]
}

/// Signs the claims with `jsonwebtoken::encode` under an HS512 header and
/// `EncodingKey::from_secret`, the claims written as a JSON object with
/// the keys `exp`, `iat`, `jti`, `sub`, `username`.  For an HMAC key and a
/// payload of strings, numbers and `null` nothing in `encode` can fail;
/// checking the token gives back that payload.
#[verifier::external_body]
fn jwt_sign_hs512(secret: &[u8], claims: &Claims) -> (r: Result<String, AppError>)
    ensures
        r is Ok,
        r matches Ok(t) ==> t@ == jwt_hs512(secret@, claims@),
        r matches Ok(t) ==> jwt_hs512_payload(secret@, t@) == Some(claims_json(claims@)),
{
    let mut m = serde_json::Map::new();
    m.insert("exp".to_owned(), claims.exp.into());
    m.insert("iat".to_owned(), claims.iat.into());
    m.insert("jti".to_owned(), claims.jti.clone().into());
    m.insert("sub".to_owned(), claims.sub.clone().into());
    m.insert("username".to_owned(), claims.username.clone().into());
    let key = EncodingKey::from_secret(secret);
    encode(&Header::new(Algorithm::HS512), &m, &key).map_err(|e| AppError::Internal(format!("jwt: {e}")))
}

/// Checks a token with `jsonwebtoken::decode` (HS512 only,
/// `DecodingKey::from_secret`, the expiry neither checked against the
/// clock nor given any leeway, so the outcome depends on the arguments
/// alone) and returns the entries of its payload object: exactly the
/// payload named by `jwt_hs512_payload`.
#[verifier::external_body]
fn jwt_check_hs512(secret: &[u8], token: &str) -> (r: Option<Vec<(String, JsonValue)>>)
    ensures
        match r {
            Some(f) => jwt_hs512_payload(secret@, token@) == Some(fields_view(f@)),
            None => jwt_hs512_payload(secret@, token@) is None,
        },
{
    let mut v = Validation::new(Algorithm::HS512);
    v.validate_exp = false;
    let key = DecodingKey::from_secret(secret);
    let m = decode::<serde_json::Map<String, JsonRaw>>(token, &key, &v).ok()?.claims;
    Some(m.into_iter().map(|(k, x)| (k, match x {
        JsonRaw::Null => JsonValue::Null,
        JsonRaw::Bool(b) => JsonValue::Bool(b),
        JsonRaw::Number(n) => JsonValue::Num(n.as_u64()),
        JsonRaw::String(s) => JsonValue::Str(s),
        _ => JsonValue::Other,
    })).collect())
}

// ---------------------------------------------------------------------------
// Reading the claims of a payload
// ---------------------------------------------------------------------------

/// The value under key `k`: the first entry with that key.
pub open spec fn field(f: Seq<(Seq<char>, JsonView)>, k: Seq<char>) -> Option<JsonView>
    decreases f.len(),
{
    if f.len() == 0 {
        None
    } else if f[0].0 == k {
        Some(f[0].1)
    } else {
        field(f.drop_first(), k)
    }
}

pub open spec fn text_field(f: Seq<(Seq<char>, JsonView)>, k: Seq<char>) -> Option<Seq<char>> {
    match field(f, k) {
        Some(JsonView::Str(s)) => Some(s),
        _ => None,
    }
}

pub open spec fn count_field(f: Seq<(Seq<char>, JsonView)>, k: Seq<char>) -> Option<usize> {
    match field(f, k) {
        Some(JsonView::Num(Some(n))) => if n <= usize::MAX {
            Some(n as usize)
        } else {
            None
        },
        _ => None,
    }
}

/// The claims a payload holds: `sub` and `username` strings, `iat` and
/// `exp` whole numbers, `jti` a string, `null` or absent; anything else
/// refuses the payload.  Other keys are ignored.
pub open spec fn claims_of_fields(f: Seq<(Seq<char>, JsonView)>) -> Option<ClaimsView> {
    let jti = field(f, key_jti());
    let jti_ok = match jti {
        None => true,
        Some(JsonView::Null) => true,
        Some(JsonView::Str(_)) => true,
        _ => false,
    };
    if text_field(f, key_sub()) is Some && text_field(f, key_username()) is Some && count_field(
        f,
        key_iat(),
    ) is Some && count_field(f, key_exp()) is Some && jti_ok {
        Some(
            ClaimsView {
                sub: text_field(f, key_sub())->0,
                username: text_field(f, key_username())->0,
                iat: count_field(f, key_iat())->0,
                exp: count_field(f, key_exp())->0,
                jti: match jti {
                    Some(JsonView::Str(s)) => Some(s),
                    _ => None,
                },
            },
        )
    } else {
        None
    }
}

/// The claims carried by a token signed under `secret`.
pub open spec fn token_claims(secret: Seq<u8>, token: Seq<char>) -> Option<ClaimsView> {
    match jwt_hs512_payload(secret, token) {
        Some(f) => claims_of_fields(f),
        None => None,
    }
}

/// The claims of a token we sign read back as the same claims.
pub proof fn lemma_claims_round_trip(c: ClaimsView)
    ensures
        claims_of_fields(claims_json(c)) == Some(c),
{
    reveal_strlit("exp");
    reveal_strlit("iat");
    reveal_strlit("jti");
    reveal_strlit("sub");
    reveal_strlit("username");
    let f = claims_json(c);
    assert(f.drop_first().drop_first().drop_first().drop_first().drop_first() =~= Seq::<
        (Seq<char>, JsonView),
    >::empty());
    assert(key_exp() != key_iat() && key_exp() != key_jti() && key_exp() != key_sub() && key_exp()
        != key_username()) by {
        assert(key_exp()[0] != key_iat()[0] && key_exp()[0] != key_jti()[0] && key_exp()[0]
            != key_sub()[0] && key_exp()[0] != key_username()[0]);
    }
    assert(key_iat() != key_jti() && key_iat() != key_sub() && key_iat() != key_username()) by {
        assert(key_iat()[0] != key_jti()[0] && key_iat()[0] != key_sub()[0] && key_iat()[0]
            != key_username()[0]);
    }
    assert(key_jti() != key_sub() && key_jti() != key_username()) by {
        assert(key_jti()[0] != key_sub()[0] && key_jti()[0] != key_username()[0]);
    }
    assert(key_sub() != key_username()) by {
        assert(key_sub()[0] != key_username()[0]);
    }
    let f1 = f.drop_first();
    let f2 = f1.drop_first();
    let f3 = f2.drop_first();
    let f4 = f3.drop_first();
    assert(f1[0] == f[1] && f2[0] == f[2] && f3[0] == f[3] && f4[0] == f[4]);
    assert(f1.len() == 4 && f2.len() == 3 && f3.len() == 2 && f4.len() == 1);
    assert(field(f4, key_username()) == Some(f[4].1));
    assert(field(f3, key_username()) == field(f4, key_username()));
    assert(field(f3, key_sub()) == Some(f[3].1));
    assert(field(f2, key_username()) == field(f3, key_username()));
    assert(field(f2, key_sub()) == field(f3, key_sub()));
    assert(field(f2, key_jti()) == Some(f[2].1));
    assert(field(f1, key_username()) == field(f2, key_username()));
    assert(field(f1, key_sub()) == field(f2, key_sub()));
    assert(field(f1, key_jti()) == field(f2, key_jti()));
    assert(field(f1, key_iat()) == Some(f[1].1));
    assert(field(f, key_exp()) == Some(JsonView::Num(Some(c.exp as u64))));
    assert(field(f, key_iat()) == Some(JsonView::Num(Some(c.iat as u64))));
    assert(field(f, key_jti()) == Some(f[2].1));
    assert(field(f, key_sub()) == Some(JsonView::Str(c.sub)));
    assert(field(f, key_username()) == Some(JsonView::Str(c.username)));
}

/// Index of the first entry with key `k`.
fn find_field(f: &Vec<(String, JsonValue)>, k: &str) -> (r: Option<usize>)
    ensures
        match r {
            Some(i) => i < f@.len() && field(fields_view(f@), k@) == Some(f@[i as int].1@),
            None => field(fields_view(f@), k@) is None,
        },
{
    let ghost fv = fields_view(f@);
    let mut i: usize = 0;
    assert(fv.skip(0) =~= fv);
    while i < f.len()
        invariant
            i <= f@.len(),
            fv == fields_view(f@),
            field(fv, k@) == field(fv.skip(i as int), k@),
        decreases f@.len() - i,
    {
        assert(fv.skip(i as int)[0] == fv[i as int]);
        if crate::error::str_eq(f[i].0.as_str(), k) {
            return Some(i);
        }
        assert(fv.skip(i as int).drop_first() =~= fv.skip(i + 1));
        i = i + 1;
    }
    assert(fv.skip(i as int) =~= Seq::<(Seq<char>, JsonView)>::empty());
    None
}

fn read_text(f: &Vec<(String, JsonValue)>, k: &str) -> (r: Option<String>)
    ensures
        opt_text(r) == text_field(fields_view(f@), k@),
{
    match find_field(f, k) {
        Some(i) => match &f[i].1 {
            JsonValue::Str(s) => Some(s.clone()),
            _ => None,
        },
        None => None,
    }
}

pub open spec fn opt_text(o: Option<String>) -> Option<Seq<char>> {
    match o {
        Some(s) => Some(s@),
        None => None,
    }
}

fn read_count(f: &Vec<(String, JsonValue)>, k: &str) -> (r: Option<usize>)
    ensures
        r == count_field(fields_view(f@), k@),
{
    match find_field(f, k) {
        Some(i) => match &f[i].1 {
            JsonValue::Num(Some(n)) => {
                if *n <= usize::MAX as u64 {
                    Some(*n as usize)
                } else {
                    None
                }
            },
            _ => None,
        },
        None => None,
    }
}

/// The claims of a checked payload (see `claims_of_fields`).
pub fn claims_from_fields(f: &Vec<(String, JsonValue)>) -> (r: Option<Claims>)
    ensures
        match r {
            Some(c) => claims_of_fields(fields_view(f@)) == Some(c@),
            None => claims_of_fields(fields_view(f@)) is None,
        },
{
    let sub = read_text(f, "sub");
    let username = read_text(f, "username");
    let iat = read_count(f, "iat");
    let exp = read_count(f, "exp");
    let jti: Option<String> = match find_field(f, "jti") {
        None => None,
        Some(i) => match &f[i].1 {
            JsonValue::Null => None,
            JsonValue::Str(s) => Some(s.clone()),
            _ => return None,
        },
    };
    match (sub, username, iat, exp) {
        (Some(sub), Some(username), Some(iat), Some(exp)) => Some(Claims { sub, username, iat, exp, jti }),
        _ => None,
    }
}

// ---------------------------------------------------------------------------
// Access and refresh tokens
// ---------------------------------------------------------------------------

/// The bytes of the configured signing secret.
pub open spec fn secret_of(cfg: Config) -> Seq<u8> {
    encode_utf8(cfg.jwt_secret@)
}

pub open spec fn access_ttl(cfg: Config) -> usize {
    cfg.jwt_access_ttl_secs as usize
}

pub open spec fn refresh_ttl(cfg: Config) -> usize {
    cfg.jwt_refresh_ttl_secs as usize
}

pub open spec fn msg_session_invalid() -> Seq<char> {
    "جلسة غير صالحة أو منتهية. سجل الدخول مجدداً."@
}

pub open spec fn msg_session_expired() -> Seq<char> {
    "الجلسة منتهية أو غير صالحة. سجل الدخول مجدداً."@
}

/// An access token for `user_id` issued at `now` (seconds since the epoch),
/// valid for the configured access lifetime; checking it gives back its
/// claims.
pub fn create_access_token(cfg: &Config, user_id: u128, username: &str, now: usize) -> (r: Result<
    String,
    AppError,
>)
    requires
        now + access_ttl(*cfg) <= usize::MAX,
    ensures
        r matches Ok(t) && t@ == jwt_hs512(
            secret_of(*cfg),
            access_claims_spec(user_id, username@, now, access_ttl(*cfg)),
        ) && token_claims(secret_of(*cfg), t@) == Some(
            access_claims_spec(user_id, username@, now, access_ttl(*cfg)),
        ),
{
    let claims = access_claims(user_id, username, now, cfg.jwt_access_ttl_secs as usize);
    proof {
        lemma_claims_round_trip(claims@);
    }
    jwt_sign_hs512(cfg.jwt_secret.as_str().as_bytes(), &claims)
}

/// A refresh token with id `jti` for `user_id` issued at `now`, valid for
/// the configured refresh lifetime; checking it gives back its claims.
pub fn sign_refresh_token(cfg: &Config, user_id: u128, jti: &str, now: usize) -> (r: Result<
    String,
    AppError,
>)
    requires
        now + refresh_ttl(*cfg) <= usize::MAX,
    ensures
        r matches Ok(t) && t@ == jwt_hs512(
            secret_of(*cfg),
            refresh_claims_spec(user_id, jti@, now, refresh_ttl(*cfg)),
        ) && token_claims(secret_of(*cfg), t@) == Some(
            refresh_claims_spec(user_id, jti@, now, refresh_ttl(*cfg)),
        ),
{
    let claims = refresh_claims(user_id, jti, now, cfg.jwt_refresh_ttl_secs as usize);
    proof {
        lemma_claims_round_trip(claims@);
    }
    jwt_sign_hs512(cfg.jwt_secret.as_str().as_bytes(), &claims)
}

/// The claims of a token signed under `secret` that has not expired at
/// `now` (seconds since the epoch), allowing `leeway` seconds after `exp`.
pub open spec fn live_claims(secret: Seq<u8>, token: Seq<char>, now: int, leeway: int) -> Option<ClaimsView> {
    match token_claims(secret, token) {
        Some(c) => if now <= c.exp + leeway {
            Some(c)
        } else {
            None
        },
        None => None,
    }
}

/// Whether a token expiring at `exp` is still accepted at `now`.
fn not_expired(now: usize, exp: usize, leeway: usize) -> (r: bool)
    ensures
        r == (now <= exp + leeway),
{
    now <= exp || now - exp <= leeway
}

/// The claims of a signed token, if it has not expired at `now`.
fn checked_claims(cfg: &Config, token: &str, now: usize, leeway: usize) -> (r: Option<Claims>)
    ensures
        match r {
            Some(c) => live_claims(secret_of(*cfg), token@, now as int, leeway as int) == Some(c@),
            None => live_claims(secret_of(*cfg), token@, now as int, leeway as int) is None,
        },
{
    match jwt_check_hs512(cfg.jwt_secret.as_str().as_bytes(), token) {
        Some(f) => match claims_from_fields(&f) {
            Some(c) => if not_expired(now, c.exp, leeway) {
                Some(c)
            } else {
                None
            },
            None => None,
        },
        None => None,
    }
}

/// The claims of an access token at `now` (seconds since the epoch): a
/// token signed under the configured secret is accepted until 30 seconds
/// after its expiry; any refusal is `Unauthorized`.
pub fn verify_access_token(cfg: &Config, token: &str, now: usize) -> (r: Result<Claims, AppError>)
    ensures
        match r {
            Ok(c) => live_claims(secret_of(*cfg), token@, now as int, 30) == Some(c@),
            Err(e) => live_claims(secret_of(*cfg), token@, now as int, 30) is None && e@
                == ErrorView::Unauthorized(msg_session_invalid()),
        },
{
    match checked_claims(cfg, token, now, 30) {
        Some(c) => Ok(c),
        None => Err(unauthorized("جلسة غير صالحة أو منتهية. سجل الدخول مجدداً.")),
    }
}

/// The user and token id of a refresh token at `now`, accepted until 10
/// seconds after its expiry: a token that fails the check is refused as an
/// expired session, one without an id or with a subject that is not a UUID
/// as a bad token.
pub fn check_refresh_token(cfg: &Config, token: &str, now: usize) -> (r: Result<(u128, String), AppError>)
    ensures
        match live_claims(secret_of(*cfg), token@, now as int, 10) {
            None => r matches Err(e) && e@ == ErrorView::Unauthorized(msg_session_expired()),
            Some(c) => match r {
                Ok((id, j)) => c.jti == Some(j@) && uuid_parse(c.sub) == Some(id),
                Err(e) => (c.jti is None || uuid_parse(c.sub) is None) && e@ == ErrorView::Unauthorized(
                    msg_bad_token(),
                ),
            },
        },
{
    let claims = match checked_claims(cfg, token, now, 10) {
        Some(c) => c,
        None => return Err(unauthorized("الجلسة منتهية أو غير صالحة. سجل الدخول مجدداً.")),
    };
    refresh_subject(&claims)
}

/// The id of a refresh token being revoked at `now`, accepted until 60
/// seconds after its expiry; `None` when the check fails or the token has
/// no id.
pub fn refresh_token_id(cfg: &Config, token: &str, now: usize) -> (r: Option<String>)
    ensures
        opt_text(r) == match live_claims(secret_of(*cfg), token@, now as int, 60) {
            Some(c) => c.jti,
            None => None,
        },
{
    match checked_claims(cfg, token, now, 60) {
        Some(c) => c.jti,
        None => None,
    }
}

/// An access token issued at `issued` is accepted, with the claims it was
/// signed with, exactly until 30 seconds after its lifetime has run out;
/// a refresh token issued at `issued` gives back its user and id exactly
/// until 10 seconds after.
pub proof fn law_token_lifetime(
    cfg: Config,
    user_id: u128,
    username: Seq<char>,
    jti: Seq<char>,
    issued: usize,
    access: Seq<char>,
    refresh: Seq<char>,
    now: int,
)
    requires
        issued + access_ttl(cfg) <= usize::MAX,
        issued + refresh_ttl(cfg) <= usize::MAX,
        token_claims(secret_of(cfg), access) == Some(
            access_claims_spec(user_id, username, issued, access_ttl(cfg)),
        ),
        token_claims(secret_of(cfg), refresh) == Some(
            refresh_claims_spec(user_id, jti, issued, refresh_ttl(cfg)),
        ),
    ensures
        live_claims(secret_of(cfg), access, now, 30) == if now <= issued + access_ttl(cfg) + 30 {
            Some(access_claims_spec(user_id, username, issued, access_ttl(cfg)))
        } else {
            None
        },
        live_claims(secret_of(cfg), refresh, now, 10) is Some <==> now <= issued + refresh_ttl(cfg) + 10,
        live_claims(secret_of(cfg), refresh, now, 10) matches Some(c) ==> c.jti == Some(jti),
{
}

} // verus!
