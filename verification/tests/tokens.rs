use meev::auth::Claims;
use meev::config::{Config, EnvVars};
use meev::error::AppError;
use meev::jwt::{
    check_refresh_token, claims_from_fields, create_access_token, refresh_token_id,
    sign_refresh_token, verify_access_token, JsonValue,
};

const ID: u128 = 0x67e5504410b1426f9247bb680e5fe0c8;
const ID_TEXT: &str = "67e55044-10b1-426f-9247-bb680e5fe0c8";
const SESSION_INVALID: &str = "جلسة غير صالحة أو منتهية. سجل الدخول مجدداً.";
const SESSION_EXPIRED: &str = "الجلسة منتهية أو غير صالحة. سجل الدخول مجدداً.";

fn config(secret: &str) -> Config {
    let vars = vec![
        ("DATABASE_URL".to_string(), "postgres://u:p@localhost/meev".to_string()),
        ("JWT_SECRET".to_string(), secret.to_string()),
    ];
    Config::from_vars(&EnvVars { vars }).unwrap()
}

fn now() -> usize {
    std::time::SystemTime::now().duration_since(std::time::UNIX_EPOCH).unwrap().as_secs() as usize
}

fn unauthorized_msg<T: std::fmt::Debug>(r: Result<T, AppError>) -> String {
    match r {
        Err(AppError::Unauthorized(m)) => m,
        other => panic!("expected Unauthorized, got {:?}", other),
    }
}

#[test]
fn access_token_round_trip() {
    let cfg = config("0123456789abcdef0123456789abcdef");
    let t = now();
    let token = create_access_token(&cfg, ID, "bob", t).unwrap();
    assert_eq!(token.split('.').count(), 3);
    let c = verify_access_token(&cfg, &token, t).unwrap();
    assert_eq!(c.sub, ID_TEXT);
    assert_eq!(c.username, "bob");
    assert_eq!(c.iat as usize, t);
    assert_eq!(c.exp as usize, t + 900);
    assert!(c.jti.is_none());
}

#[test]
fn access_token_under_another_secret_is_refused() {
    let cfg = config("0123456789abcdef0123456789abcdef");
    let other = config("fedcba9876543210fedcba9876543210");
    let token = create_access_token(&cfg, ID, "bob", now()).unwrap();
    assert_eq!(unauthorized_msg(verify_access_token(&other, &token, now())), SESSION_INVALID);
}

#[test]
fn tampered_or_expired_access_token_is_refused() {
    let cfg = config("0123456789abcdef0123456789abcdef");
    let token = create_access_token(&cfg, ID, "bob", now()).unwrap();
    let mut tampered = token.clone();
    let last = tampered.pop().unwrap();
    tampered.push(if last == 'A' { 'B' } else { 'A' });
    assert_eq!(unauthorized_msg(verify_access_token(&cfg, &tampered, now())), SESSION_INVALID);
    assert_eq!(unauthorized_msg(verify_access_token(&cfg, "not.a.token", now())), SESSION_INVALID);
    let old = create_access_token(&cfg, ID, "bob", 1000).unwrap();
    assert_eq!(unauthorized_msg(verify_access_token(&cfg, &old, now())), SESSION_INVALID);
}

#[test]
fn refresh_token_round_trip() {
    let cfg = config("0123456789abcdef0123456789abcdef");
    let token = sign_refresh_token(&cfg, ID, "jti-7", now()).unwrap();
    assert_eq!(check_refresh_token(&cfg, &token, now()).unwrap(), (ID, "jti-7".to_string()));
    assert_eq!(refresh_token_id(&cfg, &token, now()), Some("jti-7".to_string()));
}

#[test]
fn refresh_token_refusals() {
    let cfg = config("0123456789abcdef0123456789abcdef");
    let old = sign_refresh_token(&cfg, ID, "jti-7", 1000).unwrap();
    assert_eq!(unauthorized_msg(check_refresh_token(&cfg, &old, now())), SESSION_EXPIRED);
    assert_eq!(refresh_token_id(&cfg, &old, now()), None);
    // an access token carries no id
    let access = create_access_token(&cfg, ID, "bob", now()).unwrap();
    assert_eq!(unauthorized_msg(check_refresh_token(&cfg, &access, now())), "رمز غير صالح.");
    assert_eq!(refresh_token_id(&cfg, &access, now()), None);
    assert_eq!(refresh_token_id(&cfg, "garbage", now()), None);
}

fn fields(jti: Option<JsonValue>) -> Vec<(String, JsonValue)> {
    let mut f = vec![
        ("exp".to_string(), JsonValue::Num(Some(1900))),
        ("iat".to_string(), JsonValue::Num(Some(1000))),
        ("sub".to_string(), JsonValue::Str(ID_TEXT.to_string())),
        ("username".to_string(), JsonValue::Str("bob".to_string())),
        ("extra".to_string(), JsonValue::Other),
    ];
    if let Some(j) = jti {
        f.push(("jti".to_string(), j));
    }
    f
}

fn claims(jti: Option<&str>) -> Claims {
    Claims {
        sub: ID_TEXT.to_string(),
        username: "bob".to_string(),
        iat: 1000,
        exp: 1900,
        jti: jti.map(|s| s.to_string()),
    }
}

fn same(a: &Option<Claims>, b: &Option<Claims>) -> bool {
    match (a, b) {
        (Some(x), Some(y)) => {
            x.sub == y.sub && x.username == y.username && x.iat == y.iat && x.exp == y.exp && x.jti == y.jti
        }
        (None, None) => true,
        _ => false,
    }
}

#[test]
fn claims_are_read_from_payload_fields() {
    assert!(same(&claims_from_fields(&fields(None)), &Some(claims(None))));
    assert!(same(&claims_from_fields(&fields(Some(JsonValue::Null))), &Some(claims(None))));
    assert!(same(
        &claims_from_fields(&fields(Some(JsonValue::Str("j1".to_string())))),
        &Some(claims(Some("j1")))
    ));
    assert!(claims_from_fields(&fields(Some(JsonValue::Num(Some(3))))).is_none());
    assert!(claims_from_fields(&fields(Some(JsonValue::Bool(true)))).is_none());
}

#[test]
fn claims_need_every_required_field() {
    let mut f = fields(None);
    f.retain(|(k, _)| k != "username");
    assert!(claims_from_fields(&f).is_none());
    let mut f = fields(None);
    f[0].1 = JsonValue::Num(None);
    assert!(claims_from_fields(&f).is_none());
    let mut f = fields(None);
    f[2].1 = JsonValue::Num(Some(5));
    assert!(claims_from_fields(&f).is_none());
    // the first entry under a key decides
    let mut f = fields(None);
    f.push(("sub".to_string(), JsonValue::Str("other".to_string())));
    assert_eq!(claims_from_fields(&f).unwrap().sub, ID_TEXT);
}

#[test]
fn access_token_expiry_has_thirty_seconds_of_grace() {
    let cfg = config("0123456789abcdef0123456789abcdef");
    let token = create_access_token(&cfg, ID, "bob", 1000).unwrap();
    // issued at 1000 with the default 900 s lifetime: expires at 1900
    let c = verify_access_token(&cfg, &token, 1930).unwrap();
    assert_eq!((c.iat, c.exp), (1000, 1900));
    assert!(verify_access_token(&cfg, &token, 0).is_ok());
    assert_eq!(unauthorized_msg(verify_access_token(&cfg, &token, 1931)), SESSION_INVALID);
}

#[test]
fn refresh_token_expiry_grace_differs_for_rotation_and_revocation() {
    let cfg = config("0123456789abcdef0123456789abcdef");
    let token = sign_refresh_token(&cfg, ID, "j", 1000).unwrap();
    // the default refresh lifetime is 2592000 s
    let exp = 1000 + 2592000;
    assert_eq!(check_refresh_token(&cfg, &token, exp + 10).unwrap(), (ID, "j".to_string()));
    assert_eq!(unauthorized_msg(check_refresh_token(&cfg, &token, exp + 11)), SESSION_EXPIRED);
    assert_eq!(refresh_token_id(&cfg, &token, exp + 60), Some("j".to_string()));
    assert_eq!(refresh_token_id(&cfg, &token, exp + 61), None);
}
