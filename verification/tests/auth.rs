use meev::auth::{
    access_claims, authed_user_from_claims, bearer_token, hash_password, password_verdict,
    percent_decode, percent_decode_safe, query_token_value, refresh_claims, refresh_hash,
    refresh_subject, select_token, sha256_hex, query_token, validate_password,
    verify_password, Claims,
};
use meev::error::AppError;

const ID: u128 = 0x67e5504410b1426f9247bb680e5fe0c8;
const ID_TEXT: &str = "67e55044-10b1-426f-9247-bb680e5fe0c8";

fn bad_request_of(r: Result<(), AppError>) -> String {
    match r {
        Err(AppError::BadRequest(m)) => m,
        other => panic!("expected BadRequest, got {:?}", other),
    }
}

#[test]
fn strong_password_is_accepted() {
    assert!(validate_password("Abcdefghi1").is_ok());
}

#[test]
fn password_policy_errors() {
    assert_eq!(
        bad_request_of(validate_password("Abc1")),
        "كلمة المرور يجب أن تكون 10 أحرف على الأقل."
    );
    let long = format!("Ab1{}", "x".repeat(126));
    assert_eq!(long.len(), 129);
    assert_eq!(
        bad_request_of(validate_password(&long)),
        "كلمة المرور طويلة جداً (الحد 128 حرفاً)."
    );
    assert_eq!(
        bad_request_of(validate_password("abcdefghij1")),
        "كلمة المرور يجب أن تحتوي على حرف كبير وحرف صغير ورقم على الأقل."
    );
    assert_eq!(
        bad_request_of(validate_password("ABCDEFGHIJ1")),
        "كلمة المرور يجب أن تحتوي على حرف كبير وحرف صغير ورقم على الأقل."
    );
    assert_eq!(
        bad_request_of(validate_password("Abcdefghijk")),
        "كلمة المرور يجب أن تحتوي على حرف كبير وحرف صغير ورقم على الأقل."
    );
}

#[test]
fn password_length_counts_characters() {
    // six characters, ten bytes
    let pw = "Aé1ééé";
    assert_eq!(pw.chars().count(), 6);
    assert_eq!(bad_request_of(validate_password(pw)), "كلمة المرور يجب أن تكون 10 أحرف على الأقل.");
    // nine characters, ten bytes
    let pw = "Abcdéfgh1";
    assert_eq!((pw.chars().count(), pw.len()), (9, 10));
    assert_eq!(bad_request_of(validate_password(pw)), "كلمة المرور يجب أن تكون 10 أحرف على الأقل.");
    // ten characters
    assert!(validate_password("Abcdéfghi1").is_ok());
    // 128 characters of two bytes each pass; 129 do not
    let long = format!("A1{}", "é".repeat(126));
    assert_eq!(long.chars().count(), 128);
    assert!(validate_password(&long).is_ok());
    let longer = format!("A1{}", "é".repeat(127));
    assert_eq!(bad_request_of(validate_password(&longer)), "كلمة المرور طويلة جداً (الحد 128 حرفاً).");
}

#[test]
fn password_verdict_order() {
    assert!(password_verdict(10, true, true, true).is_ok());
    assert_eq!(
        bad_request_of(password_verdict(9, false, false, false)),
        "كلمة المرور يجب أن تكون 10 أحرف على الأقل."
    );
    assert_eq!(
        bad_request_of(password_verdict(129, true, true, true)),
        "كلمة المرور طويلة جداً (الحد 128 حرفاً)."
    );
}

#[test]
fn hash_then_verify_round_trip() {
    let h = hash_password("Secret123x").unwrap();
    assert!(h.starts_with("$argon2id$"));
    assert!(verify_password("Secret123x", &h));
    assert!(!verify_password("Secret123y", &h));
    let h2 = hash_password("Secret123x").unwrap();
    assert_ne!(h, h2);
}

#[test]
fn verify_rejects_malformed_hash() {
    assert!(!verify_password("Secret123x", "not-a-hash"));
    assert!(!verify_password("Secret123x", "not-a-phc-hash"));
    assert!(!verify_password("Secret123x", ""));
    assert!(!verify_password("Secret123x", "$argon2id$garbage"));
}

#[test]
fn sha256_hex_is_sixty_four_characters() {
    assert_eq!(sha256_hex(b"anything at all").len(), 64);
    assert_eq!(refresh_hash("token").len(), 64);
}

#[test]
fn refresh_hash_is_hex_sha256() {
    assert_eq!(
        refresh_hash("abc"),
        "ba7816bf8f01cfea414140de5dae2223b00361a396177a9cb410ff61f20015ad"
    );
    assert_eq!(
        refresh_hash(""),
        "e3b0c44298fc1c149afbf4c8996fb92427ae41e4649b934ca495991b7852b855"
    );
}

#[test]
fn bearer_header_parsing() {
    assert_eq!(bearer_token("Bearer  abc "), Some("abc".to_string()));
    assert_eq!(bearer_token("Bearer "), Some(String::new()));
    assert_eq!(bearer_token("bearer abc"), None);
    assert_eq!(bearer_token("Basic abc"), None);
}

#[test]
fn percent_decoding() {
    assert_eq!(percent_decode("%41%42c"), "ABc");
    assert_eq!(percent_decode("a%2Fb"), "a/b");
    assert_eq!(percent_decode("%4"), "%4");
    assert_eq!(percent_decode("%zz"), "%zz");
    assert_eq!(percent_decode("%+5x"), "\u{5}x");
    assert_eq!(percent_decode("%FF"), "\u{FFFD}");
    assert_eq!(percent_decode("100%"), "100%");
}

#[test]
fn percent_decoding_safety() {
    assert!(percent_decode_safe("%41"));
    assert!(percent_decode_safe("%é1"));
    assert!(!percent_decode_safe("%aé"));
    assert!(percent_decode_safe("%a"));
}

#[test]
fn token_query_parameter() {
    assert_eq!(query_token("a=1&token=abc%20d"), Some("abc d".to_string()));
    assert_eq!(query_token("token=x&token=y"), Some("x".to_string()));
    assert_eq!(query_token("tok=1"), None);
    assert_eq!(query_token(""), None);
}

#[test]
fn access_and_refresh_claims() {
    let c = access_claims(ID, "bob", 1000, 900);
    assert_eq!(c.sub, ID_TEXT);
    assert_eq!(c.username, "bob");
    assert_eq!((c.iat, c.exp), (1000, 1900));
    assert!(c.jti.is_none());
    let r = refresh_claims(ID, "jti-1", 1000, 3600);
    assert_eq!(r.sub, ID_TEXT);
    assert_eq!(r.username, "");
    assert_eq!(r.exp, 4600);
    assert_eq!(r.jti.as_deref(), Some("jti-1"));
}

#[test]
fn claims_identify_the_user() {
    let c = Claims { sub: ID_TEXT.to_string(), username: "bob".to_string(), iat: 1, exp: 2, jti: None };
    let u = authed_user_from_claims(c).unwrap();
    assert_eq!(u.user_id, ID);
    assert_eq!(u.username, "bob");
    let bad = Claims { sub: "x".to_string(), username: "bob".to_string(), iat: 1, exp: 2, jti: None };
    match authed_user_from_claims(bad) {
        Err(AppError::Unauthorized(m)) => assert_eq!(m, "رمز غير صالح."),
        other => panic!("unexpected {:?}", other),
    }
}

#[test]
fn token_selection_prefers_bearer() {
    assert_eq!(select_token(Some("a".into()), Some("b".into())).unwrap(), "a");
    assert_eq!(select_token(None, Some("b".into())).unwrap(), "b");
    match select_token(None, None) {
        Err(AppError::Unauthorized(m)) => assert_eq!(m, "يجب تسجيل الدخول أولاً."),
        other => panic!("unexpected {:?}", other),
    }
}

#[test]
fn refresh_subject_needs_id_and_uuid() {
    let ok = Claims { sub: ID_TEXT.to_string(), username: String::new(), iat: 1, exp: 2, jti: Some("j".into()) };
    assert_eq!(refresh_subject(&ok).unwrap(), (ID, "j".to_string()));
    let no_jti = Claims { jti: None, ..ok.clone() };
    assert!(matches!(refresh_subject(&no_jti), Err(AppError::Unauthorized(ref m)) if m == "رمز غير صالح."));
    let bad_sub = Claims { sub: "zz".into(), ..ok };
    assert!(matches!(refresh_subject(&bad_sub), Err(AppError::Unauthorized(ref m)) if m == "رمز غير صالح."));
}

#[test]
fn sha256_hex_of_bytes() {
    assert_eq!(
        sha256_hex(&[0x61, 0x62, 0x63]),
        "ba7816bf8f01cfea414140de5dae2223b00361a396177a9cb410ff61f20015ad"
    );
    assert_eq!(sha256_hex(&[0u8; 0]), refresh_hash(""));
}

#[test]
fn raw_token_value() {
    assert_eq!(query_token_value("x=1&token=a%20b&token=c"), Some("a%20b".to_string()));
    assert_eq!(query_token_value("tokens=1"), None);
    assert_eq!(query_token_value("token="), Some(String::new()));
}

#[test]
fn login_refuses_unknown_account_and_wrong_password_alike() {
    let h = hash_password("Secret123x").unwrap();
    assert!(meev::auth::login_verdict("Secret123x", Some(&h)).is_ok());
    for r in [meev::auth::login_verdict("Secret123y", Some(&h)), meev::auth::login_verdict("Secret123x", None)] {
        match r {
            Err(AppError::Unauthorized(m)) => assert_eq!(m, "بيانات الدخول غير صحيحة."),
            other => panic!("unexpected {:?}", other),
        }
    }
}
