use meev::error::AppError;
use meev::ids::{uuid_from_str, uuid_param};
use meev::validate::{
    check_interests, normalize_username, validate_bio, validate_display_name, validate_email,
    validate_interests,
};

fn bad_request_text(r: Result<String, AppError>) -> String {
    match r {
        Err(AppError::BadRequest(m)) => m,
        other => panic!("expected BadRequest, got {:?}", other),
    }
}

#[test]
fn username_is_trimmed_and_lowercased() {
    assert_eq!(normalize_username("  Alice_1 ").unwrap(), "alice_1");
    assert_eq!(normalize_username("a.b_c").unwrap(), "a.b_c");
}

#[test]
fn username_length_is_checked() {
    let m = bad_request_text(normalize_username("ab"));
    assert_eq!(m, "اسم المستخدم يجب أن يكون بين 3 و 24 حرفاً.");
    let long = "a".repeat(25);
    assert_eq!(bad_request_text(normalize_username(&long)), m);
    assert!(normalize_username(&"a".repeat(24)).is_ok());
}

#[test]
fn username_must_start_with_a_letter() {
    assert_eq!(
        bad_request_text(normalize_username("1abc")),
        "اسم المستخدم يجب أن يبدأ بحرف."
    );
    assert_eq!(
        bad_request_text(normalize_username("_abc")),
        "اسم المستخدم يجب أن يبدأ بحرف."
    );
}

#[test]
fn username_rejects_other_characters() {
    assert_eq!(
        bad_request_text(normalize_username("ab-c")),
        "اسم المستخدم مسموح فيه فقط الأحرف اللاتينية والأرقام و _ و ."
    );
}

#[test]
fn email_is_trimmed_and_lowercased() {
    assert_eq!(validate_email(" User@Example.COM ").unwrap(), "user@example.com");
    assert_eq!(validate_email("a+b@x-y.io").unwrap(), "a+b@x-y.io");
}

#[test]
fn email_without_at_or_dot_is_refused() {
    let invalid = "البريد الإلكتروني غير صالح.";
    assert_eq!(bad_request_text(validate_email("user.example.com")), invalid);
    assert_eq!(bad_request_text(validate_email("user@examplecom")), invalid);
    assert_eq!(bad_request_text(validate_email("@example.com")), invalid);
    assert_eq!(bad_request_text(validate_email("a@b.")), invalid);
    assert_eq!(bad_request_text(validate_email("us er@ex.com")), invalid);
    assert_eq!(bad_request_text(validate_email("a@ex_ample.com")), invalid);
}

#[test]
fn email_length_is_limited() {
    let long = format!("{}@example.com", "a".repeat(243));
    assert_eq!(long.len(), 255);
    assert_eq!(bad_request_text(validate_email(&long)), "البريد الإلكتروني طويل جداً.");
    let ok = format!("{}@example.com", "a".repeat(242));
    assert!(validate_email(&ok).is_ok());
}

#[test]
fn display_name_is_cleaned() {
    assert_eq!(validate_display_name("  Sara  ").unwrap(), "Sara");
    assert_eq!(validate_display_name("Sa\u{7}ra").unwrap(), "Sara");
}

#[test]
fn display_name_errors() {
    assert_eq!(
        bad_request_text(validate_display_name("   ")),
        "الاسم الظاهر لا يمكن أن يكون فارغاً."
    );
    assert_eq!(
        bad_request_text(validate_display_name(&"ن".repeat(41))),
        "الاسم الظاهر طويل جداً (الحد 40 حرفاً)."
    );
    assert!(validate_display_name(&"ن".repeat(40)).is_ok());
    assert_eq!(
        bad_request_text(validate_display_name("\u{1}\u{2}")),
        "الاسم الظاهر غير صالح."
    );
}

#[test]
fn bio_keeps_newlines_only() {
    assert_eq!(validate_bio("  hi\nthere\u{7}\t ").unwrap(), "hi\nthere");
    assert_eq!(
        bad_request_text(validate_bio(&"x".repeat(301))),
        "السيرة الذاتية طويلة جداً (الحد 300 حرفاً)."
    );
    assert_eq!(validate_bio(&"x".repeat(300)).unwrap().len(), 300);
}

#[test]
fn interests_are_normalized_and_deduplicated() {
    let list = vec![" Rust ".to_string(), "rust".to_string(), "Go".to_string()];
    assert_eq!(validate_interests(&list).unwrap(), vec!["rust".to_string(), "go".to_string()]);
}

#[test]
fn interests_limits() {
    let many: Vec<String> = (0..21).map(|i| format!("t{i}")).collect();
    match validate_interests(&many) {
        Err(AppError::BadRequest(m)) => assert_eq!(m, "الحد الأقصى 20 اهتماماً."),
        other => panic!("unexpected {:?}", other),
    }
    let twenty: Vec<String> = (0..20).map(|i| format!("t{i}")).collect();
    assert_eq!(validate_interests(&twenty).unwrap().len(), 20);
    for bad in ["  ".to_string(), "x".repeat(33)] {
        match validate_interests(&[bad]) {
            Err(AppError::BadRequest(m)) => assert_eq!(m, "كل اهتمام يجب أن يكون بين 1 و 32 حرفاً."),
            other => panic!("unexpected {:?}", other),
        }
    }
    assert!(validate_interests(&["x".repeat(32)]).is_ok());
    match validate_interests(&["a\u{1}b".to_string()]) {
        Err(AppError::BadRequest(m)) => assert_eq!(m, "قيمة اهتمام غير صالحة."),
        other => panic!("unexpected {:?}", other),
    }
}

#[test]
fn checked_interests_keep_first_occurrence_order() {
    let list = vec!["b".to_string(), "a".to_string(), "b".to_string(), "c".to_string()];
    assert_eq!(
        check_interests(&list).unwrap(),
        vec!["b".to_string(), "a".to_string(), "c".to_string()]
    );
}

#[test]
fn uuid_parsing() {
    let id = uuid_from_str("67e55044-10b1-426f-9247-bb680e5fe0c8").unwrap();
    assert_eq!(id, 0x67e5504410b1426f9247bb680e5fe0c8u128);
    assert_eq!(uuid_param("67E5504410B1426F9247BB680E5FE0C8").unwrap(), id);
    match uuid_from_str("nope") {
        Err(AppError::BadRequest(m)) => assert_eq!(m, "معرّف غير صالح."),
        other => panic!("unexpected {:?}", other),
    }
}

#[test]
fn accepted_interests_are_clean() {
    let list: Vec<String> = ["Go", " go", "GO ", "rust", "x".repeat(32).as_str(), "Rust"]
        .iter()
        .map(|s| s.to_string())
        .collect();
    let out = validate_interests(&list).unwrap();
    assert_eq!(out.len(), 3);
    for (i, a) in out.iter().enumerate() {
        assert!((1..=32).contains(&a.chars().count()));
        assert!(!a.chars().any(|c| c.is_control()));
        assert!(out[i + 1..].iter().all(|b| b != a));
    }
}
