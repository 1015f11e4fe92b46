use meev::error::AppError;
use meev::requests::{
    InterestsParams, InterestsReq, ListParams, LoginReq, PasswordReq, RegisterReq, SearchParams,
    SuggestionsParams, UpdateProfileReq,
};

fn reg(username: &str, email: &str, password: &str, display: Option<&str>) -> RegisterReq {
    RegisterReq {
        username: username.into(),
        email: email.into(),
        password: password.into(),
        display_name: display.map(|s| s.to_string()),
    }
}

#[test]
fn registration_is_validated_in_order() {
    let a = reg(" Nour ", "Nour@Mail.com", "Abcdefghi1", None).validate().unwrap();
    assert_eq!((a.username.as_str(), a.email.as_str(), a.display_name.as_str()), ("nour", "nour@mail.com", "nour"));
    let a = reg("nour", "n@mail.com", "Abcdefghi1", Some(" Nour A ")).validate().unwrap();
    assert_eq!(a.display_name, "Nour A");
    // the username is checked before the email, the email before the password
    assert!(matches!(reg("1xy", "bad", "weak", None).validate(),
        Err(AppError::BadRequest(ref m)) if m == "اسم المستخدم يجب أن يبدأ بحرف."));
    assert!(matches!(reg("nour", "bad", "weak", None).validate(),
        Err(AppError::BadRequest(ref m)) if m == "البريد الإلكتروني غير صالح."));
    assert!(matches!(reg("nour", "n@mail.com", "weak", Some("")).validate(),
        Err(AppError::BadRequest(ref m)) if m == "كلمة المرور يجب أن تكون 10 أحرف على الأقل."));
    assert!(matches!(reg("nour", "n@mail.com", "Abcdefghi1", Some(" ")).validate(),
        Err(AppError::BadRequest(ref m)) if m == "الاسم الظاهر لا يمكن أن يكون فارغاً."));
}

#[test]
fn login_lookup_key() {
    let r = LoginReq { identifier: " Nour ".into(), password: "x".into() };
    assert_eq!(r.lookup_key().unwrap(), "nour");
    let r = LoginReq { identifier: "nour".into(), password: String::new() };
    assert!(r.lookup_key().is_err());
}

#[test]
fn new_password_policy() {
    let p = PasswordReq { current_password: "old".into(), new_password: "Abcdefghi1".into() };
    assert!(p.check_new_password().is_ok());
    let p = PasswordReq { current_password: "Abcdefghi1".into(), new_password: "short".into() };
    assert!(p.check_new_password().is_err());
}

#[test]
fn profile_update_normalization() {
    let r = UpdateProfileReq {
        display_name: Some("  Sara ".into()),
        bio: Some(" hi\u{7} ".into()),
        is_private: Some(true),
        location_name: Some("  Cairo\u{1} ".into()),
    };
    let u = r.normalized().unwrap();
    assert_eq!(u.display_name.as_deref(), Some("Sara"));
    assert_eq!(u.bio.as_deref(), Some("hi"));
    assert_eq!(u.is_private, Some(true));
    assert_eq!(u.location_name.as_deref(), Some("Cairo"));
    let empty = UpdateProfileReq { display_name: None, bio: None, is_private: None, location_name: Some("  ".into()) };
    let u = empty.normalized().unwrap();
    assert!(u.display_name.is_none() && u.bio.is_none());
    assert_eq!(u.location_name.as_deref(), Some(""));
    let bad = UpdateProfileReq { display_name: Some("".into()), bio: Some("x".repeat(400)), is_private: None, location_name: None };
    assert!(matches!(bad.normalized(), Err(AppError::BadRequest(ref m)) if m == "الاسم الظاهر لا يمكن أن يكون فارغاً."));
    let bad_bio = UpdateProfileReq { display_name: None, bio: Some("x".repeat(400)), is_private: None, location_name: None };
    assert!(matches!(bad_bio.normalized(), Err(AppError::BadRequest(ref m)) if m == "السيرة الذاتية طويلة جداً (الحد 300 حرفاً)."));
}

#[test]
fn interests_request() {
    let r = InterestsReq { interests: vec!["A".into(), " a ".into(), "B".into()] };
    assert_eq!(r.validated().unwrap(), vec!["a".to_string(), "b".to_string()]);
}

#[test]
fn search_parameters() {
    let p = SearchParams { q: "  sa ".into(), limit: Some(500), offset: Some(-1) };
    assert_eq!(p.query(), Some("sa".to_string()));
    assert_eq!(p.page_size(), 50);
    assert_eq!(p.page_offset(), 0);
    let p = SearchParams { q: " ".into(), limit: None, offset: None };
    assert_eq!(p.query(), None);
    assert_eq!(p.page_size(), 20);
}

#[test]
fn list_parameters() {
    let p = ListParams { limit: None, offset: Some(40), username: Some(" Nour ".into()) };
    assert_eq!(p.page_size(), 30);
    assert_eq!(p.page_offset(), 40);
    assert_eq!(p.target_username(), Some("nour".to_string()));
    let p = ListParams { limit: Some(0), offset: None, username: None };
    assert_eq!(p.page_size(), 1);
    assert_eq!(p.target_username(), None);
}

#[test]
fn suggestion_parameters() {
    assert_eq!(SuggestionsParams { limit: None }.count(), 24);
    assert_eq!(SuggestionsParams { limit: Some(100) }.count(), 60);
}

#[test]
fn interest_prefix() {
    assert_eq!(InterestsParams { q: Some(" Ru_st ".into()) }.prefix_pattern(), Some("ru\\_st%".to_string()));
    assert_eq!(InterestsParams { q: Some("  ".into()) }.prefix_pattern(), None);
    assert_eq!(InterestsParams { q: None }.prefix_pattern(), None);
}
