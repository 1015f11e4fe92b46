use meev::error::{
    bad_request, conflict, forbidden, internal, not_found, str_eq, unauthorized,
    unsupported_media, AppError, DbFailure,
};

#[test]
fn client_errors_keep_their_message() {
    let r = AppError::BadRequest("x".into()).response_parts();
    assert_eq!((r.status, r.message.as_str(), r.retry_after, r.json_body), (400, "x", None, true));
    assert_eq!(AppError::Unauthorized("u".into()).response_parts().status, 401);
    assert_eq!(AppError::Forbidden("f".into()).response_parts().status, 403);
    assert_eq!(AppError::NotFound("n".into()).response_parts().status, 404);
    assert_eq!(AppError::Conflict("c".into()).response_parts().status, 409);
    let r = AppError::UnsupportedMedia("m".into()).response_parts();
    assert_eq!((r.status, r.message.as_str()), (415, "m"));
}

#[test]
fn rate_limited_is_json_with_retry_after() {
    let r = AppError::RateLimited(17).response_parts();
    assert_eq!(r.status, 429);
    assert_eq!(r.retry_after, Some(17));
    assert!(r.json_body);
    assert_eq!(r.message, "تم تجاوز حد الطلبات المسموح. حاول مرة أخرى بعد قليل.");
}

#[test]
fn payload_too_large_and_internal_hide_details() {
    let r = AppError::PayloadTooLarge.response_parts();
    assert_eq!((r.status, r.message.as_str()), (413, "حجم الملف المرفوع أكبر من الحد المسموح."));
    let r = AppError::Internal("secret detail".into()).response_parts();
    assert_eq!((r.status, r.message.as_str()), (500, "حدث خطأ غير متوقع في الخادم."));
}

fn db(code: &str) -> DbFailure {
    DbFailure::Database { code: Some(code.to_string()) }
}

#[test]
fn database_errors_are_mapped() {
    assert!(matches!(AppError::from_db_failure(&db("23505")),
        AppError::Conflict(ref m) if m == "هذا الاسم أو البريد الإلكتروني مستخدم بالفعل."));
    assert!(matches!(AppError::from_db_failure(&db("23503")),
        AppError::BadRequest(ref m) if m == "مرجع غير صالح."));
    assert!(matches!(AppError::from_db_failure(&db("23514")),
        AppError::BadRequest(ref m) if m == "قيمة غير صالحة."));
    assert!(matches!(AppError::from_db_failure(&db("22001")), AppError::PayloadTooLarge));
    assert!(matches!(AppError::from_db_failure(&db("42P01")),
        AppError::Internal(ref m) if m == "database error"));
    let no_code = DbFailure::Database { code: None };
    assert!(matches!(AppError::from_db_failure(&no_code), AppError::Internal(_)));
    assert!(matches!(AppError::from_db_failure(&DbFailure::RowNotFound),
        AppError::NotFound(ref m) if m == "العنصر المطلوب غير موجود."));
    assert!(matches!(AppError::from_db_failure(&DbFailure::Other),
        AppError::Internal(ref m) if m == "database error"));
}

#[test]
fn error_constructors_carry_their_message() {
    assert!(matches!(bad_request("a"), AppError::BadRequest(ref m) if m == "a"));
    assert!(matches!(unauthorized("b"), AppError::Unauthorized(ref m) if m == "b"));
    assert!(matches!(forbidden("لست عضواً في هذه المحادثة."), AppError::Forbidden(ref m) if m == "لست عضواً في هذه المحادثة."));
    assert!(matches!(not_found("d"), AppError::NotFound(ref m) if m == "d"));
    assert!(matches!(conflict("e"), AppError::Conflict(ref m) if m == "e"));
    assert!(matches!(unsupported_media("f"), AppError::UnsupportedMedia(ref m) if m == "f"));
    assert!(matches!(internal("g"), AppError::Internal(ref m) if m == "g"));
    assert_eq!(meev::error::concat("ab", "cd"), "abcd");
    assert!(str_eq("é", "é"));
    assert!(!str_eq("a", "ab"));
}
