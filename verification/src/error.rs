//! Central application error type and its mapping to HTTP responses.
//! Database errors never leak internal details.
use vstd::prelude::*;

use crate::text::{chars_eq, chars_of, string_of};

verus! {

/// Errors returned by every handler.
#[derive(Debug, Clone)]
pub enum AppError {
    BadRequest(String),
    Unauthorized(String),
    Forbidden(String),
    NotFound(String),
    Conflict(String),
    RateLimited(u64),
    PayloadTooLarge,
    UnsupportedMedia(String),
    Internal(String),
}

/// Mathematical model of an [`AppError`]: messages as character sequences.
pub enum ErrorView {
    BadRequest(Seq<char>),
    Unauthorized(Seq<char>),
    Forbidden(Seq<char>),
    NotFound(Seq<char>),
    Conflict(Seq<char>),
    RateLimited(u64),
    PayloadTooLarge,
    UnsupportedMedia(Seq<char>),
    Internal(Seq<char>),
}

impl View for AppError {
    type V = ErrorView;

    open spec fn view(&self) -> ErrorView {
        match self {
            AppError::BadRequest(m) => ErrorView::BadRequest(m@),
            AppError::Unauthorized(m) => ErrorView::Unauthorized(m@),
            AppError::Forbidden(m) => ErrorView::Forbidden(m@),
            AppError::NotFound(m) => ErrorView::NotFound(m@),
            AppError::Conflict(m) => ErrorView::Conflict(m@),
            AppError::RateLimited(r) => ErrorView::RateLimited(*r),
            AppError::PayloadTooLarge => ErrorView::PayloadTooLarge,
            AppError::UnsupportedMedia(m) => ErrorView::UnsupportedMedia(m@),
            AppError::Internal(m) => ErrorView::Internal(m@),
        }
    }
}

/// Model of a `Result<String, AppError>`.
pub open spec fn text_outcome(r: Result<String, AppError>) -> Result<Seq<char>, ErrorView> {
    match r {
        Ok(s) => Ok(s@),
        Err(e) => Err(e@),
    }
}

/// Model of a `Result<(), AppError>`.
pub open spec fn unit_outcome(r: Result<(), AppError>) -> Result<(), ErrorView> {
    match r {
        Ok(_) => Ok(()),
        Err(e) => Err(e@),
    }
}

pub fn bad_request(msg: &str) -> (e: AppError)
    ensures
        e@ == ErrorView::BadRequest(msg@),
{
    AppError::BadRequest(msg.to_owned())
}

pub fn unauthorized(msg: &str) -> (e: AppError)
    ensures
        e@ == ErrorView::Unauthorized(msg@),
{
    AppError::Unauthorized(msg.to_owned())
}

pub fn forbidden(msg: &str) -> (e: AppError)
    ensures
        e@ == ErrorView::Forbidden(msg@),
{
    AppError::Forbidden(msg.to_owned())
}

pub fn not_found(msg: &str) -> (e: AppError)
    ensures
        e@ == ErrorView::NotFound(msg@),
{
    AppError::NotFound(msg.to_owned())
}

pub fn conflict(msg: &str) -> (e: AppError)
    ensures
        e@ == ErrorView::Conflict(msg@),
{
    AppError::Conflict(msg.to_owned())
}

pub fn unsupported_media(msg: &str) -> (e: AppError)
    ensures
        e@ == ErrorView::UnsupportedMedia(msg@),
{
    AppError::UnsupportedMedia(msg.to_owned())
}

pub fn internal(msg: &str) -> (e: AppError)
    ensures
        e@ == ErrorView::Internal(msg@),
{
    AppError::Internal(msg.to_owned())
}

/// Equality of two string slices by their characters.
pub fn str_eq(a: &str, b: &str) -> (r: bool)
    ensures
        r == (a@ == b@),
{
    let x = chars_of(a);
    let y = chars_of(b);
    chars_eq(x.as_slice(), y.as_slice())
}

/// Concatenation of two string slices.
pub fn concat(a: &str, b: &str) -> (r: String)
    ensures
        r@ == a@ + b@,
{
    let mut v = chars_of(a);
    let w = chars_of(b);
    let mut i: usize = 0;
    let ghost start = v@;
    while i < w.len()
        invariant
            i <= w@.len(),
            v@ == start + w@.take(i as int),
        decreases w@.len() - i,
    {
        v.push(w[i]);
        assert(w@.take(i + 1) =~= w@.take(i as int).push(w@[i as int]));
        i = i + 1;
    }
    assert(w@.take(w@.len() as int) =~= w@);
    string_of(v.as_slice())
}

// ---------------------------------------------------------------------------
// HTTP response parts
// ---------------------------------------------------------------------------

pub open spec fn msg_rate_limited() -> Seq<char> {
    "تم تجاوز حد الطلبات المسموح. حاول مرة أخرى بعد قليل."@
}

pub open spec fn msg_payload_too_large() -> Seq<char> {
    "حجم الملف المرفوع أكبر من الحد المسموح."@
}

pub open spec fn msg_internal() -> Seq<char> {
    "حدث خطأ غير متوقع في الخادم."@
}

/// What an error becomes on the wire: status code, message, an optional
/// `Retry-After` value and whether the body is the JSON envelope
/// `{"error": message, "code": status}` (every error response has it).
#[derive(Debug)]
pub struct ErrorResponse {
    pub status: u16,
    pub message: String,
    pub retry_after: Option<u64>,
    pub json_body: bool,
}

/// The (status, message, retry-after, json) quadruple of an error response.
pub open spec fn response_of(e: ErrorView) -> (u16, Seq<char>, Option<u64>, bool) {
    match e {
        ErrorView::BadRequest(m) => (400, m, None, true),
        ErrorView::Unauthorized(m) => (401, m, None, true),
        ErrorView::Forbidden(m) => (403, m, None, true),
        ErrorView::NotFound(m) => (404, m, None, true),
        ErrorView::Conflict(m) => (409, m, None, true),
        ErrorView::RateLimited(r) => (429, msg_rate_limited(), Some(r), true),
        ErrorView::PayloadTooLarge => (413, msg_payload_too_large(), None, true),
        ErrorView::UnsupportedMedia(m) => (415, m, None, true),
        ErrorView::Internal(_) => (500, msg_internal(), None, true),
    }
}

impl AppError {
    /// The response this error is turned into.  Internal details are
    /// replaced by a generic message.
    pub fn response_parts(&self) -> (r: ErrorResponse)
        ensures
            (r.status, r.message@, r.retry_after, r.json_body) == response_of(self@),
    {
        match self {
            AppError::BadRequest(m) => ErrorResponse {
                status: 400,
                message: m.clone(),
                retry_after: None,
                json_body: true,
            },
            AppError::Unauthorized(m) => ErrorResponse {
                status: 401,
                message: m.clone(),
                retry_after: None,
                json_body: true,
            },
            AppError::Forbidden(m) => ErrorResponse {
                status: 403,
                message: m.clone(),
                retry_after: None,
                json_body: true,
            },
            AppError::NotFound(m) => ErrorResponse {
                status: 404,
                message: m.clone(),
                retry_after: None,
                json_body: true,
            },
            AppError::Conflict(m) => ErrorResponse {
                status: 409,
                message: m.clone(),
                retry_after: None,
                json_body: true,
            },
            AppError::RateLimited(r) => ErrorResponse {
                status: 429,
                message: "تم تجاوز حد الطلبات المسموح. حاول مرة أخرى بعد قليل.".to_owned(),
                retry_after: Some(*r),
                json_body: true,
            },
            AppError::PayloadTooLarge => ErrorResponse {
                status: 413,
                message: "حجم الملف المرفوع أكبر من الحد المسموح.".to_owned(),
                retry_after: None,
                json_body: true,
            },
            AppError::UnsupportedMedia(m) => ErrorResponse {
                status: 415,
                message: m.clone(),
                retry_after: None,
                json_body: true,
            },
            AppError::Internal(_) => ErrorResponse {
                status: 500,
                message: "حدث خطأ غير متوقع في الخادم.".to_owned(),
                retry_after: None,
                json_body: true,
            },
        }
    }
}

// ---------------------------------------------------------------------------
// Database failures
// ---------------------------------------------------------------------------

/// What the database layer reports, as plain values: a database error with
/// its SQLSTATE code, a missing row, or any other failure.
#[derive(Debug)]
pub enum DbFailure {
    Database { code: Option<String> },
    RowNotFound,
    Other,
}

pub open spec fn msg_duplicate() -> Seq<char> {
    "هذا الاسم أو البريد الإلكتروني مستخدم بالفعل."@
}

pub open spec fn msg_bad_reference() -> Seq<char> {
    "مرجع غير صالح."@
}

pub open spec fn msg_bad_value() -> Seq<char> {
    "قيمة غير صالحة."@
}

pub open spec fn msg_item_missing() -> Seq<char> {
    "العنصر المطلوب غير موجود."@
}

pub open spec fn msg_database_error() -> Seq<char> {
    "database error"@
}

/// The error a database failure is mapped to.
pub open spec fn db_error_of(code: Option<Seq<char>>) -> ErrorView {
    let c = match code {
        Some(c) => c,
        None => Seq::<char>::empty(),
    };
    if c == "23505"@ {
        ErrorView::Conflict(msg_duplicate())
    } else if c == "23503"@ {
        ErrorView::BadRequest(msg_bad_reference())
    } else if c == "23514"@ {
        ErrorView::BadRequest(msg_bad_value())
    } else if c == "22001"@ {
        ErrorView::PayloadTooLarge
    } else {
        ErrorView::Internal(msg_database_error())
    }
}

impl AppError {
    /// Maps a database failure: unique violation -> Conflict, foreign key ->
    /// BadRequest, check violation -> BadRequest with a fixed message (no database text),
    /// string too long -> PayloadTooLarge, missing row -> NotFound, anything
    /// else -> Internal.
    pub fn from_db_failure(f: &DbFailure) -> (e: AppError)
        ensures
            e@ == match f {
                DbFailure::Database { code } => db_error_of(
                    match code {
                        Some(c) => Some(c@),
                        None => None,
                    },
                ),
                DbFailure::RowNotFound => ErrorView::NotFound(msg_item_missing()),
                DbFailure::Other => ErrorView::Internal(msg_database_error()),
            },
    {
        match f {
            DbFailure::Database { code } => {
                let c: String = match code {
                    Some(c) => c.clone(),
                    None => String::new(),
                };
                if str_eq(c.as_str(), "23505") {
                    conflict("هذا الاسم أو البريد الإلكتروني مستخدم بالفعل.")
                } else if str_eq(c.as_str(), "23503") {
                    bad_request("مرجع غير صالح.")
                } else if str_eq(c.as_str(), "23514") {
                    bad_request("قيمة غير صالحة.")
                } else if str_eq(c.as_str(), "22001") {
                    AppError::PayloadTooLarge
                } else {
                    internal("database error")
                }
            },
            DbFailure::RowNotFound => not_found("العنصر المطلوب غير موجود."),
            DbFailure::Other => internal("database error"),
        }
    }
}

} // verus!
