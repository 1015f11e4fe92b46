//! Identifiers: UUIDs are carried as their 128-bit value (`Uuid::as_u128`).
use vstd::prelude::*;

use crate::error::{bad_request, AppError, ErrorView};

verus! {

/// What `uuid::Uuid::parse_str` accepts and returns for a string, as the
/// 128-bit value of the UUID (`None` where it returns an error).
pub uninterp spec fn uuid_parse(s: Seq<char>) -> Option<u128>;

/// Calls `uuid::Uuid::parse_str`; the result is named by `uuid_parse`.
#[verifier::external_body]
fn parse_uuid(s: &str) -> (r: Option<u128>)
    ensures
        r == uuid_parse(s@),
{
    match uuid::Uuid::parse_str(s) {
        Ok(u) => Some(u.as_u128()),
        Err(_) => None,
    }
}

/// A fresh random (version 4) UUID from `uuid::Uuid::new_v4`.  Nothing is
/// promised of the value: it comes from the operating system's generator.
#[verifier::external_body]
pub(crate) fn new_id() -> (r: u128) {
    uuid::Uuid::new_v4().as_u128()
}

pub open spec fn hex_digit(n: u128) -> char {
    if n < 10 {
        (('0' as u32) + (n as u32)) as char
    } else {
        (('a' as u32) + (n as u32) - 10) as char
    }
}

/// The `k`-th hexadecimal digit of `x`, most significant first.
pub open spec fn nibble(x: u128, k: int) -> u128 {
    (x >> ((4 * (31 - k)) as u128)) & 15
}

/// The 32 lower-case hexadecimal digits of `x`.
pub open spec fn uuid_simple(x: u128) -> Seq<char> {
    Seq::new(32, |k: int| hex_digit(nibble(x, k)))
}

/// The hyphenated lower-case form `xxxxxxxx-xxxx-xxxx-xxxx-xxxxxxxxxxxx`.
pub open spec fn uuid_text(x: u128) -> Seq<char> {
    let s = uuid_simple(x);
    s.subrange(0, 8) + seq!['-'] + s.subrange(8, 12) + seq!['-'] + s.subrange(12, 16) + seq!['-']
        + s.subrange(16, 20) + seq!['-'] + s.subrange(20, 32)
}

/// Formats a UUID with `Display` (hyphenated, lower-case hexadecimal).
#[verifier::external_body]
pub(crate) fn uuid_string(x: u128) -> (r: String)
    ensures
        r@ == uuid_text(x),
{
    uuid::Uuid::from_u128(x).to_string()
}

pub open spec fn msg_bad_id() -> Seq<char> {
    "معرّف غير صالح."@
}

/// The outcome of parsing an identifier.
pub open spec fn id_outcome(s: Seq<char>) -> Result<u128, ErrorView> {
    match uuid_parse(s) {
        Some(x) => Ok(x),
        None => Err(ErrorView::BadRequest(msg_bad_id())),
    }
}

pub open spec fn id_result(r: Result<u128, AppError>) -> Result<u128, ErrorView> {
    match r {
        Ok(x) => Ok(x),
        Err(e) => Err(e@),
    }
}

/// Parses a UUID, rejecting anything `uuid` does not accept with BadRequest.
pub fn uuid_from_str(s: &str) -> (r: Result<u128, AppError>)
    ensures
        id_result(r) == id_outcome(s@),
{
    match parse_uuid(s) {
        Some(x) => Ok(x),
        None => Err(bad_request("معرّف غير صالح.")),
    }
}

/// A UUID taken from a path parameter.
pub fn uuid_param(s: &str) -> (r: Result<u128, AppError>)
    ensures
        id_result(r) == id_outcome(s@),
{
    uuid_from_str(s)
}

} // verus!
