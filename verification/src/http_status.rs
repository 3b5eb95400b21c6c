//! HTTP status codes.

use vstd::prelude::*;

use crate::text::{ascii, decimal, law_decimal_parses, parsed_u64};

verus! {

/// `206 Partial Content`.
pub const PARTIAL_CONTENT: u16 = 206;

/// `200 OK`.
pub const OK_STATUS: u16 = 200;

/// `429 Too Many Requests`.
pub const TOO_MANY_REQUESTS: u16 = 429;

/// Whether `status` is a number that a status code can have.
pub open spec fn is_status(status: u16) -> bool {
    100 <= status <= 999
}

/// What `reqwest::StatusCode` prints behind the number of a status code.
pub uninterp spec fn status_reason(status: u16) -> Seq<char>;

/// `reqwest::StatusCode::is_server_error`: true of the codes from 500 to 599.
#[verifier::external_body]
pub(crate) fn is_server_error(status: u16) -> (r: bool)
    requires
        is_status(status),
    ensures
        r == (500 <= status <= 599),
{
    reqwest::StatusCode::from_u16(status).unwrap().is_server_error()
}

/// `reqwest::StatusCode::is_success`: true of the codes from 200 to 299.
#[verifier::external_body]
pub(crate) fn is_success(status: u16) -> (r: bool)
    requires
        is_status(status),
    ensures
        r == (200 <= status <= 299),
{
    reqwest::StatusCode::from_u16(status).unwrap().is_success()
}

/// `Display` of `reqwest::StatusCode`: the number, a space and the reason phrase, which is named.
#[verifier::external_body]
pub(crate) fn status_text(status: u16) -> (r: String)
    requires
        is_status(status),
    ensures
        r@ == decimal(status as nat) + seq![' '] + status_reason(status),
{
    reqwest::StatusCode::from_u16(status).unwrap().to_string()
}

/// What is printed of a status code.
pub open spec fn status_line(status: u16) -> Seq<char> {
    decimal(status as nat) + seq![' '] + status_reason(status)
}

/// A status prints as its number, a space and its reason; the numbers are those of three digits.
pub proof fn law_status_line(status: u16)
    ensures
        is_status(status) <==> 100 <= status < 1000,
        ({
            let n = decimal(status as nat).len() as int;
            &&& parsed_u64(ascii(status_line(status).take(n))) == Some(status as u64)
            &&& status_line(status)[n] == ' '
            &&& status_line(status).skip(n + 1) == status_reason(status)
        }),
{
    let d = decimal(status as nat);
    let n = d.len() as int;
    law_decimal_parses(status as u64);
    assert(status_line(status).take(n) =~= d);
    assert(status_line(status).skip(n + 1) =~= status_reason(status));
}

} // verus!
