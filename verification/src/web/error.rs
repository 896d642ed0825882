//! The error shape of the HTTP surface.

use vstd::prelude::*;
use crate::lee::error::{CompileError, ParseError};

verus! {

/// An API error: a status code with a message.
#[derive(Debug)]
pub struct APIError {
    pub code: u16,
    pub message: String,
}

/// Build an error from a code and a message.
pub fn api_error(code: u16, message: &str) -> (r: APIError)
    ensures
        r.code == code,
        r.message@ == message@,
{
    APIError { code, message: message.to_owned() }
}

/// A missing resource.
pub fn not_found(message: &str) -> (r: APIError)
    ensures
        r.code == 404,
        r.message@ == message@,
{
    api_error(404, message)
}

/// A request the server refuses.
pub fn bad_request(message: &str) -> (r: APIError)
    ensures
        r.code == 403,
        r.message@ == message@,
{
    api_error(403, message)
}

/// The catch-all missing-route answer.
pub fn catch404() -> (r: APIError)
    ensures
        r.code == 404,
        r.message@ == "not found"@,
{
    not_found("not found")
}

/// The catch-all server-fault answer.
pub fn catch500() -> (r: APIError)
    ensures
        r.code == 500,
        r.message@ == "internal server error"@,
{
    api_error(500, "internal server error")
}

impl APIError {
    /// A filter parse failure surfaces as a client error.
    pub fn from_parse(err: &ParseError) -> (r: APIError)
        ensures
            r.code == 400,
            r.message@ == "error parsing query: "@ + err.msg@,
    {
        let mut message = String::from_str("error parsing query: ");
        message.append(err.msg.as_str());
        APIError { code: 400, message }
    }

    /// A filter compile failure surfaces as a client error.
    pub fn from_compile(err: &CompileError) -> (r: APIError)
        ensures
            r.code == 400,
            r.message@ == "error compiling query: "@ + err.msg@,
    {
        let mut message = String::from_str("error compiling query: ");
        message.append(err.msg.as_str());
        APIError { code: 400, message }
    }
}

} // verus!
