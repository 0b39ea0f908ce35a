//! Errors of the API surface, and the HTTP status and public message that
//! each one is answered with.
//!
//! Errors the query loop recovers from (a mis-solved captcha) never become an
//! `ApiError`; they end as a `QueryResponse` with `success: false`.

use vstd::prelude::*;

use crate::text::{nat_decimal, u64_to_string};

verus! {

/// Top-level error of the API surface.
#[derive(Debug)]
pub enum ApiError {
    /// The retrieval code is empty once trimmed.
    EmptyCode,
    /// The retrieval code is longer than 64 characters once trimmed.
    CodeTooLong,
    /// Upstream could not be reached; carries the transport error's text.
    Network(String),
    /// Upstream answered with something that is not JSON.
    BadJson,
    /// The captcha could not be solved in the given number of attempts.
    CaptchaExhausted(u32),
    /// Any other failure; carries its description.
    Internal(String),
}

/// The error's description (its `Display` text).
pub open spec fn error_text(e: ApiError) -> Seq<char> {
    match e {
        ApiError::EmptyCode => "retrieval code cannot be empty"@,
        ApiError::CodeTooLong => "retrieval code too long (max 64 chars)"@,
        ApiError::Network(d) => "upstream network error: "@ + d@,
        ApiError::BadJson => "upstream returned non-JSON response"@,
        ApiError::CaptchaExhausted(n) => "captcha recognition failed after "@ + nat_decimal(
            n as nat,
        ) + " attempts"@,
        ApiError::Internal(d) => "internal error: "@ + d@,
    }
}

/// The HTTP status the error is answered with.
pub open spec fn error_status(e: ApiError) -> u16 {
    match e {
        ApiError::EmptyCode | ApiError::CodeTooLong => 400,
        ApiError::Network(_) | ApiError::BadJson => 502,
        ApiError::CaptchaExhausted(_) => 503,
        ApiError::Internal(_) => 500,
    }
}

/// The message the error is answered with: the description for a bad
/// request, a fixed text otherwise (details stay in the server's log).
pub open spec fn error_public_text(e: ApiError) -> Seq<char> {
    match e {
        ApiError::EmptyCode | ApiError::CodeTooLong => error_text(e),
        ApiError::Network(_) => "upstream unreachable"@,
        ApiError::BadJson => "bad upstream response"@,
        ApiError::CaptchaExhausted(_) => "captcha solve failed; please retry"@,
        ApiError::Internal(_) => "internal error"@,
    }
}

impl ApiError {
    /// The error's description.
    pub fn message(&self) -> (r: String)
        ensures
            r@ == error_text(*self),
    {
        match self {
            ApiError::EmptyCode => String::from_str("retrieval code cannot be empty"),
            ApiError::CodeTooLong => String::from_str("retrieval code too long (max 64 chars)"),
            ApiError::Network(d) => {
                let mut s = String::from_str("upstream network error: ");
                s.append(d.as_str());
                s
            },
            ApiError::BadJson => String::from_str("upstream returned non-JSON response"),
            ApiError::CaptchaExhausted(n) => {
                let mut s = String::from_str("captcha recognition failed after ");
                let num = u64_to_string(*n as u64);
                s.append(num.as_str());
                s.append(" attempts");
                s
            },
            ApiError::Internal(d) => {
                let mut s = String::from_str("internal error: ");
                s.append(d.as_str());
                s
            },
        }
    }

    /// The HTTP status code of the error's response.
    pub fn status_code(&self) -> (r: u16)
        ensures
            r == error_status(*self),
    {
        match self {
            ApiError::EmptyCode | ApiError::CodeTooLong => 400,
            ApiError::Network(_) | ApiError::BadJson => 502,
            ApiError::CaptchaExhausted(_) => 503,
            ApiError::Internal(_) => 500,
        }
    }

    /// The `error` message of the error's response body.
    pub fn public_message(&self) -> (r: String)
        ensures
            r@ == error_public_text(*self),
    {
        match self {
            ApiError::EmptyCode | ApiError::CodeTooLong => self.message(),
            ApiError::Network(_) => String::from_str("upstream unreachable"),
            ApiError::BadJson => String::from_str("bad upstream response"),
            ApiError::CaptchaExhausted(_) => String::from_str("captcha solve failed; please retry"),
            ApiError::Internal(_) => String::from_str("internal error"),
        }
    }
}

} // verus!
