//! Runtime configuration, from the values of the environment variables
//! `HOST`, `PORT`, `MAX_RETRIES`, `CAPTCHA_TIMEOUT` and `QUERY_TIMEOUT`.

use vstd::prelude::*;

use crate::text::{parse_u16, parse_u32, parse_u64, parse_unsigned};

verus! {

/// Process configuration.
#[derive(Debug, Clone)]
pub struct Config {
    pub host: String,
    pub port: u16,
    pub max_retries: u32,
    pub captcha_timeout_secs: u64,
    pub query_timeout_secs: u64,
}

/// An optional variable read as an unsigned number no larger than `max`,
/// falling back to `default` when it is unset or does not parse.
pub open spec fn number_or(var: Option<String>, max: nat, default: nat) -> nat {
    match var {
        Some(text) => match parse_unsigned(text@, max) {
            Some(v) => v,
            None => default,
        },
        None => default,
    }
}

impl Config {
    /// The configuration for the given variable values (`None` for an unset
    /// variable): host `0.0.0.0`, port 8000, 5 attempts, 15 s to fetch a
    /// captcha and 30 s for a query unless set; a value that does not parse
    /// as a number of the field's type counts as unset.
    pub fn from_vars(
        host: Option<String>,
        port: Option<String>,
        max_retries: Option<String>,
        captcha_timeout: Option<String>,
        query_timeout: Option<String>,
    ) -> (c: Config)
        ensures
            c.host@ == match host {
                Some(h) => h@,
                None => "0.0.0.0"@,
            },
            c.port == number_or(port, u16::MAX as nat, 8000),
            c.max_retries == number_or(max_retries, u32::MAX as nat, 5),
            c.captcha_timeout_secs == number_or(captcha_timeout, u64::MAX as nat, 15),
            c.query_timeout_secs == number_or(query_timeout, u64::MAX as nat, 30),
    {
        let host = match host {
            Some(h) => h,
            None => String::from_str("0.0.0.0"),
        };
        let port = match port {
            Some(p) => match parse_u16(p.as_str()) {
                Some(v) => v,
                None => 8000,
            },
            None => 8000,
        };
        let max_retries = match max_retries {
            Some(n) => match parse_u32(n.as_str()) {
                Some(v) => v,
                None => 5,
            },
            None => 5,
        };
        let captcha_timeout_secs = match captcha_timeout {
            Some(n) => match parse_u64(n.as_str()) {
                Some(v) => v,
                None => 15,
            },
            None => 15,
        };
        let query_timeout_secs = match query_timeout {
            Some(n) => match parse_u64(n.as_str()) {
                Some(v) => v,
                None => 30,
            },
            None => 30,
        };
        Config { host, port, max_retries, captcha_timeout_secs, query_timeout_secs }
    }
}

} // verus!
