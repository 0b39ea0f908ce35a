//! Checks on the `POST /query` request before any upstream call.

use vstd::prelude::*;

use crate::error::ApiError;
use crate::text::{chars_of, string_from_range, trim, trim_bounds};

verus! {

/// Longest retrieval code accepted, in characters.
pub const MAX_CODE_CHARS: usize = 64;

/// The retrieval code of a request: `raw` trimmed of surrounding whitespace;
/// refused when that is empty or longer than 64 characters.
pub fn validate_retrieval_code(raw: &str) -> (r: Result<String, ApiError>)
    ensures
        trim(raw@).len() == 0 ==> r matches Err(ApiError::EmptyCode),
        trim(raw@).len() > 64 ==> r matches Err(ApiError::CodeTooLong),
        0 < trim(raw@).len() <= 64 ==> (r matches Ok(code) && code@ == trim(raw@)),
{
    let v = chars_of(raw);
    let (lo, hi) = trim_bounds(&v, 0, v.len());
    assert(v@.subrange(0, v.len() as int) =~= v@);
    if lo == hi {
        return Err(ApiError::EmptyCode);
    }
    if hi - lo > MAX_CODE_CHARS {
        return Err(ApiError::CodeTooLong);
    }
    Ok(string_from_range(&v, lo, hi))
}

} // verus!
