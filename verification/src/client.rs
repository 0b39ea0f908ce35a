//! What the service knows of the upstream 12377.cn API: its response codes,
//! the shape of a query response, the lenient reading of its integer fields,
//! and the `guestKey` cookie it expects.

use rand::Rng;
use vstd::prelude::*;

use crate::text::{is_digit, parse_i64, parse_i64_spec};

verus! {

/// Upstream code of a successful query.
pub const SUCCESS_CODE: i64 = 1000;

/// Upstream code of a rejected captcha answer.
pub const CAPTCHA_ERR_CODE: i64 = 3104;

/// A query response from upstream.
#[derive(Debug)]
pub struct QueryResp {
    pub code: i64,
    pub total: i64,
    pub message: String,
    pub data: Vec<RawRecord>,
}

/// One report record as upstream sends it.
#[derive(Debug)]
pub struct RawRecord {
    pub harm_type_top_str: String,
    pub retrieval_code: String,
    pub report_time_str_day: String,
    pub harm_url: String,
    pub quick_reply: String,
}

/// The JSON value found where upstream sends an integer field, reduced to
/// what the lenient reading distinguishes.
#[derive(Debug)]
pub enum JsonScalar {
    /// A number that fits in an `i64`.
    Integer(i64),
    /// Any other number (fractional, or out of `i64` range).
    OtherNumber,
    /// A string.
    Text(String),
    /// `null`.
    Null,
    /// An array, object or boolean.
    Other,
}

/// Why a lenient integer field was rejected.
#[derive(Debug, PartialEq, Eq, Structural)]
pub enum LenientError {
    /// A number that is not an `i64`.
    NotI64,
    /// A string that does not parse as an `i64`.
    NotNumericString,
    /// Neither a number, a string nor `null`.
    WrongType,
}

/// What the lenient reading makes of a value.
pub open spec fn lenient_value(v: JsonScalar) -> Result<int, LenientError> {
    match v {
        JsonScalar::Integer(n) => Ok(n as int),
        JsonScalar::OtherNumber => Err(LenientError::NotI64),
        JsonScalar::Text(s) => match parse_i64_spec(s@) {
            Some(n) => Ok(n),
            None => Err(LenientError::NotNumericString),
        },
        JsonScalar::Null => Ok(0),
        JsonScalar::Other => Err(LenientError::WrongType),
    }
}

/// Reads an integer field that upstream sends either as a JSON number or as a
/// numeric string; `null` reads as 0.
pub fn lenient_i64(v: JsonScalar) -> (r: Result<i64, LenientError>)
    ensures
        match (r, lenient_value(v)) {
            (Ok(n), Ok(m)) => n as int == m,
            (Err(e), Err(f)) => e == f,
            _ => false,
        },
{
    match v {
        JsonScalar::Integer(n) => Ok(n),
        JsonScalar::OtherNumber => Err(LenientError::NotI64),
        JsonScalar::Text(s) => match parse_i64(s.as_str()) {
            Some(n) => Ok(n),
            None => Err(LenientError::NotNumericString),
        },
        JsonScalar::Null => Ok(0),
        JsonScalar::Other => Err(LenientError::WrongType),
    }
}

// ---------------------------------------------------------------------------
// guestKey
// ---------------------------------------------------------------------------

/// The alphabet of the random part of a `guestKey`.
pub open spec fn guest_alphabet() -> Seq<char> {
    "0123456789ABCDEFGHIJKLMNOPQRSTUVWXYZ"@
}

/// A `guestKey`: the timestamp text followed by the alphabet letters at `picks`.
pub open spec fn guest_key_text(stamp: Seq<char>, picks: Seq<usize>) -> Seq<char> {
    stamp + Seq::new(picks.len(), |i: int| guest_alphabet()[picks[i] as int])
}

/// The `guestKey` made of the timestamp `stamp` and the alphabet letters at
/// `picks`.
pub fn guest_key_from(stamp: &str, picks: &Vec<usize>) -> (r: String)
    requires
        forall|i: int| 0 <= i < picks.len() ==> #[trigger] picks[i] < 36,
    ensures
        r@ == guest_key_text(stamp@, picks@),
{
    let alphabet = "0123456789ABCDEFGHIJKLMNOPQRSTUVWXYZ";
    proof {
        reveal_strlit("0123456789ABCDEFGHIJKLMNOPQRSTUVWXYZ");
    }
    let mut key = String::from_str(stamp);
    let mut i: usize = 0;
    while i < picks.len()
        invariant
            i <= picks.len(),
            alphabet@ == guest_alphabet(),
            alphabet@.len() == 36,
            forall|j: int| 0 <= j < picks.len() ==> #[trigger] picks[j] < 36,
            key@ == stamp@ + Seq::new(i as nat, |j: int| guest_alphabet()[picks[j] as int]),
        decreases picks.len() - i,
    {
        let c = alphabet.get_char(picks[i]);
        crate::text::push_char(&mut key, c);
        i = i + 1;
        assert(key@ =~= stamp@ + Seq::new(i as nat, |j: int| guest_alphabet()[picks[j] as int]));
    }
    key
}

/// A text of at least 14 characters whose last 10 are ASCII digits.
pub open spec fn is_timestamp_text(t: Seq<char>) -> bool {
    &&& t.len() >= 14
    &&& forall|i: int| t.len() - 10 <= i < t.len() ==> is_digit(#[trigger] t[i])
}

/// The local time as `YYYYMMDDHHmmss`, via chrono's `Local::now()` formatted
/// with `%Y%m%d%H%M%S`. chrono writes the year as at least four characters
/// (zero-padded digits, with a sign outside 0..=9999) and each other field as
/// exactly two digits; that is what is claimed. Which time it is depends on
/// the clock and the machine's time zone and is not claimed.
#[verifier::external_body]
fn local_timestamp() -> (r: String)
    ensures
        is_timestamp_text(r@),
{
    chrono::Local::now().format("%Y%m%d%H%M%S").to_string()
}

/// A uniformly random index below `n`, via rand's `thread_rng().gen_range(0..n)`,
/// which returns a value of the half-open range and panics only when it is
/// empty.
#[verifier::external_body]
fn random_below(n: usize) -> (r: usize)
    requires
        n > 0,
    ensures
        r < n,
{
    rand::thread_rng().gen_range(0..n)
}

/// A fresh `guestKey`: the local time as `YYYYMMDDHHmmss` followed by six
/// random characters of `[0-9A-Z]`.
pub fn generate_guest_key() -> (r: String)
    ensures
        r@.len() >= 20,
        exists|stamp: Seq<char>, picks: Seq<usize>|
            {
                &&& is_timestamp_text(stamp)
                &&& picks.len() == 6
                &&& forall|i: int| 0 <= i < 6 ==> #[trigger] picks[i] < 36
                &&& r@ == guest_key_text(stamp, picks)
            },
{
    let stamp = local_timestamp();
    let mut picks: Vec<usize> = Vec::new();
    let mut k: usize = 0;
    while k < 6
        invariant
            k <= 6,
            picks.len() == k,
            forall|i: int| 0 <= i < k ==> #[trigger] picks[i] < 36,
        decreases 6 - k,
    {
        picks.push(random_below(36));
        k = k + 1;
    }
    let key = guest_key_from(stamp.as_str(), &picks);
    assert(picks@.len() == 6);
    key
}

} // verus!
