//! Rate-limit response headers: case-insensitive lookup in a plain header
//! list, and decimal parsing of the three quota headers the service sends.

use vstd::prelude::*;

use crate::num::{int_text_val, int_text_wf, parse_i64};
use crate::time::{Timestamp, MAX_SECS};

verus! {

/// The three rate-limit headers of a response. Each is absent when the
/// response did not carry the header or its value was not a decimal
/// integer: a missing header never fails an otherwise successful call.
#[derive(Debug)]
pub struct ResponseHeaders {
    /// Rate-limit ceiling.
    pub ratelimit_limit: Option<i64>,
    /// Rate-limit remaining.
    pub ratelimit_remaining: Option<i64>,
    /// Rate-limit reset instant, in Unix seconds.
    pub ratelimit_reset: Option<i64>,
}

/// ASCII-case-insensitive character equality.
pub open spec fn eq_ci(a: char, b: char) -> bool {
    ||| a == b
    ||| (('A' as u32) <= (a as u32) <= ('Z' as u32) && (a as u32) + 32 == (b as u32))
    ||| (('A' as u32) <= (b as u32) <= ('Z' as u32) && (b as u32) + 32 == (a as u32))
}

/// ASCII-case-insensitive string equality.
pub open spec fn str_eq_ci(a: Seq<char>, b: Seq<char>) -> bool {
    a.len() == b.len() && forall|k: int| 0 <= k < a.len() ==> eq_ci(a[k], #[trigger] b[k])
}

/// The value of the first header whose name matches, ignoring ASCII case.
pub open spec fn lookup_ci(hs: Seq<(String, String)>, name: Seq<char>) -> Option<Seq<char>>
    decreases hs.len(),
{
    if hs.len() == 0 {
        None
    } else if str_eq_ci(hs[0].0@, name) {
        Some(hs[0].1@)
    } else {
        lookup_ci(hs.skip(1), name)
    }
}

/// The named header's value read as a decimal integer, absent when the
/// header is absent, malformed, or out of the `i64` range.
pub open spec fn parsed_header(hs: Seq<(String, String)>, name: Seq<char>) -> Option<i64> {
    match lookup_ci(hs, name) {
        Option::None => None,
        Option::Some(v) => if int_text_wf(v) && i64::MIN <= int_text_val(v) <= i64::MAX {
            Some(int_text_val(v) as i64)
        } else {
            None
        },
    }
}

/// ASCII-case-insensitive string comparison.
fn eq_ignore_case(a: &str, b: &str) -> (r: bool)
    ensures
        r == str_eq_ci(a@, b@),
{
    let na = a.unicode_len();
    let nb = b.unicode_len();
    if na != nb {
        return false;
    }
    let mut i: usize = 0;
    while i < na
        invariant
            0 <= i <= na,
            na == a@.len() && na == b@.len(),
            forall|k: int| 0 <= k < i ==> eq_ci(a@[k], #[trigger] b@[k]),
        decreases na - i,
    {
        let ca = a.get_char(i);
        let cb = b.get_char(i);
        let la: u32 = if ca as u32 >= 'A' as u32 && ca as u32 <= 'Z' as u32 {
            ca as u32 + 32
        } else {
            ca as u32
        };
        let lb: u32 = if cb as u32 >= 'A' as u32 && cb as u32 <= 'Z' as u32 {
            cb as u32 + 32
        } else {
            cb as u32
        };
        if la != lb {
            proof {
                assert(!eq_ci(a@[i as int], b@[i as int]));
            }
            return false;
        }
        i = i + 1;
    }
    true
}

/// The value of the first header with the given name, ignoring ASCII case.
#[verifier::loop_isolation(false)]
fn lookup_header<'a>(headers: &'a Vec<(String, String)>, name: &str) -> (r: Option<&'a String>)
    ensures
        match r {
            Option::Some(v) => lookup_ci(headers@, name@) == Some(v@),
            Option::None => lookup_ci(headers@, name@) is None,
        },
{
    let n = headers.len();
    let mut i: usize = 0;
    proof {
        assert(headers@.skip(0) =~= headers@);
    }
    while i < n
        invariant
            0 <= i <= n,
            lookup_ci(headers@, name@) == lookup_ci(headers@.skip(i as int), name@),
        decreases n - i,
    {
        if eq_ignore_case(headers[i].0.as_str(), name) {
            proof {
                assert(headers@.skip(i as int)[0] == headers@[i as int]);
            }
            return Some(&headers[i].1);
        }
        proof {
            assert(headers@.skip(i as int)[0] == headers@[i as int]);
            assert(headers@.skip(i as int).skip(1) =~= headers@.skip(i + 1));
        }
        i = i + 1;
    }
    proof {
        assert(headers@.skip(n as int) =~= Seq::<(String, String)>::empty());
    }
    None
}

/// Extract the three rate-limit headers from a response's header list.
/// Header names match ignoring ASCII case; a header that is absent or does
/// not carry a decimal integer leaves its field absent.
pub fn parse_response_headers(headers: &Vec<(String, String)>) -> (r: ResponseHeaders)
    ensures
        r.ratelimit_limit == parsed_header(headers@, "X-Ratelimit-Limit"@),
        r.ratelimit_remaining == parsed_header(headers@, "X-Ratelimit-Remaining"@),
        r.ratelimit_reset == parsed_header(headers@, "X-Ratelimit-Reset"@),
{
    let ratelimit_limit = match lookup_header(headers, "X-Ratelimit-Limit") {
        Option::Some(v) => parse_i64(v.as_str()),
        Option::None => None,
    };
    let ratelimit_remaining = match lookup_header(headers, "X-Ratelimit-Remaining") {
        Option::Some(v) => parse_i64(v.as_str()),
        Option::None => None,
    };
    let ratelimit_reset = match lookup_header(headers, "X-Ratelimit-Reset") {
        Option::Some(v) => parse_i64(v.as_str()),
        Option::None => None,
    };
    ResponseHeaders { ratelimit_limit, ratelimit_remaining, ratelimit_reset }
}

/// The reset header as an instant: whole Unix seconds, no sub-second part;
/// absent when the header was absent or out of the representable range.
pub open spec fn reset_time_spec(h: ResponseHeaders) -> Option<Timestamp> {
    match h.ratelimit_reset {
        Option::Some(s) => if 0 <= s <= MAX_SECS {
            Some(Timestamp { secs: s, nanos: 0u32 })
        } else {
            None
        },
        Option::None => None,
    }
}

impl ResponseHeaders {
    /// The rate-limit reset instant, when the reset header was present and
    /// in range.
    pub fn ratelimit_reset_time(&self) -> (r: Option<Timestamp>)
        ensures
            r == reset_time_spec(*self),
    {
        match self.ratelimit_reset {
            Option::Some(s) => if 0 <= s && s <= MAX_SECS {
                Some(Timestamp::from_unix_seconds(s))
            } else {
                None
            },
            Option::None => None,
        }
    }
}

} // verus!
