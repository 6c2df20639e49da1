//! HTTP status codes as numbers.

use hyper::StatusCode;
use vstd::prelude::*;

use crate::text;
use crate::text::decimal_text;

verus! {

/// Success.
pub const OK: u16 = 200;

/// The reply holds the part of the resource that was asked for.
pub const PARTIAL_CONTENT: u16 = 206;

/// The proxy cannot act on the request.
pub const BAD_REQUEST: u16 = 400;

/// The upstream server failed the proxy.
pub const BAD_GATEWAY: u16 = 502;

/// The standard reason phrase of a status code, for the codes that have one.
pub uninterp spec fn reason_phrase(code: u16) -> Option<Seq<char>>;

/// Whether a number is a status code: it has three digits.
pub open spec fn is_status(code: u16) -> bool {
    100 <= code <= 999
}

/// Whether a status code reports success.
pub open spec fn is_success(code: u16) -> bool {
    200 <= code < 300
}

/// A status code with a reason phrase, or with a remark where it has none.
pub open spec fn line_with(code: u16, phrase: Option<Seq<char>>) -> Seq<char> {
    text::decimal(code as nat) + " "@ + match phrase {
        Some(phrase) => phrase,
        None => "<unknown status code>"@,
    }
}

/// A status code with its reason phrase.
pub open spec fn status_line(code: u16) -> Seq<char> {
    line_with(code, reason_phrase(code))
}

/// `StatusCode::canonical_reason`: the reason phrase that the `http` crate lists for a code.
#[verifier::external_body]
pub(crate) fn canonical_reason(code: u16) -> (phrase: Option<String>)
    requires
        is_status(code),
    ensures
        match phrase {
            Some(phrase) => reason_phrase(code) == Some(phrase@),
            None => reason_phrase(code) is None,
        },
        code == BAD_REQUEST ==> phrase is Some && phrase->0@ == "Bad Request"@,
        code == BAD_GATEWAY ==> phrase is Some && phrase->0@ == "Bad Gateway"@,
{
    StatusCode::from_u16(code).unwrap().canonical_reason().map(|phrase| phrase.to_string())
}

/// Writes a status code with the given reason phrase.
pub fn line_text(code: u16, phrase: Option<String>) -> (line: String)
    ensures
        line@ == line_with(
            code,
            match phrase {
                Some(phrase) => Some(phrase@),
                None => None,
            },
        ),
{
    let mut line = decimal_text(code as u64);
    line.append(" ");
    match phrase {
        Some(phrase) => {
            line.append(phrase.as_str());
        },
        None => {
            line.append("<unknown status code>");
        },
    }
    line
}

/// Writes a status code with its reason phrase.
pub fn status_text(code: u16) -> (line: String)
    requires
        is_status(code),
    ensures
        line@ == status_line(code),
        code == BAD_REQUEST ==> line@ == "400 Bad Request"@,
        code == BAD_GATEWAY ==> line@ == "502 Bad Gateway"@,
{
    let line = line_text(code, canonical_reason(code));
    proof {
        reveal_strlit(" ");
        reveal_strlit("Bad Request");
        reveal_strlit("Bad Gateway");
        reveal_strlit("400 Bad Request");
        reveal_strlit("502 Bad Gateway");
        reveal_with_fuel(text::decimal, 3);
        if code == BAD_REQUEST {
            assert(text::decimal(400) =~= seq!['4', '0', '0']);
            assert(line@ =~= "400 Bad Request"@);
        }
        if code == BAD_GATEWAY {
            assert(text::decimal(502) =~= seq!['5', '0', '2']);
            assert(line@ =~= "502 Bad Gateway"@);
        }
    }
    line
}

/// The status to answer with where the upstream server answered with `status`: the same, or a
/// gateway error where the number is no status code.
pub fn status_from_reqwest(status: u16) -> (code: u16)
    ensures
        code == if is_status(status) {
            status
        } else {
            BAD_GATEWAY
        },
{
    if 100 <= status && status <= 999 {
        status
    } else {
        BAD_GATEWAY
    }
}

} // verus!
