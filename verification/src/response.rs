//! The replies that the proxy gives its clients.

use bytes::Bytes;
use hyper::HeaderMap;
use vstd::prelude::*;
use vstd::utf8;

use crate::body;
use crate::body::bytes_of_text;
use crate::fields;
use crate::fields::new_headers;
use crate::http;
use crate::http::set_field;
use crate::status;
use crate::status::{status_text, BAD_GATEWAY, BAD_REQUEST};

verus! {

/// A reply to a client.
#[derive(Debug)]
pub struct ProxyResponse {
    pub status: u16,
    pub headers: HeaderMap,
    pub body: Bytes,
}

/// Whether a reply has the given status, fields and body.
pub open spec fn answers(
    response: ProxyResponse,
    status: u16,
    contents: Map<Seq<char>, Seq<(Seq<u8>, bool)>>,
    body: Seq<u8>,
) -> bool {
    &&& response.status == status
    &&& fields::header_contents(response.headers) == contents
    &&& body::bytes_contents(response.body) == body
}

/// The fields of a reply that reports an error: its body is plain text.
pub open spec fn error_contents() -> Map<Seq<char>, Seq<(Seq<u8>, bool)>> {
    fields::no_fields().insert(
        "content-type"@,
        seq![http::text_value("text/plain; charset=utf-8"@)],
    )
}

/// The line that a reply with an error consists of.
pub open spec fn error_line(status: u16, error: Seq<char>) -> Seq<char> {
    status::status_line(status) + ": "@ + error + "\n"@
}

/// Whether a reply reports an error with the given status.
pub open spec fn reports(response: ProxyResponse, status: u16, error: Seq<char>) -> bool {
    &&& answers(response, status, error_contents(), utf8::encode_utf8(error_line(status, error)))
    &&& status == BAD_REQUEST ==> body::bytes_contents(response.body) == utf8::encode_utf8(
        "400 Bad Request"@ + ": "@ + error + "\n"@,
    )
    &&& status == BAD_GATEWAY ==> body::bytes_contents(response.body) == utf8::encode_utf8(
        "502 Bad Gateway"@ + ": "@ + error + "\n"@,
    )
}

/// Makes the reply that reports an error.
pub fn error_response(status: u16, error: &str) -> (response: ProxyResponse)
    requires
        status::is_status(status),
    ensures
        reports(response, status, error@),
        status == BAD_REQUEST ==> body::bytes_contents(response.body) == utf8::encode_utf8(
            "400 Bad Request"@ + ": "@ + error@ + "\n"@,
        ),
        status == BAD_GATEWAY ==> body::bytes_contents(response.body) == utf8::encode_utf8(
            "502 Bad Gateway"@ + ": "@ + error@ + "\n"@,
        ),
{
    let mut line = status_text(status);
    line.append(": ");
    line.append(error);
    line.append("\n");
    let mut headers = new_headers();
    proof {
        http::lemma_field_names();
        reveal_strlit("text/plain; charset=utf-8");
        http::lemma_text_is_field("text/plain; charset=utf-8"@);
    }
    set_field(&mut headers, "content-type", "text/plain; charset=utf-8");
    ProxyResponse { status, headers, body: bytes_of_text(line) }
}

/// Makes a reply with the given fields, with all their values.
pub fn response_with_headers(status: u16, headers: HeaderMap, body: Bytes) -> (response:
    ProxyResponse)
    ensures
        answers(
            response,
            status,
            fields::header_contents(headers),
            body::bytes_contents(body),
        ),
{
    ProxyResponse { status, headers, body }
}

} // verus!
