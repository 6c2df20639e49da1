//! What holds of the replies of servers, and of what a client is answered.

use bytes::Bytes;
use hyper::HeaderMap;
use vstd::prelude::*;
use vstd::utf8;

use crate::body;
use crate::body::{bodies_fit, join_bodies, BodyCollector};
use crate::chunk::Chunk;
use crate::clock::Duration;
use crate::fields;
use crate::http;
use crate::http::{
    accepts_ranges, head_reply, parse_content_length, range_body, range_reply, range_text,
    reply_headers, response_headers, transfer, validate_content_range, ChunkResult, Exchange,
    Reply, ServerInfo, TransferResult,
};
use crate::laws;
use crate::reading;
use crate::request_laws;
use crate::response::{error_response, response_with_headers, ProxyResponse};
use crate::status::status_text;
use crate::text;
use crate::text::parse_unsigned;

verus! {

/// Whether some fields announce a body of `len` bytes, once and in base ten.
pub open spec fn announce(contents: Map<Seq<char>, Seq<(Seq<u8>, bool)>>, len: nat) -> bool {
    &&& contents.contains_key("content-length"@)
    &&& contents["content-length"@].len() == 1
    &&& exists|digits: Seq<char>| #[trigger]
        request_laws::spells(contents["content-length"@][0], digits) && reading::reads_as(
            digits,
            len,
        )
}

/// The digits of a number as the only value of the length announce it.
pub(crate) proof fn lemma_announce(contents: Map<Seq<char>, Seq<(Seq<u8>, bool)>>, len: u64)
    requires
        contents.contains_key("content-length"@),
        contents["content-length"@] == seq![http::text_value(text::decimal(len as nat))],
    ensures
        announce(contents, len as nat),
{
    let digits = text::decimal(len as nat);
    text::lemma_decimal_number(len as nat);
    assert forall|i: int| 0 <= i < digits.len() implies ' ' <= #[trigger] digits[i] && digits[i]
        <= '~' by {
        assert(text::is_digit(digits[i]));
    }
    request_laws::lemma_spells(digits);
    assert(request_laws::spells(contents["content-length"@][0], digits));
}

/// Of the fields of a server's reply to a `GET` request ten are passed back, with all their values,
/// and no others. The length that is announced is that of the body.
pub proof fn ten_fields_are_passed_back(
    source: &HeaderMap,
    content_length: u64,
    headers: HeaderMap,
    name: Seq<char>,
)
    requires
        call_ensures(response_headers, (source, content_length), headers),
    ensures
        ({
            let from = fields::header_contents(*source);
            let reply = fields::header_contents(headers);
            let passed = {
                ||| name == "content-type"@
                ||| name == "content-encoding"@
                ||| name == "etag"@
                ||| name == "last-modified"@
                ||| name == "cache-control"@
                ||| name == "expires"@
                ||| name == "accept-ranges"@
                ||| name == "set-cookie"@
                ||| name == "location"@
                ||| name == "via"@
            };
            &&& passed ==> request_laws::agree_on(from, reply, name)
            &&& !passed && name != "content-length"@ ==> !reply.contains_key(name)
            &&& announce(reply, content_length as nat)
        }),
{
    laws::replies_are_complete(fields::header_contents(*source), content_length, name);
    lemma_announce(fields::header_contents(headers), content_length);
}

/// A reply to any other request is passed back with every field, and all its values, but for the
/// seven that concern the server's connection only. Where it has a body the length that is
/// announced is that of the body.
pub proof fn other_replies_keep_their_fields(
    source: &HeaderMap,
    head: bool,
    content_length: u64,
    headers: HeaderMap,
    name: Seq<char>,
)
    requires
        call_ensures(reply_headers, (source, head, content_length), headers),
    ensures
        ({
            let from = fields::header_contents(*source);
            let reply = fields::header_contents(headers);
            let left_out = {
                ||| reading::same_but_for_case(name, "connection"@)
                ||| reading::same_but_for_case(name, "proxy-connection"@)
                ||| reading::same_but_for_case(name, "transfer-encoding"@)
                ||| reading::same_but_for_case(name, "keep-alive"@)
                ||| reading::same_but_for_case(name, "upgrade"@)
                ||| reading::same_but_for_case(name, "te"@)
                ||| reading::same_but_for_case(name, "trailer"@)
            };
            let length = reading::same_but_for_case(name, "content-length"@);
            &&& left_out ==> !reply.contains_key(name)
            &&& !left_out && (head || !length) ==> request_laws::agree_on(from, reply, name)
            &&& !head && length && name != "content-length"@ ==> !reply.contains_key(name)
            &&& !head ==> announce(reply, content_length as nat)
        }),
{
    request_laws::lemma_connection_names(name);
    reveal_strlit("content-length");
    request_laws::lemma_lowers_to(name, "content-length"@);
    assert("content-length"@.len() == 14);
    reveal_strlit("connection");
    reveal_strlit("proxy-connection");
    reveal_strlit("transfer-encoding");
    reveal_strlit("keep-alive");
    reveal_strlit("upgrade");
    reveal_strlit("te");
    reveal_strlit("trailer");
    if !head {
        lemma_announce(fields::header_contents(headers), content_length);
    }
}

/// Whether bytes are visible characters, spaces or tabs, and make up the given text.
pub open spec fn shows(bytes: Seq<u8>, text: Seq<char>) -> bool {
    &&& bytes.len() == text.len()
    &&& forall|i: int| 0 <= i < text.len() ==> #[trigger] bytes[i] as char == text[i]
    &&& forall|i: int|
        0 <= i < text.len() ==> (' ' <= #[trigger] text[i] && text[i] <= '~' || text[i] == '\t')
}

/// Whether the first value under `name` is the given text.
pub open spec fn first_is(
    contents: Map<Seq<char>, Seq<(Seq<u8>, bool)>>,
    name: Seq<char>,
    text: Seq<char>,
) -> bool {
    contents.contains_key(name) && shows(contents[name][0].0, text)
}

/// What the first value shows is its text.
proof fn lemma_first_text(
    contents: Map<Seq<char>, Seq<(Seq<u8>, bool)>>,
    name: Seq<char>,
    text: Seq<char>,
)
    ensures
        first_is(contents, name, text) == (http::field_text(contents, name) == Some(text)),
{
    let bytes = contents[name][0].0;
    if first_is(contents, name, text) {
        assert forall|i: int| 0 <= i < bytes.len() implies (32 <= #[trigger] bytes[i] && bytes[i]
            < 127 || bytes[i] == 9) by {
            assert(bytes[i] as char == text[i]);
        }
        assert(fields::ascii_text(bytes) =~= text);
    }
    if http::field_text(contents, name) == Some(text) {
        assert forall|i: int| 0 <= i < text.len() implies #[trigger] bytes[i] as char
            == text[i] by {
            assert(fields::ascii_text(bytes)[i] == bytes[i] as char);
        }
        assert forall|i: int| 0 <= i < text.len() implies (' ' <= #[trigger] text[i] && text[i]
            <= '~' || text[i] == '\t') by {
            assert(fields::ascii_text(bytes)[i] == bytes[i] as char);
            assert(32 <= bytes[i] && bytes[i] < 127 || bytes[i] == 9);
        }
    }
}

/// The length of a reply is the number that the first value of its length field reads as, and
/// there is none where that value is no number or is missing.
pub proof fn lengths_are_read_from_the_first_value(
    headers: &HeaderMap,
    length: Option<u64>,
    value: &str,
    parsed: Option<u64>,
)
    requires
        call_ensures(parse_content_length, (headers,), length),
        call_ensures(parse_unsigned, (value,), parsed),
    ensures
        ({
            let from = fields::header_contents(*headers);
            &&& first_is(from, "content-length"@, value@) ==> length == parsed
            &&& length is Some ==> http::field_text(from, "content-length"@) is Some && first_is(
                from,
                "content-length"@,
                http::field_text(from, "content-length"@)->0,
            )
        }),
{
    let from = fields::header_contents(*headers);
    lemma_first_text(from, "content-length"@, value@);
    if http::field_text(from, "content-length"@) is Some {
        lemma_first_text(
            from,
            "content-length"@,
            http::field_text(from, "content-length"@)->0,
        );
    }
}

/// A server serves ranges where the first value of the field for it is the word for bytes, in
/// whatever case, and not otherwise.
pub proof fn ranges_are_served_in_bytes(headers: &HeaderMap, accepts: bool, value: Seq<char>)
    requires
        call_ensures(accepts_ranges, (headers,), accepts),
    ensures
        ({
            let from = fields::header_contents(*headers);
            &&& first_is(from, "accept-ranges"@, value) ==> accepts == reading::same_but_for_case(
                value,
                "bytes"@,
            )
            &&& accepts ==> exists|word: Seq<char>| #[trigger]
                first_is(from, "accept-ranges"@, word)
        }),
{
    let from = fields::header_contents(*headers);
    lemma_first_text(from, "accept-ranges"@, value);
    if accepts {
        let word = http::field_text(from, "accept-ranges"@)->0;
        lemma_first_text(from, "accept-ranges"@, word);
        assert(first_is(from, "accept-ranges"@, word));
    }
    reveal_strlit("bytes");
    request_laws::lemma_lowers_to(value, "bytes"@);
}

/// Whether a text says which bytes of how many a reply holds.
pub open spec fn is_extent(
    text: Seq<char>,
    first: Seq<char>,
    last: Seq<char>,
    total: Seq<char>,
) -> bool {
    text == "bytes "@ + first + "-"@ + last + "/"@ + total
}

/// Whether a text says that a reply holds the bytes from `start` to `end` of `size`.
pub open spec fn says_extent(text: Seq<char>, start: nat, end: nat, size: nat) -> bool {
    exists|first: Seq<char>, last: Seq<char>, total: Seq<char>| #[trigger]
        is_extent(text, first, last, total) && reading::reads_as(first, start)
            && reading::reads_as(last, end) && reading::reads_as(total, size)
            && reading::is_short(first) && reading::is_short(last) && reading::is_short(total)
}

/// What a reply to a request for a part of a resource has to say is the part and the size.
proof fn lemma_extent(value: Seq<char>, chunk: Chunk, total_size: u64)
    ensures
        (value == http::content_range(chunk, total_size)) == says_extent(
            value,
            chunk.start as nat,
            chunk.end as nat,
            total_size as nat,
        ),
{
    let first = text::decimal(chunk.start as nat);
    let last = text::decimal(chunk.end as nat);
    let total = text::decimal(total_size as nat);
    let whole = http::content_range(chunk, total_size);
    text::lemma_decimal_number(chunk.start as nat);
    text::lemma_decimal_number(chunk.end as nat);
    text::lemma_decimal_number(total_size as nat);
    reading::lemma_decimal_is_short(chunk.start as nat);
    reading::lemma_decimal_is_short(chunk.end as nat);
    reading::lemma_decimal_is_short(total_size as nat);
    assert(whole =~= "bytes "@ + first + "-"@ + last + "/"@ + total);
    if value == whole {
        assert(is_extent(value, first, last, total));
    }
    if says_extent(value, chunk.start as nat, chunk.end as nat, total_size as nat) {
        let (one, two, three) = choose|one: Seq<char>, two: Seq<char>, three: Seq<char>| #[trigger]
            is_extent(value, one, two, three) && reading::reads_as(one, chunk.start as nat)
                && reading::reads_as(two, chunk.end as nat) && reading::reads_as(
                three,
                total_size as nat,
            ) && reading::is_short(one) && reading::is_short(two) && reading::is_short(three);
        reading::lemma_one_decimal(one, chunk.start as nat);
        reading::lemma_one_decimal(two, chunk.end as nat);
        reading::lemma_one_decimal(three, total_size as nat);
    }
}

/// A reply is taken for a part of a resource exactly where it says that it holds that part, from
/// the first byte to the last, of a resource of that size. One that says nothing of it is refused.
pub proof fn parts_say_what_they_hold(
    headers: &HeaderMap,
    chunk: Chunk,
    total_size: u64,
    checked: Result<(), String>,
    value: Seq<char>,
    ends: String,
)
    requires
        call_ensures(validate_content_range, (headers, chunk, total_size), checked),
        call_ensures(range_text, (chunk,), ends),
    ensures
        ({
            let from = fields::header_contents(*headers);
            &&& first_is(from, "content-range"@, value) ==> (checked is Ok) == says_extent(
                value,
                chunk.start as nat,
                chunk.end as nat,
                total_size as nat,
            )
            &&& first_is(from, "content-range"@, value) && checked is Err ==> checked->Err_0@
                == "unexpected Content-Range: expected "@ + ("bytes "@ + ends@ + "/"@ + text::decimal(
                total_size as nat,
            )) + ", got "@ + value
            &&& (forall|other: Seq<char>| !first_is(from, "content-range"@, other)) ==> checked is Err
                && checked->Err_0@ == "missing Content-Range header in 206 response"@
        }),
{
    let from = fields::header_contents(*headers);
    lemma_first_text(from, "content-range"@, value);
    lemma_extent(value, chunk, total_size);
    if http::field_text(from, "content-range"@) is Some {
        let other = http::field_text(from, "content-range"@)->0;
        lemma_first_text(from, "content-range"@, other);
        assert(first_is(from, "content-range"@, other));
    }
}

/// A server that could be asked says how long a resource is, whether it serves ranges of it, and
/// where it is. It could be asked where it answers with success, and its status is told otherwise.
pub proof fn servers_are_believed_on_success(
    url: &str,
    reply: Option<Reply>,
    outcome: Result<ServerInfo, String>,
    length: Option<u64>,
    ranges: bool,
    line: String,
)
    requires
        call_ensures(head_reply, (url, reply), outcome),
        reply is Some ==> call_ensures(parse_content_length, (&reply->0.headers,), length)
            && call_ensures(accepts_ranges, (&reply->0.headers,), ranges) && call_ensures(
            status_text,
            (reply->0.status,),
            line,
        ),
    ensures
        match reply {
            None => outcome is Err && outcome->Err_0@ == "HEAD failed for "@ + url@,
            Some(reply) => if 200 <= reply.status <= 299 {
                &&& outcome is Ok
                &&& outcome->Ok_0.content_length == length
                &&& outcome->Ok_0.accepts_ranges == ranges
                &&& outcome->Ok_0.final_url@ == reply.url@
            } else {
                outcome is Err && outcome->Err_0@ == "HEAD failed: "@ + line@
            },
        },
{
}

/// A reply to a request for a part is used where it is partial content and says that it holds the
/// part. It is then used as it is.
pub proof fn only_partial_content_is_used(
    chunk: Chunk,
    total_size: u64,
    reply: Option<Reply>,
    checked: Result<Reply, String>,
    extent: Result<(), String>,
    ends: String,
    line: String,
)
    requires
        call_ensures(range_reply, (chunk, total_size, reply), checked),
        call_ensures(range_text, (chunk,), ends),
        reply is Some ==> call_ensures(
            validate_content_range,
            (&reply->0.headers, chunk, total_size),
            extent,
        ) && call_ensures(status_text, (reply->0.status,), line),
    ensures
        match reply {
            None => checked is Err && checked->Err_0@ == "range GET failed for bytes "@ + ends@,
            Some(reply) => if reply.status != 206 {
                checked is Err && checked->Err_0@ == "unexpected range status for bytes "@ + ends@
                    + ": "@ + line@
            } else {
                match extent {
                    Ok(_) => checked == Ok::<Reply, String>(reply),
                    Err(error) => checked is Err && checked->Err_0@ == error@,
                }
            },
        },
{
}

/// The body of a part is used where it has as many bytes as the part, and then as it is.
pub proof fn parts_have_all_their_bytes(
    chunk: Chunk,
    reply: Reply,
    body: Option<Bytes>,
    duration: Duration,
    outcome: Result<ChunkResult, String>,
    ends: String,
)
    requires
        call_ensures(range_body, (chunk, reply, body, duration), outcome),
        call_ensures(range_text, (chunk,), ends),
    ensures
        match body {
            None => outcome is Err && outcome->Err_0@ == "failed to read range body "@ + ends@,
            Some(body) => if chunk.start + body::bytes_contents(body).len() == chunk.end + 1 {
                &&& outcome is Ok
                &&& outcome->Ok_0.bytes == body
                &&& outcome->Ok_0.headers == reply.headers
                &&& outcome->Ok_0.duration == duration
            } else {
                outcome is Err && outcome->Err_0@ == "range body length mismatch for bytes "@
                    + ends@ + ": expected "@ + text::decimal((chunk.end - chunk.start + 1) as nat)
                    + ", got "@ + text::decimal(body::bytes_contents(body).len())
            },
        },
{
}

/// A reply that came whole is used as it came, and what did not come is told by the address.
pub proof fn whole_replies_are_used_as_they_came(
    url: &str,
    exchange: Exchange,
    outcome: Result<TransferResult, String>,
)
    requires
        call_ensures(transfer, (url, exchange), outcome),
    ensures
        match exchange {
            Exchange::Unanswered => outcome is Err && outcome->Err_0@
                == "upstream request failed for "@ + url@,
            Exchange::Broken => outcome is Err && outcome->Err_0@
                == "failed to read upstream body for "@ + url@,
            Exchange::Complete { reply, body, duration } => {
                &&& outcome is Ok
                &&& outcome->Ok_0.status == reply.status
                &&& outcome->Ok_0.headers == reply.headers
                &&& outcome->Ok_0.bytes == body
                &&& outcome->Ok_0.duration == duration
            },
        },
{
}

/// Whether a client is answered with an error of the given status: one line of plain text that
/// begins with the status.
pub open spec fn tells_error(
    response: ProxyResponse,
    status: u16,
    title: Seq<char>,
    error: Seq<char>,
) -> bool {
    let contents = fields::header_contents(response.headers);
    &&& response.status == status
    &&& request_laws::has_only(contents, "content-type"@, "text/plain; charset=utf-8"@)
    &&& contents.dom() == set!["content-type"@]
    &&& body::bytes_contents(response.body) == utf8::encode_utf8(title + ": "@ + error + "\n"@)
}

/// Errors are told in plain text, the fault of the client with 400 and that of the server with 502.
pub(crate) proof fn lemma_tells_error(response: ProxyResponse, status: u16, error: Seq<char>)
    requires
        crate::response::reports(response, status, error),
    ensures
        status == 400 ==> tells_error(response, 400, "400 Bad Request"@, error),
        status == 502 ==> tells_error(response, 502, "502 Bad Gateway"@, error),
{
    reveal_strlit("text/plain; charset=utf-8");
    request_laws::lemma_spells("text/plain; charset=utf-8"@);
    let contents = fields::header_contents(response.headers);
    assert(contents.dom() =~= set!["content-type"@]);
}

/// An error is told in plain text, behind the status that it has.
pub proof fn errors_are_told_in_plain_text(
    status: u16,
    error: &str,
    response: ProxyResponse,
    line: String,
)
    requires
        call_ensures(error_response, (status, error), response),
        call_ensures(status_text, (status,), line),
    ensures
        tells_error(response, status, line@, error@),
        status == 400 ==> tells_error(response, 400, "400 Bad Request"@, error@),
        status == 502 ==> tells_error(response, 502, "502 Bad Gateway"@, error@),
{
    lemma_tells_error(response, status, error@);
    reveal_strlit("text/plain; charset=utf-8");
    request_laws::lemma_spells("text/plain; charset=utf-8"@);
    let contents = fields::header_contents(response.headers);
    assert(contents.dom() =~= set!["content-type"@]);
}

/// A reply is made of just the status, the fields and the body that it is given.
pub proof fn replies_are_made_of_what_is_given(
    status: u16,
    headers: HeaderMap,
    body: Bytes,
    response: ProxyResponse,
)
    requires
        call_ensures(response_with_headers, (status, headers, body), response),
    ensures
        response.status == status,
        fields::header_contents(response.headers) == fields::header_contents(headers),
        body::bytes_contents(response.body) == body::bytes_contents(body),
{
}

/// Two bodies are joined without a byte between, before or behind them, the first one first.
pub proof fn bodies_are_joined_in_order(
    first: &Bytes,
    second: &Bytes,
    capacity: usize,
    joined: Bytes,
)
    requires
        call_ensures(join_bodies, (first, second, capacity), joined),
    ensures
        ({
            let one = body::bytes_contents(*first);
            let all = body::bytes_contents(joined);
            &&& all.len() == one.len() + body::bytes_contents(*second).len()
            &&& all.take(one.len() as int) == one
            &&& all.skip(one.len() as int) == body::bytes_contents(*second)
        }),
{
    let one = body::bytes_contents(*first);
    let all = body::bytes_contents(joined);
    assert(all.take(one.len() as int) =~= one);
    assert(all.skip(one.len() as int) =~= body::bytes_contents(*second));
}

/// Bodies of less than a gigabyte together can be joined, whichever comes first.
pub proof fn common_bodies_fit(first: &Bytes, second: &Bytes, fit: bool, turned: bool)
    requires
        call_ensures(bodies_fit, (first, second), fit),
        call_ensures(bodies_fit, (second, first), turned),
    ensures
        fit == turned,
        body::bytes_contents(*first).len() + body::bytes_contents(*second).len() < 0x3fff_ffff
            ==> fit,
{
}

/// A body that arrives in pieces is the pieces in the order in which they came, and each piece
/// brings as many bytes as it has.
pub proof fn pieces_make_up_the_body(
    collector: &mut BodyCollector,
    piece: &Bytes,
    received: u64,
    body: Bytes,
)
    requires
        call_ensures(BodyCollector::push, (collector, piece), received),
        call_ensures(BodyCollector::finish, (*final(collector),), body),
    ensures
        ({
            let before = old(collector)@;
            let all = body::bytes_contents(body);
            &&& received == body::bytes_contents(*piece).len()
            &&& all.len() == before.len() + received
            &&& all.take(before.len() as int) == before
            &&& all.skip(before.len() as int) == body::bytes_contents(*piece)
        }),
{
    let before = old(collector)@;
    let all = body::bytes_contents(body);
    assert(all.take(before.len() as int) =~= before);
    assert(all.skip(before.len() as int) =~= body::bytes_contents(*piece));
}

/// A body begins with nothing, and has room for a piece as long as less than a gigabyte is there.
pub proof fn bodies_begin_empty(
    collector: BodyCollector,
    body: Bytes,
    piece: &Bytes,
    grown: &BodyCollector,
    fits: bool,
)
    requires
        call_ensures(BodyCollector::new, (), collector),
        call_ensures(BodyCollector::finish, (collector,), body),
        call_ensures(BodyCollector::accepts, (grown, piece), fits),
    ensures
        body::bytes_contents(body).len() == 0,
        grown@.len() + body::bytes_contents(*piece).len() < 0x3fff_ffff ==> fits,
{
}

} // verus!
