//! What holds of the requests that go upstream.

use bytes::Bytes;
use hyper::HeaderMap;
use vstd::prelude::*;

use crate::body;
use crate::chunk::{split_in_half, Chunk};
use crate::fields;
use crate::http;
use crate::http::{
    follow_redirect, get_full, get_range, head, is_connection_header, names_fit, range_text,
    request_with_body, should_skip_request_header, upstream_headers, UpstreamRequest,
};
use crate::laws;
use crate::reading;
use crate::text;

verus! {

/// Whether a field value is the given text, character for byte, and not marked sensitive.
pub open spec fn spells(value: (Seq<u8>, bool), text: Seq<char>) -> bool {
    &&& !value.1
    &&& value.0.len() == text.len()
    &&& forall|i: int| 0 <= i < text.len() ==> #[trigger] value.0[i] as char == text[i]
}

/// Whether some fields have exactly one value under `name`, and it is the given text.
pub open spec fn has_only(
    contents: Map<Seq<char>, Seq<(Seq<u8>, bool)>>,
    name: Seq<char>,
    text: Seq<char>,
) -> bool {
    contents.contains_key(name) && contents[name].len() == 1 && spells(contents[name][0], text)
}

/// Whether some fields have the same values under `name` as others, or both have none.
pub open spec fn agree_on(
    left: Map<Seq<char>, Seq<(Seq<u8>, bool)>>,
    right: Map<Seq<char>, Seq<(Seq<u8>, bool)>>,
    name: Seq<char>,
) -> bool {
    &&& left.contains_key(name) == right.contains_key(name)
    &&& left.contains_key(name) ==> left[name] == right[name]
}

/// A value made of visible text spells it.
pub(crate) proof fn lemma_spells(text: Seq<char>)
    requires
        forall|i: int| 0 <= i < text.len() ==> ' ' <= #[trigger] text[i] && text[i] <= '~',
    ensures
        spells(http::text_value(text), text),
        fields::is_visible(http::text_value(text).0),
        fields::ascii_text(http::text_value(text).0) == text,
{
    http::lemma_text_is_field(text);
    let bytes = http::text_value(text).0;
    assert forall|i: int| 0 <= i < text.len() implies #[trigger] bytes[i] as char == text[i] by {
        assert(fields::ascii_text(bytes)[i] == bytes[i] as char);
    }
    assert(fields::ascii_text(bytes).len() == bytes.len());
}

/// A name lowers to a name in lower case where both are the same but for case.
pub(crate) proof fn lemma_lowers_to(name: Seq<char>, low: Seq<char>)
    requires
        forall|i: int| 0 <= i < low.len() ==> !('A' <= #[trigger] low[i] && low[i] <= 'Z'),
    ensures
        (text::lower(name) == low) == reading::same_but_for_case(name, low),
{
    reading::lemma_lower_is_case(name, low);
    assert(text::lower(low) =~= low);
}

/// The names of the fields that concern a connection only are written in lower case.
pub(crate) proof fn lemma_connection_names(name: Seq<char>)
    ensures
        http::is_hop_by_hop(name) == {
            ||| reading::same_but_for_case(name, "connection"@)
            ||| reading::same_but_for_case(name, "proxy-connection"@)
            ||| reading::same_but_for_case(name, "transfer-encoding"@)
            ||| reading::same_but_for_case(name, "keep-alive"@)
            ||| reading::same_but_for_case(name, "upgrade"@)
            ||| reading::same_but_for_case(name, "te"@)
            ||| reading::same_but_for_case(name, "trailer"@)
        },
{
    reveal_strlit("connection");
    reveal_strlit("proxy-connection");
    reveal_strlit("transfer-encoding");
    reveal_strlit("keep-alive");
    reveal_strlit("upgrade");
    reveal_strlit("te");
    reveal_strlit("trailer");
    lemma_lowers_to(name, "connection"@);
    lemma_lowers_to(name, "proxy-connection"@);
    lemma_lowers_to(name, "transfer-encoding"@);
    lemma_lowers_to(name, "keep-alive"@);
    lemma_lowers_to(name, "upgrade"@);
    lemma_lowers_to(name, "te"@);
    lemma_lowers_to(name, "trailer"@);
}

/// Seven fields, and no others, concern only the connection on which they come, in whatever case
/// their names are written.
pub proof fn seven_fields_concern_the_connection(name: &str, hop_by_hop: bool)
    requires
        call_ensures(is_connection_header, (name,), hop_by_hop),
    ensures
        hop_by_hop == {
            ||| reading::same_but_for_case(name@, "connection"@)
            ||| reading::same_but_for_case(name@, "proxy-connection"@)
            ||| reading::same_but_for_case(name@, "transfer-encoding"@)
            ||| reading::same_but_for_case(name@, "keep-alive"@)
            ||| reading::same_but_for_case(name@, "upgrade"@)
            ||| reading::same_but_for_case(name@, "te"@)
            ||| reading::same_but_for_case(name@, "trailer"@)
        },
{
    lemma_connection_names(name@);
}

/// The fields that do not go upstream are eleven.
proof fn lemma_skipped_names(name: Seq<char>)
    ensures
        http::is_skipped(name) == {
            ||| reading::same_but_for_case(name, "connection"@)
            ||| reading::same_but_for_case(name, "proxy-connection"@)
            ||| reading::same_but_for_case(name, "transfer-encoding"@)
            ||| reading::same_but_for_case(name, "keep-alive"@)
            ||| reading::same_but_for_case(name, "upgrade"@)
            ||| reading::same_but_for_case(name, "te"@)
            ||| reading::same_but_for_case(name, "trailer"@)
            ||| reading::same_but_for_case(name, "host"@)
            ||| reading::same_but_for_case(name, "content-length"@)
            ||| reading::same_but_for_case(name, "proxy-authorization"@)
            ||| reading::same_but_for_case(name, "proxy-authenticate"@)
        },
{
    lemma_connection_names(name);
    reveal_strlit("host");
    reveal_strlit("content-length");
    reveal_strlit("proxy-authorization");
    reveal_strlit("proxy-authenticate");
    lemma_lowers_to(name, "host"@);
    lemma_lowers_to(name, "content-length"@);
    lemma_lowers_to(name, "proxy-authorization"@);
    lemma_lowers_to(name, "proxy-authenticate"@);
}

/// Eleven fields of a client's request, and no others, are left out of the upstream request, in
/// whatever case their names are written.
pub proof fn eleven_fields_are_left_out(name: &str, skip: bool)
    requires
        call_ensures(should_skip_request_header, (name,), skip),
    ensures
        skip == {
            ||| reading::same_but_for_case(name@, "connection"@)
            ||| reading::same_but_for_case(name@, "proxy-connection"@)
            ||| reading::same_but_for_case(name@, "transfer-encoding"@)
            ||| reading::same_but_for_case(name@, "keep-alive"@)
            ||| reading::same_but_for_case(name@, "upgrade"@)
            ||| reading::same_but_for_case(name@, "te"@)
            ||| reading::same_but_for_case(name@, "trailer"@)
            ||| reading::same_but_for_case(name@, "host"@)
            ||| reading::same_but_for_case(name@, "content-length"@)
            ||| reading::same_but_for_case(name@, "proxy-authorization"@)
            ||| reading::same_but_for_case(name@, "proxy-authenticate"@)
        },
{
    lemma_skipped_names(name@);
}

/// Whatever the client sent under a name goes upstream with all its values, but for the eleven
/// fields that are left out, and but for the encoding where the body is demanded as it is: then
/// the only encoding that is accepted is none.
pub proof fn all_other_fields_go_upstream(
    request_headers: &HeaderMap,
    force_identity: bool,
    headers: HeaderMap,
    name: Seq<char>,
)
    requires
        call_ensures(upstream_headers, (request_headers, force_identity), headers),
    ensures
        ({
            let from = fields::header_contents(*request_headers);
            let sent = fields::header_contents(headers);
            let left_out = {
                ||| reading::same_but_for_case(name, "connection"@)
                ||| reading::same_but_for_case(name, "proxy-connection"@)
                ||| reading::same_but_for_case(name, "transfer-encoding"@)
                ||| reading::same_but_for_case(name, "keep-alive"@)
                ||| reading::same_but_for_case(name, "upgrade"@)
                ||| reading::same_but_for_case(name, "te"@)
                ||| reading::same_but_for_case(name, "trailer"@)
                ||| reading::same_but_for_case(name, "host"@)
                ||| reading::same_but_for_case(name, "content-length"@)
                ||| reading::same_but_for_case(name, "proxy-authorization"@)
                ||| reading::same_but_for_case(name, "proxy-authenticate"@)
            };
            &&& left_out ==> !sent.contains_key(name)
            &&& !left_out && !(force_identity && name == "accept-encoding"@) ==> agree_on(
                from,
                sent,
                name,
            )
            &&& force_identity ==> has_only(sent, "accept-encoding"@, "identity"@)
        }),
{
    lemma_skipped_names(name);
    reveal_strlit("identity");
    lemma_spells("identity"@);
    reveal_strlit("accept-encoding");
    assert("accept-encoding"@.len() == 15);
    reveal_strlit("connection");
    reveal_strlit("proxy-connection");
    reveal_strlit("transfer-encoding");
    reveal_strlit("keep-alive");
    reveal_strlit("upgrade");
    reveal_strlit("te");
    reveal_strlit("trailer");
    reveal_strlit("host");
    reveal_strlit("content-length");
    reveal_strlit("proxy-authorization");
    reveal_strlit("proxy-authenticate");
}

/// Whether a value demands the range from `start` to `end`.
pub open spec fn demands(value: (Seq<u8>, bool), start: Seq<char>, end: Seq<char>) -> bool {
    spells(value, "bytes="@ + start + "-"@ + end)
}

/// Whether some fields demand the bytes from `start` to `end` of a resource, both included, and no
/// others.
pub open spec fn demand_range(
    contents: Map<Seq<char>, Seq<(Seq<u8>, bool)>>,
    start: nat,
    end: nat,
) -> bool {
    &&& contents.contains_key("range"@)
    &&& contents["range"@].len() == 1
    &&& exists|first: Seq<char>, last: Seq<char>| #[trigger]
        demands(contents["range"@][0], first, last) && reading::reads_as(first, start)
            && reading::reads_as(last, end)
}

/// The fields of a request for a part of a resource demand that part.
pub(crate) proof fn lemma_range_is_demanded(contents: Map<Seq<char>, Seq<(Seq<u8>, bool)>>, chunk: Chunk)
    ensures
        demand_range(
            http::range_contents(contents, chunk),
            chunk.start as nat,
            chunk.end as nat,
        ),
{
    let first = text::decimal(chunk.start as nat);
    let last = text::decimal(chunk.end as nat);
    let whole = "bytes="@ + first + "-"@ + last;
    reveal_strlit("bytes=");
    reveal_strlit("-");
    text::lemma_decimal_number(chunk.start as nat);
    text::lemma_decimal_number(chunk.end as nat);
    assert forall|i: int| 0 <= i < whole.len() implies ' ' <= #[trigger] whole[i] && whole[i]
        <= '~' by {
        if i < 6 {
            assert(whole[i] == "bytes="@[i]);
        } else if i < 6 + first.len() {
            assert(text::is_digit(first[i - 6]));
        } else if i == 6 + first.len() {
            assert(whole[i] == "-"@[0]);
        } else {
            assert(text::is_digit(last[i - 7 - first.len()]));
        }
    }
    lemma_spells(whole);
    assert("bytes="@ + http::range_ends(chunk) =~= whole);
    let asked = http::range_contents(contents, chunk);
    assert(demands(asked["range"@][0], first, last));
}

/// A request for a part of a resource demands exactly that part, whatever part it is: from its
/// first to its last byte, and nothing else. It asks the given address over the given interface.
pub proof fn parts_are_asked_for_as_they_are(
    nic_index: usize,
    url: &str,
    request_headers: &HeaderMap,
    chunk: Chunk,
    request: UpstreamRequest,
)
    requires
        call_ensures(get_range, (nic_index, url, request_headers, chunk), request),
    ensures
        demand_range(
            fields::header_contents(request.headers),
            chunk.start as nat,
            chunk.end as nat,
        ),
        request.nic_index == nic_index,
        request.method@ == "GET"@,
        request.url@ == url@,
        request.body is None,
{
    lemma_range_is_demanded(fields::header_contents(*request_headers), chunk);
}

/// Fields that demand a range demand no other.
pub proof fn one_range_is_demanded(
    contents: Map<Seq<char>, Seq<(Seq<u8>, bool)>>,
    start: nat,
    end: nat,
    other_start: nat,
    other_end: nat,
)
    requires
        demand_range(contents, start, end),
        demand_range(contents, other_start, other_end),
    ensures
        start == other_start,
        end == other_end,
{
    let value = contents["range"@][0];
    let (first, last) = choose|first: Seq<char>, last: Seq<char>| #[trigger]
        demands(value, first, last) && reading::reads_as(first, start) && reading::reads_as(
            last,
            end,
        );
    let (other_first, other_last) = choose|first: Seq<char>, last: Seq<char>| #[trigger]
        demands(value, first, last) && reading::reads_as(first, other_start) && reading::reads_as(
            last,
            other_end,
        );
    let one = "bytes="@ + first + "-"@ + last;
    let other = "bytes="@ + other_first + "-"@ + other_last;
    assert forall|i: int| 0 <= i < one.len() implies one[i] == other[i] by {
        assert(value.0[i] as char == one[i]);
        assert(value.0[i] as char == other[i]);
    }
    assert(one =~= other);
    let len = "bytes="@.len() as int;
    assert(one.skip(len) =~= first + "-"@ + last);
    assert(other.skip(len) =~= other_first + "-"@ + other_last);
    reveal_strlit("-");
    laws::lemma_digits_end(first, last, other_first, other_last, "-"@);
}

/// The two halves of a resource are asked for with two demands that cover every byte of it once:
/// the first from the first byte on, the second from right behind the first to the last byte, and
/// the second is longer by a byte at most.
pub proof fn halves_cover_the_resource(
    size: u64,
    chunks: [Chunk; 2],
    url: &str,
    request_headers: &HeaderMap,
    first: UpstreamRequest,
    second: UpstreamRequest,
)
    requires
        size >= 2,
        call_ensures(split_in_half, (size,), chunks),
        call_ensures(get_range, (0usize, url, request_headers, chunks[0]), first),
        call_ensures(get_range, (1usize, url, request_headers, chunks[1]), second),
    ensures
        exists|middle: nat| 0 < middle < size && middle <= size - middle <= middle + 1
            && #[trigger] demand_range(
            fields::header_contents(first.headers),
            0,
            (middle - 1) as nat,
        ) && demand_range(
            fields::header_contents(second.headers),
            middle,
            (size - 1) as nat,
        ),
        first.nic_index == 0,
        second.nic_index == 1,
{
    let from = fields::header_contents(*request_headers);
    lemma_range_is_demanded(from, chunks@[0]);
    lemma_range_is_demanded(from, chunks@[1]);
    let middle = chunks@[1].start as nat;
    assert(demand_range(fields::header_contents(first.headers), 0, (middle - 1) as nat));
}

/// The ends of a range are written as they are, the first before the last.
pub proof fn ranges_are_written_from_first_to_last(chunk: Chunk, ends: String)
    requires
        call_ensures(range_text, (chunk,), ends),
    ensures
        exists|first: Seq<char>, last: Seq<char>|
            ends@ == #[trigger] (first + "-"@ + last) && reading::reads_as(
                first,
                chunk.start as nat,
            ) && reading::reads_as(last, chunk.end as nat) && reading::is_short(first)
                && reading::is_short(last),
{
    let first = text::decimal(chunk.start as nat);
    let last = text::decimal(chunk.end as nat);
    text::lemma_decimal_number(chunk.start as nat);
    text::lemma_decimal_number(chunk.end as nat);
    reading::lemma_decimal_is_short(chunk.start as nat);
    reading::lemma_decimal_is_short(chunk.end as nat);
    assert(ends@ == first + "-"@ + last);
}

/// A range has as many bytes as there are places from its first to its last.
pub proof fn ranges_count_both_ends(chunk: Chunk, len: u64)
    requires
        call_ensures(Chunk::len, (chunk,), len),
    ensures
        chunk.start + len == chunk.end + 1,
{
}

/// A resource is split in two parts that do not overlap, leave nothing out and differ by one byte
/// at most, the second being the longer one.
pub proof fn resources_are_split_in_the_middle(size: u64, chunks: [Chunk; 2])
    requires
        size >= 2,
        call_ensures(split_in_half, (size,), chunks),
    ensures
        chunks@[0].start == 0,
        chunks@[0].start <= chunks@[0].end,
        chunks@[0].end + 1 == chunks@[1].start,
        chunks@[1].start <= chunks@[1].end,
        chunks@[1].end + 1 == size,
        ({
            let first = chunks@[0].end - chunks@[0].start;
            let second = chunks@[1].end - chunks@[1].start;
            first == second || first + 1 == second
        }),
{
}

/// A redirect is never followed to anything but plain HTTP, and to plain HTTP the first ten are
/// followed and no more. An address tried before never makes a redirect acceptable.
pub proof fn redirects_stay_on_plain_http(
    previous: usize,
    scheme: &str,
    follow: bool,
    fewer: usize,
    sooner: bool,
)
    requires
        call_ensures(follow_redirect, (previous, scheme), follow),
        call_ensures(follow_redirect, (fewer, scheme), sooner),
        fewer <= previous,
    ensures
        follow ==> scheme@ == "http"@ && previous <= 10,
        follow ==> sooner,
        scheme@ == "http"@ ==> follow == (previous <= 10),
{
}

/// A request to be taken up has fewer than 6553 different field names.
pub proof fn few_names_fit(headers: &HeaderMap, fit: bool)
    requires
        call_ensures(names_fit, (headers,), fit),
        fields::header_contents(*headers).dom().finite(),
    ensures
        fit == (fields::header_contents(*headers).dom().len() < 6553),
{
}

/// A server is asked about a resource with the fields that go upstream where the body is demanded
/// as it is, at the given address and over the given interface.
pub proof fn servers_are_asked_with_the_clients_fields(
    nic_index: usize,
    url: &str,
    request_headers: &HeaderMap,
    request: UpstreamRequest,
    sent: HeaderMap,
)
    requires
        call_ensures(head, (nic_index, url, request_headers), request),
        call_ensures(upstream_headers, (request_headers, true), sent),
    ensures
        request.nic_index == nic_index,
        request.method@ == "HEAD"@,
        request.url@ == url@,
        request.body is None,
        fields::header_contents(request.headers) == fields::header_contents(sent),
{
}

/// A part of a resource is asked for with the same fields as the resource is asked about, but for
/// the range.
pub proof fn parts_are_asked_for_with_the_clients_fields(
    nic_index: usize,
    url: &str,
    request_headers: &HeaderMap,
    chunk: Chunk,
    request: UpstreamRequest,
    sent: HeaderMap,
    name: Seq<char>,
)
    requires
        call_ensures(get_range, (nic_index, url, request_headers, chunk), request),
        call_ensures(upstream_headers, (request_headers, true), sent),
        name != "range"@,
    ensures
        agree_on(
            fields::header_contents(request.headers),
            fields::header_contents(sent),
            name,
        ),
{
}

/// A whole resource is asked for with the client's fields, at the given address and over the given
/// interface, and without a body.
pub proof fn whole_resources_are_asked_for_with_the_clients_fields(
    nic_index: usize,
    url: &str,
    request_headers: &HeaderMap,
    request: UpstreamRequest,
    sent: HeaderMap,
)
    requires
        call_ensures(get_full, (nic_index, url, request_headers), request),
        call_ensures(upstream_headers, (request_headers, false), sent),
    ensures
        request.nic_index == nic_index,
        request.method@ == "GET"@,
        request.url@ == url@,
        request.body is None,
        fields::header_contents(request.headers) == fields::header_contents(sent),
{
}

/// Any other request is passed on with its method, its fields and its body. A body is left out
/// only where there is nothing in it.
pub proof fn requests_are_passed_on_with_their_body(
    nic_index: usize,
    method: &str,
    url: &str,
    request_headers: &HeaderMap,
    body: Bytes,
    request: UpstreamRequest,
    sent: HeaderMap,
)
    requires
        call_ensures(request_with_body, (nic_index, method, url, request_headers, body), request),
        call_ensures(upstream_headers, (request_headers, false), sent),
    ensures
        request.nic_index == nic_index,
        request.method@ == method@,
        request.url@ == url@,
        fields::header_contents(request.headers) == fields::header_contents(sent),
        request.body is None <==> body::bytes_contents(body) =~= Seq::<u8>::empty(),
        request.body is Some ==> body::bytes_contents(request.body->0) == body::bytes_contents(
            body,
        ),
{
}

} // verus!
