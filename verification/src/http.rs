//! What the proxy asks of an upstream server and what it makes of the reply.

use bytes::Bytes;
use hyper::HeaderMap;
use vstd::prelude::*;
use vstd::utf8;

use crate::body;
use crate::body::{bytes_len, empty_bytes};
use crate::chunk::Chunk;
use crate::clock::Duration;
use crate::fields;
use crate::fields::{
    all_values, append_field, first_value, header_fields, insert_field, name_count, name_of_text,
    new_headers, text_of_name, text_of_value, value_of_text, NAME_LIMIT,
};
use crate::status;
use crate::status::{status_text, PARTIAL_CONTENT};
use crate::text;
use crate::text::{decimal_text, lower_text, parse_unsigned, same_text};

verus! {

/// Whether a field concerns only the connection on which it came.
pub open spec fn is_hop_by_hop(name: Seq<char>) -> bool {
    let name = text::lower(name);
    ||| name == "connection"@
    ||| name == "proxy-connection"@
    ||| name == "transfer-encoding"@
    ||| name == "keep-alive"@
    ||| name == "upgrade"@
    ||| name == "te"@
    ||| name == "trailer"@
}

/// Whether a request field concerns only the connection on which it came, or is written anew for
/// the upstream request, and so is not passed on.
pub open spec fn is_skipped(name: Seq<char>) -> bool {
    ||| is_hop_by_hop(name)
    ||| text::lower(name) == "host"@
    ||| text::lower(name) == "content-length"@
    ||| text::lower(name) == "proxy-authorization"@
    ||| text::lower(name) == "proxy-authenticate"@
}

/// A message whose fields are passed on.
#[derive(Debug, Clone, Copy, PartialEq, Eq, Structural)]
pub enum Passing {
    /// A client's request.
    Request,
    /// A server's reply with a body, whose length is written anew.
    Reply,
    /// A server's reply to a `HEAD` request, whose length is that of the body left out.
    HeadReply,
}

impl Passing {
    /// Whether a field is left out.
    pub open spec fn drops(self, name: Seq<char>) -> bool {
        match self {
            Passing::Request => is_skipped(name),
            Passing::Reply => is_hop_by_hop(name) || text::lower(name) == "content-length"@,
            Passing::HeadReply => is_hop_by_hop(name),
        }
    }

    /// The fields that are passed on, with all their values.
    pub open spec fn kept(self, contents: Map<Seq<char>, Seq<(Seq<u8>, bool)>>) -> Map<
        Seq<char>,
        Seq<(Seq<u8>, bool)>,
    > {
        Map::new(
            |name: Seq<char>| contents.contains_key(name) && !self.drops(name),
            |name: Seq<char>| contents[name],
        )
    }
}

/// The fields of a request that are passed on upstream.
pub open spec fn forwarded(contents: Map<Seq<char>, Seq<(Seq<u8>, bool)>>) -> Map<
    Seq<char>,
    Seq<(Seq<u8>, bool)>,
> {
    Passing::Request.kept(contents)
}

/// A value made of plain text, not marked sensitive.
pub open spec fn text_value(text: Seq<char>) -> (Seq<u8>, bool) {
    (utf8::encode_utf8(text), false)
}

/// The fields of an upstream request: those passed on, and where the body must come as it is,
/// the demand for an unencoded one in place of what the client accepts.
pub open spec fn upstream_contents(
    contents: Map<Seq<char>, Seq<(Seq<u8>, bool)>>,
    force_identity: bool,
) -> Map<Seq<char>, Seq<(Seq<u8>, bool)>> {
    if force_identity {
        forwarded(contents).insert("accept-encoding"@, seq![text_value("identity"@)])
    } else {
        forwarded(contents)
    }
}

/// What a map holds after the fields to be passed on were appended to an empty one, one by one.
spec fn gathered(fields: Seq<(Seq<char>, (Seq<u8>, bool))>, passing: Passing) -> Map<
    Seq<char>,
    Seq<(Seq<u8>, bool)>,
>
    decreases fields.len(),
{
    if fields.len() == 0 {
        Map::empty()
    } else {
        let before = gathered(fields.drop_last(), passing);
        if passing.drops(fields.last().0) {
            before
        } else {
            fields::with_appended(before, fields.last().0, fields.last().1)
        }
    }
}

/// The values of one name, appended one by one, end up under that name in their order.
proof fn lemma_gathered_run(
    fields: Seq<(Seq<char>, (Seq<u8>, bool))>,
    name: Seq<char>,
    values: Seq<(Seq<u8>, bool)>,
    passing: Passing,
)
    requires
        !gathered(fields, passing).contains_key(name),
    ensures
        gathered(fields + fields::named(name, values), passing) == if passing.drops(name)
            || values.len() == 0 {
            gathered(fields, passing)
        } else {
            gathered(fields, passing).insert(name, values)
        },
    decreases values.len(),
{
    let all = fields + fields::named(name, values);
    if values.len() == 0 {
        assert(all =~= fields);
    } else {
        lemma_gathered_run(fields, name, values.drop_last(), passing);
        assert(all.drop_last() =~= fields + fields::named(name, values.drop_last()));
        assert(all.last() == (name, values.last()));
        assert(values.drop_last().push(values.last()) =~= values);
        if !passing.drops(name) {
            if values.len() == 1 {
                assert(Seq::<(Seq<u8>, bool)>::empty().push(values.last()) =~= values);
            }
            assert(gathered(all, passing) =~= gathered(fields, passing).insert(name, values));
        }
    }
}

/// Appending all fields of a map, in whatever order its names come, gives the fields that are
/// passed on.
proof fn lemma_gathered_listing(
    order: Seq<Seq<char>>,
    contents: Map<Seq<char>, Seq<(Seq<u8>, bool)>>,
    passing: Passing,
)
    requires
        order.no_duplicates(),
        forall|i: int| 0 <= i < order.len() ==> contents[#[trigger] order[i]].len() > 0,
    ensures
        gathered(fields::listing(order, contents), passing) == Map::new(
            |name: Seq<char>| order.contains(name) && !passing.drops(name),
            |name: Seq<char>| contents[name],
        ),
    decreases order.len(),
{
    let goal = Map::new(
        |name: Seq<char>| order.contains(name) && !passing.drops(name),
        |name: Seq<char>| contents[name],
    );
    if order.len() == 0 {
        assert(gathered(fields::listing(order, contents), passing) =~= goal);
    } else {
        let rest = order.drop_last();
        let name = order.last();
        lemma_gathered_listing(rest, contents, passing);
        assert(!rest.contains(name));
        lemma_gathered_run(fields::listing(rest, contents), name, contents[name], passing);
        assert forall|n: Seq<char>| order.contains(n) == (rest.contains(n) || n == name) by {
            if order.contains(n) {
                let i = order.index_of(n);
                if i < rest.len() {
                    assert(rest[i] == n);
                }
            }
            if rest.contains(n) {
                let i = rest.index_of(n);
                assert(order[i] == n);
            }
            assert(order[order.len() - 1] == name);
        }
        assert(gathered(fields::listing(order, contents), passing) =~= goal);
    }
}

/// Whether a field concerns only the connection on which it came.
pub fn is_connection_header(name: &str) -> (hop_by_hop: bool)
    ensures
        hop_by_hop == is_hop_by_hop(name@),
{
    let name = lower_text(name);
    let name = name.as_str();
    same_text(name, "connection") || same_text(name, "proxy-connection") || same_text(
        name,
        "transfer-encoding",
    ) || same_text(name, "keep-alive") || same_text(name, "upgrade") || same_text(name, "te")
        || same_text(name, "trailer")
}

/// Whether the proxy leaves a request field out of the upstream request.
pub fn should_skip_request_header(name: &str) -> (skip: bool)
    ensures
        skip == is_skipped(name@),
{
    let lower = lower_text(name);
    let lower = lower.as_str();
    is_connection_header(name) || same_text(lower, "host") || same_text(lower, "content-length")
        || same_text(lower, "proxy-authorization") || same_text(lower, "proxy-authenticate")
}

impl Passing {
    /// Whether a field is left out.
    fn leaves_out(self, name: &str) -> (drop: bool)
        ensures
            drop == self.drops(name@),
    {
        match self {
            Passing::Request => should_skip_request_header(name),
            Passing::Reply => is_connection_header(name) || same_text(
                lower_text(name).as_str(),
                "content-length",
            ),
            Passing::HeadReply => is_connection_header(name),
        }
    }
}

/// The names that appending gathers are names of the fields appended.
proof fn lemma_gathered_names(
    fields: Seq<(Seq<char>, (Seq<u8>, bool))>,
    names: Set<Seq<char>>,
    passing: Passing,
)
    requires
        forall|i: int| 0 <= i < fields.len() ==> names.contains((#[trigger] fields[i]).0),
    ensures
        gathered(fields, passing).dom().subset_of(names),
    decreases fields.len(),
{
    if fields.len() > 0 {
        lemma_gathered_names(fields.drop_last(), names, passing);
        assert(names.contains(fields[fields.len() - 1].0));
    }
}

/// The names in a listing are the names in the order that it follows.
proof fn lemma_listing_names(
    order: Seq<Seq<char>>,
    contents: Map<Seq<char>, Seq<(Seq<u8>, bool)>>,
    at: int,
)
    requires
        0 <= at < fields::listing(order, contents).len(),
    ensures
        order.contains(fields::listing(order, contents)[at].0),
    decreases order.len(),
{
    let before = fields::listing(order.drop_last(), contents);
    if at < before.len() {
        lemma_listing_names(order.drop_last(), contents, at);
        let i = order.drop_last().index_of(before[at].0);
        assert(order[i] == before[at].0);
    } else {
        assert(order[order.len() - 1] == order.last());
    }
}

/// Makes a text the only value under `name`.
pub(crate) fn set_field(headers: &mut HeaderMap, name: &str, value: &str)
    requires
        fields::is_field_name(name@),
        fields::is_visible(utf8::encode_utf8(value@)),
        fields::header_contents(*old(headers)).dom().len() <= NAME_LIMIT,
    ensures
        fields::header_contents(*final(headers)) == fields::header_contents(*old(headers)).insert(
            name@,
            seq![text_value(value@)],
        ),
{
    insert_field(headers, &name_of_text(name), &value_of_text(value));
}

/// The fields of a message that are passed on.
fn pass_on(source: &HeaderMap, passing: Passing) -> (headers: HeaderMap)
    requires
        has_few_names(*source),
    ensures
        fields::header_contents(headers) == passing.kept(fields::header_contents(*source)),
        fields::header_contents(headers).dom().finite(),
        fields::header_contents(headers).dom().len() < NAME_LIMIT,
{
    let ghost contents = fields::header_contents(*source);
    let fields = header_fields(source);
    let ghost views = fields::field_views(fields@);
    let ghost order = choose|order: Seq<Seq<char>>|
        #[trigger] fields::orders(order, contents) && views == fields::listing(order, contents);
    let mut headers = new_headers();
    let mut done: usize = 0;
    assert(gathered(views.take(0), passing) =~= fields::no_fields());
    while done < fields.len()
        invariant
            done <= fields.len(),
            contents.dom().finite(),
            contents.dom().len() < NAME_LIMIT,
            views == fields::field_views(fields@),
            fields::orders(order, contents),
            views == fields::listing(order, contents),
            fields::header_contents(headers) == gathered(views.take(done as int), passing),
        decreases fields.len() - done,
    {
        let field = &fields[done];
        let ghost seen = views.take(done as int);
        proof {
            assert(views[done as int] == (
                fields::name_text(field.0),
                fields::value_contents(field.1),
            ));
            assert forall|i: int| 0 <= i < seen.len() implies contents.dom().contains(
                (#[trigger] seen[i]).0,
            ) by {
                lemma_listing_names(order, contents, i);
                assert(order.to_set().contains(views[i].0));
            }
            lemma_gathered_names(seen, contents.dom(), passing);
            vstd::set_lib::lemma_len_subset(gathered(seen, passing).dom(), contents.dom());
            assert(views.take(done + 1).drop_last() =~= seen);
        }
        if !passing.leaves_out(text_of_name(&field.0).as_str()) {
            append_field(&mut headers, &field.0, &field.1);
        }
        done = done + 1;
    }
    proof {
        assert(views.take(views.len() as int) =~= views);
        lemma_gathered_listing(order, contents, passing);
        assert forall|name: Seq<char>| order.contains(name) == contents.contains_key(name) by {
            assert(order.to_set().contains(name) == order.contains(name));
        }
        assert(fields::header_contents(headers) =~= passing.kept(contents));
        vstd::set_lib::lemma_len_subset(passing.kept(contents).dom(), contents.dom());
    }
    headers
}

/// The fields to send upstream for a request with the given fields.
pub fn upstream_headers(request_headers: &HeaderMap, force_identity: bool) -> (headers: HeaderMap)
    requires
        has_few_names(*request_headers),
    ensures
        fields::header_contents(headers) == upstream_contents(
            fields::header_contents(*request_headers),
            force_identity,
        ),
        fields::header_contents(headers).dom().finite(),
        fields::header_contents(headers).dom().len() <= NAME_LIMIT,
{
    let mut headers = pass_on(request_headers, Passing::Request);
    if force_identity {
        proof {
            lemma_field_names();
            lemma_identity();
        }
        set_field(&mut headers, "accept-encoding", "identity");
    }
    headers
}

/// The fields of a reply that is passed back as it is: all but those that concern only the
/// server's connection, and with the length of the body, unless it was left out.
pub open spec fn reply_contents(
    source: Map<Seq<char>, Seq<(Seq<u8>, bool)>>,
    head: bool,
    content_length: u64,
) -> Map<Seq<char>, Seq<(Seq<u8>, bool)>> {
    if head {
        Passing::HeadReply.kept(source)
    } else {
        Passing::Reply.kept(source).insert(
            "content-length"@,
            seq![text_value(text::decimal(content_length as nat))],
        )
    }
}

/// The fields to send back to the client for a reply that is passed back as it is.
pub fn reply_headers(source: &HeaderMap, head: bool, content_length: u64) -> (headers: HeaderMap)
    requires
        has_few_names(*source),
    ensures
        fields::header_contents(headers) == reply_contents(
            fields::header_contents(*source),
            head,
            content_length,
        ),
{
    if head {
        return pass_on(source, Passing::HeadReply);
    }
    let mut headers = pass_on(source, Passing::Reply);
    proof {
        lemma_field_names();
        lemma_digits_are_field(content_length as nat);
    }
    set_field(&mut headers, "content-length", decimal_text(content_length).as_str());
    headers
}

/// The names of the fields that the proxy reads or writes are field names.
pub(crate) proof fn lemma_field_names()
    ensures
        fields::is_field_name("accept-encoding"@),
        fields::is_field_name("accept-ranges"@),
        fields::is_field_name("cache-control"@),
        fields::is_field_name("content-encoding"@),
        fields::is_field_name("content-length"@),
        fields::is_field_name("content-range"@),
        fields::is_field_name("content-type"@),
        fields::is_field_name("etag"@),
        fields::is_field_name("expires"@),
        fields::is_field_name("last-modified"@),
        fields::is_field_name("location"@),
        fields::is_field_name("range"@),
        fields::is_field_name("set-cookie"@),
        fields::is_field_name("via"@),
{
    reveal_strlit("accept-encoding");
    reveal_strlit("accept-ranges");
    reveal_strlit("cache-control");
    reveal_strlit("content-encoding");
    reveal_strlit("content-length");
    reveal_strlit("content-range");
    reveal_strlit("content-type");
    reveal_strlit("etag");
    reveal_strlit("expires");
    reveal_strlit("last-modified");
    reveal_strlit("location");
    reveal_strlit("range");
    reveal_strlit("set-cookie");
    reveal_strlit("via");
}

/// The demand for an unencoded body is visible text.
proof fn lemma_identity()
    ensures
        fields::is_visible(utf8::encode_utf8("identity"@)),
{
    reveal_strlit("identity");
    lemma_text_is_field("identity"@);
}

/// Text between space and tilde makes a visible field value.
pub(crate) proof fn lemma_text_is_field(text: Seq<char>)
    requires
        forall|i: int| 0 <= i < text.len() ==> ' ' <= #[trigger] text[i] && text[i] <= '~',
    ensures
        fields::is_visible(utf8::encode_utf8(text)),
        fields::ascii_text(utf8::encode_utf8(text)) == text,
{
    assert(utf8::is_ascii_chars(text));
    utf8::is_ascii_chars_encode_utf8(text);
    let bytes = utf8::encode_utf8(text);
    assert forall|i: int| 0 <= i < bytes.len() implies 32 <= #[trigger] bytes[i] < 127 by {
        assert(bytes[i] == text[i] as u8);
    }
    assert(fields::ascii_text(bytes) =~= text);
}

/// Whether a field of an upstream reply is passed back to the client.
pub open spec fn is_relayed(name: Seq<char>) -> bool {
    ||| name == "content-type"@
    ||| name == "content-encoding"@
    ||| name == "etag"@
    ||| name == "last-modified"@
    ||| name == "cache-control"@
    ||| name == "expires"@
    ||| name == "accept-ranges"@
    ||| name == "set-cookie"@
    ||| name == "location"@
    ||| name == "via"@
}

/// The fields of a reply to the client: those passed back, and the length of the body.
pub open spec fn response_contents(
    source: Map<Seq<char>, Seq<(Seq<u8>, bool)>>,
    content_length: u64,
) -> Map<Seq<char>, Seq<(Seq<u8>, bool)>> {
    Map::new(
        |name: Seq<char>| is_relayed(name) && source.contains_key(name),
        |name: Seq<char>| source[name],
    ).insert("content-length"@, seq![text_value(text::decimal(content_length as nat))])
}

/// The map with the values that another map has under `name` in place of its own.
spec fn with_copied(
    contents: Map<Seq<char>, Seq<(Seq<u8>, bool)>>,
    source: Map<Seq<char>, Seq<(Seq<u8>, bool)>>,
    name: Seq<char>,
) -> Map<Seq<char>, Seq<(Seq<u8>, bool)>> {
    if source.contains_key(name) {
        contents.insert(name, source[name])
    } else {
        contents
    }
}

/// Copies the values under `name` into a map that does not hold the name.
fn copy_values(headers: &mut HeaderMap, source: &HeaderMap, name: &str)
    requires
        fields::is_field_name(name@),
        !fields::header_contents(*old(headers)).contains_key(name@),
        fields::header_contents(*old(headers)).dom().finite(),
        fields::header_contents(*old(headers)).dom().len() < NAME_LIMIT,
    ensures
        fields::header_contents(*final(headers)) == with_copied(
            fields::header_contents(*old(headers)),
            fields::header_contents(*source),
            name@,
        ),
        fields::header_contents(*final(headers)).dom().finite(),
        fields::header_contents(*final(headers)).dom().len() <= fields::header_contents(
            *old(headers),
        ).dom().len() + 1,
{
    let field_name = name_of_text(name);
    let values = all_values(source, &field_name);
    let ghost before = fields::header_contents(*headers);
    let ghost views = fields::value_views(values@);
    let mut done: usize = 0;
    while done < values.len()
        invariant
            done <= values.len(),
            fields::name_text(field_name) == name@,
            views == fields::value_views(values@),
            !before.contains_key(name@),
            before.dom().finite(),
            before.dom().len() < NAME_LIMIT,
            fields::header_contents(*headers) == if done == 0 {
                before
            } else {
                before.insert(name@, views.take(done as int))
            },
        decreases values.len() - done,
    {
        append_field(headers, &field_name, &values[done]);
        done = done + 1;
        proof {
            assert(views.take(done as int) =~= views.take(done - 1).push(views[done - 1]));
            if done == 1 {
                assert(views.take(done as int) =~= Seq::<(Seq<u8>, bool)>::empty().push(
                    views[0],
                ));
            }
            assert(fields::header_contents(*headers) =~= before.insert(
                name@,
                views.take(done as int),
            ));
        }
    }
    assert(views.take(views.len() as int) =~= views);
}

/// The fields to send back to the client with a body of `content_length` bytes.
pub fn response_headers(source: &HeaderMap, content_length: u64) -> (headers: HeaderMap)
    ensures
        fields::header_contents(headers) == response_contents(
            fields::header_contents(*source),
            content_length,
        ),
{
    let ghost from = fields::header_contents(*source);
    proof {
        lemma_field_names();
        reveal_strlit("accept-ranges");
        reveal_strlit("cache-control");
        reveal_strlit("content-encoding");
        reveal_strlit("content-length");
        reveal_strlit("content-type");
        reveal_strlit("etag");
        reveal_strlit("expires");
        reveal_strlit("last-modified");
        reveal_strlit("location");
        reveal_strlit("set-cookie");
        reveal_strlit("via");
        assert("last-modified"@[0] == 'l');
        assert("cache-control"@[0] == 'c');
        assert("accept-ranges"@[0] == 'a');
    }
    let mut headers = new_headers();
    copy_values(&mut headers, source, "content-type");
    copy_values(&mut headers, source, "content-encoding");
    copy_values(&mut headers, source, "etag");
    copy_values(&mut headers, source, "last-modified");
    copy_values(&mut headers, source, "cache-control");
    copy_values(&mut headers, source, "expires");
    copy_values(&mut headers, source, "accept-ranges");
    copy_values(&mut headers, source, "set-cookie");
    copy_values(&mut headers, source, "location");
    copy_values(&mut headers, source, "via");
    proof {
        lemma_digits_are_field(content_length as nat);
    }
    set_field(&mut headers, "content-length", decimal_text(content_length).as_str());
    assert(fields::header_contents(headers) =~= response_contents(from, content_length));
    headers
}

/// The digits of a number make a visible field value.
pub(crate) proof fn lemma_digits_are_field(value: nat)
    ensures
        fields::is_visible(utf8::encode_utf8(text::decimal(value))),
        fields::ascii_text(utf8::encode_utf8(text::decimal(value))) == text::decimal(value),
{
    text::lemma_decimal_number(value);
    assert forall|i: int| 0 <= i < text::decimal(value).len() implies ' ' <= #[trigger] text::decimal(
        value,
    )[i] && text::decimal(value)[i] <= '~' by {
        assert(text::is_digit(text::decimal(value)[i]));
    }
    lemma_text_is_field(text::decimal(value));
}

/// The text of the first value under `name`, where there is one and it is visible text.
pub open spec fn field_text(
    contents: Map<Seq<char>, Seq<(Seq<u8>, bool)>>,
    name: Seq<char>,
) -> Option<Seq<char>> {
    if contents.contains_key(name) && fields::is_visible(contents[name][0].0) {
        Some(fields::ascii_text(contents[name][0].0))
    } else {
        None
    }
}

/// The body length that a reply announces.
pub open spec fn announced_length(contents: Map<Seq<char>, Seq<(Seq<u8>, bool)>>) -> Option<u64> {
    match field_text(contents, "content-length"@) {
        Some(value) => text::unsigned(value),
        None => None,
    }
}

/// Whether a server announces that it serves byte ranges.
pub open spec fn announces_ranges(contents: Map<Seq<char>, Seq<(Seq<u8>, bool)>>) -> bool {
    match field_text(contents, "accept-ranges"@) {
        Some(value) => text::lower(value) == "bytes"@,
        None => false,
    }
}

/// The two ends of a range.
pub open spec fn range_ends(chunk: Chunk) -> Seq<char> {
    text::decimal(chunk.start as nat) + "-"@ + text::decimal(chunk.end as nat)
}

/// The `Content-Range` value of a reply that holds `chunk` of a resource of `total_size` bytes.
pub open spec fn content_range(chunk: Chunk, total_size: u64) -> Seq<char> {
    "bytes "@ + range_ends(chunk) + "/"@ + text::decimal(total_size as nat)
}

/// What is wrong with the `Content-Range` of a reply to a request for `chunk`, if anything.
pub open spec fn content_range_fault(
    contents: Map<Seq<char>, Seq<(Seq<u8>, bool)>>,
    chunk: Chunk,
    total_size: u64,
) -> Option<Seq<char>> {
    match field_text(contents, "content-range"@) {
        None => Some("missing Content-Range header in 206 response"@),
        Some(value) => if value != content_range(chunk, total_size) {
            Some(
                "unexpected Content-Range: expected "@ + content_range(chunk, total_size)
                    + ", got "@ + value,
            )
        } else {
            None
        },
    }
}

/// Reads the text of the first value under `name`.
fn first_text(headers: &HeaderMap, name: &str) -> (text: Option<String>)
    requires
        fields::is_field_name(name@),
    ensures
        match text {
            Some(text) => field_text(fields::header_contents(*headers), name@) == Some(text@),
            None => field_text(fields::header_contents(*headers), name@) is None,
        },
{
    match first_value(headers, &name_of_text(name)) {
        Some(value) => text_of_value(&value),
        None => None,
    }
}

/// Reads the body length that a reply announces.
pub fn parse_content_length(headers: &HeaderMap) -> (length: Option<u64>)
    ensures
        length == announced_length(fields::header_contents(*headers)),
{
    proof {
        lemma_field_names();
    }
    match first_text(headers, "content-length") {
        Some(value) => parse_unsigned(value.as_str()),
        None => None,
    }
}

/// Whether a reply announces that the server serves byte ranges.
pub fn accepts_ranges(headers: &HeaderMap) -> (accepts: bool)
    ensures
        accepts == announces_ranges(fields::header_contents(*headers)),
{
    proof {
        lemma_field_names();
    }
    match first_text(headers, "accept-ranges") {
        Some(value) => same_text(lower_text(value.as_str()).as_str(), "bytes"),
        None => false,
    }
}

/// Writes the two ends of a range.
pub fn range_text(chunk: Chunk) -> (ends: String)
    ensures
        ends@ == range_ends(chunk),
{
    let mut ends = decimal_text(chunk.start);
    ends.append("-");
    ends.append(decimal_text(chunk.end).as_str());
    ends
}

/// Checks that a reply says it holds `chunk` of a resource of `total_size` bytes.
pub fn validate_content_range(headers: &HeaderMap, chunk: Chunk, total_size: u64) -> (checked:
    Result<(), String>)
    ensures
        match checked {
            Ok(_) => content_range_fault(fields::header_contents(*headers), chunk, total_size)
                is None,
            Err(error) => content_range_fault(fields::header_contents(*headers), chunk, total_size)
                == Some(error@),
        },
{
    proof {
        lemma_field_names();
    }
    let mut expected = "bytes ".to_owned();
    expected.append(range_text(chunk).as_str());
    expected.append("/");
    expected.append(decimal_text(total_size).as_str());
    match first_text(headers, "content-range") {
        None => Err("missing Content-Range header in 206 response".to_owned()),
        Some(value) => if same_text(value.as_str(), expected.as_str()) {
            Ok(())
        } else {
            let mut error = "unexpected Content-Range: expected ".to_owned();
            error.append(expected.as_str());
            error.append(", got ");
            error.append(value.as_str());
            Err(error)
        },
    }
}

/// A request to an upstream server, and the interface over which it goes.
#[derive(Debug)]
pub struct UpstreamRequest {
    pub nic_index: usize,
    pub method: String,
    pub url: String,
    pub headers: HeaderMap,
    pub body: Option<Bytes>,
}

/// Whether `request` asks for `url` over the given interface, with the given method and fields, and
/// without a body.
pub open spec fn asks(
    request: UpstreamRequest,
    nic_index: usize,
    method: Seq<char>,
    url: Seq<char>,
    contents: Map<Seq<char>, Seq<(Seq<u8>, bool)>>,
) -> bool {
    &&& request.nic_index == nic_index
    &&& request.method@ == method
    &&& request.url@ == url
    &&& fields::header_contents(request.headers) == contents
    &&& request.body is None
}

/// The head of an upstream reply, and the address that gave it once all redirects were followed.
#[derive(Debug)]
pub struct Reply {
    pub status: u16,
    pub headers: HeaderMap,
    pub url: String,
}

/// What a server told of a resource.
#[derive(Debug, Clone)]
pub struct ServerInfo {
    pub content_length: Option<u64>,
    pub accepts_ranges: bool,
    pub final_url: String,
}

/// A complete upstream reply, and how long it took.
#[derive(Debug)]
pub struct TransferResult {
    pub bytes: Bytes,
    pub duration: Duration,
    pub status: u16,
    pub headers: HeaderMap,
}

/// One fetched part of a resource, and how long it took.
#[derive(Debug)]
pub struct ChunkResult {
    pub bytes: Bytes,
    pub duration: Duration,
    pub headers: HeaderMap,
}

/// How an exchange with an upstream server went.
#[derive(Debug)]
pub enum Exchange {
    /// No reply came.
    Unanswered,
    /// A reply came, but not its whole body.
    Broken,
    /// The whole reply came.
    Complete { reply: Reply, body: Bytes, duration: Duration },
}

/// How many redirects are followed at most.
pub const REDIRECT_LIMIT: usize = 10;

/// Whether a redirect is followed: only over plain HTTP, and only as long as there were not more
/// redirects than are followed. The first of the addresses tried before is that of the request
/// itself.
pub open spec fn follows_redirect(previous: nat, scheme: Seq<char>) -> bool {
    previous <= REDIRECT_LIMIT && scheme == "http"@
}

/// Decides whether to follow a redirect to an address with the given scheme after `previous`
/// addresses, that of the request itself among them.
pub fn follow_redirect(previous: usize, scheme: &str) -> (follow: bool)
    ensures
        follow == follows_redirect(previous as nat, scheme@),
{
    previous <= REDIRECT_LIMIT && same_text(scheme, "http")
}

/// Whether the proxy can take up the fields of a request: it can as long as there are fewer names
/// than fill a header map.
pub open spec fn has_few_names(headers: HeaderMap) -> bool {
    &&& fields::header_contents(headers).dom().finite()
    &&& fields::header_contents(headers).dom().len() < NAME_LIMIT
}

/// Whether the proxy can take up the fields of a request.
pub fn names_fit(headers: &HeaderMap) -> (fit: bool)
    ensures
        fit == has_few_names(*headers),
{
    name_count(headers) < NAME_LIMIT
}

/// The request that asks for the size of a resource and for range support.
pub fn head(nic_index: usize, url: &str, request_headers: &HeaderMap) -> (request: UpstreamRequest)
    requires
        has_few_names(*request_headers),
    ensures
        asks(
            request,
            nic_index,
            "HEAD"@,
            url@,
            upstream_contents(
                fields::header_contents(*request_headers),
                true,
            ),
        ),
{
    UpstreamRequest {
        nic_index,
        method: "HEAD".to_owned(),
        url: url.to_owned(),
        headers: upstream_headers(request_headers, true),
        body: None,
    }
}

/// The fields of a request for one part of a resource.
pub open spec fn range_contents(
    contents: Map<Seq<char>, Seq<(Seq<u8>, bool)>>,
    chunk: Chunk,
) -> Map<Seq<char>, Seq<(Seq<u8>, bool)>> {
    upstream_contents(contents, true).insert(
        "range"@,
        seq![text_value("bytes="@ + range_ends(chunk))],
    )
}

/// A range demand is a valid field value.
proof fn lemma_range_is_field(chunk: Chunk)
    ensures
        fields::is_visible(utf8::encode_utf8("bytes="@ + range_ends(chunk))),
{
    reveal_strlit("bytes=");
    reveal_strlit("-");
    text::lemma_decimal_number(chunk.start as nat);
    text::lemma_decimal_number(chunk.end as nat);
    let start = text::decimal(chunk.start as nat);
    let end = text::decimal(chunk.end as nat);
    let all = "bytes="@ + range_ends(chunk);
    assert forall|i: int| 0 <= i < all.len() implies ' ' <= #[trigger] all[i] && all[i] <= '~' by {
        if i < 6 {
            assert(all[i] == "bytes="@[i]);
        } else if i < 6 + start.len() {
            assert(text::is_digit(start[i - 6]));
        } else if i == 6 + start.len() {
            assert(all[i] == "-"@[0]);
        } else {
            assert(text::is_digit(end[i - 7 - start.len()]));
        }
    }
    lemma_text_is_field(all);
}

/// The request for one part of a resource.
pub fn get_range(
    nic_index: usize,
    url: &str,
    request_headers: &HeaderMap,
    chunk: Chunk,
) -> (request: UpstreamRequest)
    requires
        has_few_names(*request_headers),
    ensures
        asks(
            request,
            nic_index,
            "GET"@,
            url@,
            range_contents(
                fields::header_contents(*request_headers),
                chunk,
            ),
        ),
{
    let mut headers = upstream_headers(request_headers, true);
    let mut demand = "bytes=".to_owned();
    demand.append(range_text(chunk).as_str());
    proof {
        lemma_field_names();
        lemma_range_is_field(chunk);
    }
    set_field(&mut headers, "range", demand.as_str());
    UpstreamRequest {
        nic_index,
        method: "GET".to_owned(),
        url: url.to_owned(),
        headers,
        body: None,
    }
}

/// The request that passes a client's request on. An empty body is left out.
pub fn request_with_body(
    nic_index: usize,
    method: &str,
    url: &str,
    request_headers: &HeaderMap,
    body: Bytes,
) -> (request: UpstreamRequest)
    requires
        has_few_names(*request_headers),
    ensures
        request.nic_index == nic_index,
        request.method@ == method@,
        request.url@ == url@,
        fields::header_contents(request.headers) == upstream_contents(
            fields::header_contents(*request_headers),
            false,
        ),
        request.body == if body::bytes_contents(body).len() == 0 {
            None
        } else {
            Some(body)
        },
{
    UpstreamRequest {
        nic_index,
        method: method.to_owned(),
        url: url.to_owned(),
        headers: upstream_headers(request_headers, false),
        body: if bytes_len(&body) == 0 {
            None
        } else {
            Some(body)
        },
    }
}

/// The request for a whole resource.
pub fn get_full(nic_index: usize, url: &str, request_headers: &HeaderMap) -> (request:
    UpstreamRequest)
    requires
        has_few_names(*request_headers),
    ensures
        asks(
            request,
            nic_index,
            "GET"@,
            url@,
            upstream_contents(
                fields::header_contents(*request_headers),
                false,
            ),
        ),
{
    request_with_body(nic_index, "GET", url, request_headers, empty_bytes())
}

/// What a server tells of a resource in the reply to a `HEAD` request.
pub open spec fn is_server_info(info: ServerInfo, reply: Reply) -> bool {
    &&& info.content_length == announced_length(fields::header_contents(reply.headers))
    &&& info.accepts_ranges == announces_ranges(fields::header_contents(reply.headers))
    &&& info.final_url@ == reply.url@
}

/// Why a `HEAD` request for `url` failed, if it did.
pub open spec fn head_fault(url: Seq<char>, reply: Option<Reply>) -> Option<Seq<char>> {
    match reply {
        None => Some("HEAD failed for "@ + url),
        Some(reply) => if status::is_success(reply.status) {
            None
        } else {
            Some("HEAD failed: "@ + status::status_line(reply.status))
        },
    }
}

/// Reads the reply to a `HEAD` request for `url`; without a reply the request failed.
pub fn head_reply(url: &str, reply: Option<Reply>) -> (outcome: Result<ServerInfo, String>)
    requires
        reply is Some ==> status::is_status(reply->0.status),
    ensures
        match outcome {
            Ok(info) => head_fault(url@, reply) is None && reply is Some && is_server_info(
                info,
                reply->0,
            ),
            Err(error) => head_fault(url@, reply) == Some(error@),
        },
{
    match reply {
        None => {
            let mut error = "HEAD failed for ".to_owned();
            error.append(url);
            Err(error)
        },
        Some(reply) => {
            if 200 <= reply.status && reply.status < 300 {
                Ok(
                    ServerInfo {
                        content_length: parse_content_length(&reply.headers),
                        accepts_ranges: accepts_ranges(&reply.headers),
                        final_url: reply.url,
                    },
                )
            } else {
                let mut error = "HEAD failed: ".to_owned();
                error.append(status_text(reply.status).as_str());
                Err(error)
            }
        },
    }
}

/// Why the reply to a request for `chunk` of a resource of `total_size` bytes cannot be used, if
/// it cannot.
pub open spec fn range_fault(chunk: Chunk, total_size: u64, reply: Option<Reply>) -> Option<
    Seq<char>,
> {
    match reply {
        None => Some("range GET failed for bytes "@ + range_ends(chunk)),
        Some(reply) => if reply.status != status::PARTIAL_CONTENT {
            Some(
                "unexpected range status for bytes "@ + range_ends(chunk) + ": "@
                    + status::status_line(reply.status),
            )
        } else {
            content_range_fault(fields::header_contents(reply.headers), chunk, total_size)
        },
    }
}

/// Checks the head of the reply to a request for `chunk`; without a reply the request failed.
pub fn range_reply(chunk: Chunk, total_size: u64, reply: Option<Reply>) -> (checked: Result<
    Reply,
    String,
>)
    requires
        reply is Some ==> status::is_status(reply->0.status),
    ensures
        match checked {
            Ok(head) => range_fault(chunk, total_size, reply) is None && reply == Some(head),
            Err(error) => range_fault(chunk, total_size, reply) == Some(error@),
        },
{
    match reply {
        None => {
            let mut error = "range GET failed for bytes ".to_owned();
            error.append(range_text(chunk).as_str());
            Err(error)
        },
        Some(reply) => {
            if reply.status != PARTIAL_CONTENT {
                let mut error = "unexpected range status for bytes ".to_owned();
                error.append(range_text(chunk).as_str());
                error.append(": ");
                error.append(status_text(reply.status).as_str());
                return Err(error);
            }
            match validate_content_range(&reply.headers, chunk, total_size) {
                Ok(_) => Ok(reply),
                Err(error) => Err(error),
            }
        },
    }
}

/// What is wrong with the body that came for `chunk`, if anything.
pub open spec fn range_body_fault(chunk: Chunk, body: Option<Bytes>) -> Option<Seq<char>> {
    match body {
        None => Some("failed to read range body "@ + range_ends(chunk)),
        Some(body) => if body::bytes_contents(body).len() != chunk.size() {
            Some(
                "range body length mismatch for bytes "@ + range_ends(chunk) + ": expected "@
                    + text::decimal(chunk.size() as nat) + ", got "@ + text::decimal(
                    body::bytes_contents(body).len(),
                ),
            )
        } else {
            None
        },
    }
}

/// Checks the body that came for `chunk`; without a body the reply broke off.
pub fn range_body(chunk: Chunk, reply: Reply, body: Option<Bytes>, duration: Duration) -> (outcome:
    Result<ChunkResult, String>)
    requires
        chunk.is_range(),
    ensures
        match outcome {
            Ok(result) => range_body_fault(chunk, body) is None && body == Some(result.bytes)
                && result.headers == reply.headers && result.duration == duration,
            Err(error) => range_body_fault(chunk, body) == Some(error@),
        },
{
    match body {
        None => {
            let mut error = "failed to read range body ".to_owned();
            error.append(range_text(chunk).as_str());
            Err(error)
        },
        Some(bytes) => {
            let received: u64 = bytes_len(&bytes) as u64;
            if received != chunk.len() {
                let mut error = "range body length mismatch for bytes ".to_owned();
                error.append(range_text(chunk).as_str());
                error.append(": expected ");
                error.append(decimal_text(chunk.len()).as_str());
                error.append(", got ");
                error.append(decimal_text(received).as_str());
                return Err(error);
            }
            Ok(ChunkResult { bytes, duration, headers: reply.headers })
        },
    }
}

/// Why an exchange about `url` did not give a complete reply, if it did not.
pub open spec fn exchange_fault(url: Seq<char>, exchange: Exchange) -> Option<Seq<char>> {
    match exchange {
        Exchange::Unanswered => Some("upstream request failed for "@ + url),
        Exchange::Broken => Some("failed to read upstream body for "@ + url),
        Exchange::Complete { .. } => None,
    }
}

/// What an exchange about `url` brought.
pub fn transfer(url: &str, exchange: Exchange) -> (outcome: Result<TransferResult, String>)
    ensures
        match outcome {
            Ok(result) => exchange_fault(url@, exchange) is None && result.bytes
                == exchange->Complete_body && result.duration == exchange->Complete_duration
                && result.status == exchange->Complete_reply.status && result.headers
                == exchange->Complete_reply.headers,
            Err(error) => exchange_fault(url@, exchange) == Some(error@),
        },
{
    match exchange {
        Exchange::Unanswered => {
            let mut error = "upstream request failed for ".to_owned();
            error.append(url);
            Err(error)
        },
        Exchange::Broken => {
            let mut error = "failed to read upstream body for ".to_owned();
            error.append(url);
            Err(error)
        },
        Exchange::Complete { reply, body, duration } => Ok(
            TransferResult { bytes: body, duration, status: reply.status, headers: reply.headers },
        ),
    }
}

} // verus!
