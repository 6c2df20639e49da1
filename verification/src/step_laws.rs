//! What holds of the steps in which a request is handled.

use bytes::Bytes;
use hyper::HeaderMap;
use vstd::prelude::*;

use crate::body;
use crate::chunk;
use crate::chunk::{split_in_half, Chunk};
use crate::clock::Duration;
use crate::count_laws;
use crate::fields;
use crate::handler;
use crate::handler::{
    absolute_http_url, accepts_piece, complete_full_get, continue_get, continue_passthrough,
    expect_body, finish_connect, finish_full_get, finish_passthrough, finish_range_get,
    handle_connect, handle_full_get, handle_get, handle_passthrough, handle_range_get,
    receive_piece, route, tunnel_ended, ConnectStep, GetStep, PassthroughStep, Reception,
    RequestUri, Route,
};
use crate::http;
use crate::http::{
    range_text, reply_headers, response_headers, upstream_headers, ChunkResult, ServerInfo,
    TransferResult, UpstreamRequest,
};
use crate::proxy::{ConnectionContext, ProxyState};
use crate::rate::seconds_text;
use crate::reply_laws;
use crate::request_laws;
use crate::response::ProxyResponse;
use crate::stats;
use crate::stats::{SharedStats, StatsView};
use crate::text;
use crate::tunnel::{CopyPhase, TunnelEnd};

verus! {

/// Whether nothing but the statistics of a proxy changed.
pub open spec fn same_setup(before: ProxyState, after: ProxyState) -> bool {
    after.config == before.config && after.options == before.options && after.turns == before.turns
}

/// Requests are told apart by their method, in capitals: tunnels, resources, and all others.
pub proof fn requests_are_told_apart_by_method(method: &str, way: Route)
    requires
        call_ensures(route, (method,), way),
    ensures
        way is Connect <==> method@ == "CONNECT"@,
        way is Get <==> method@ == "GET"@,
{
    reveal_strlit("CONNECT");
    reveal_strlit("GET");
    assert("CONNECT"@.len() != "GET"@.len());
}

/// Only addresses of plain HTTP with an authority are taken up, as they are written. Others are
/// refused by name.
pub proof fn only_absolute_addresses_are_taken_up(uri: &RequestUri, url: Result<String, String>)
    requires
        call_ensures(absolute_http_url, (uri,), url),
    ensures
        ({
            let http = uri.scheme is Some && uri.scheme->0@ == "http"@;
            &&& url is Ok <==> http && uri.authority is Some
            &&& url is Ok ==> url->Ok_0@ == uri.text@
            &&& !http ==> url->Err_0@ == "only absolute HTTP URLs are supported: "@ + uri.text@
            &&& http && uri.authority is None ==> url->Err_0@
                == "request URI is missing authority: "@ + uri.text@
        }),
{
}

/// Whether a request asks for an address over an interface with a method and fields, and has no
/// body.
pub open spec fn goes_out(
    request: UpstreamRequest,
    nic_index: usize,
    method: Seq<char>,
    url: Seq<char>,
    headers: HeaderMap,
) -> bool {
    &&& request.nic_index == nic_index
    &&& request.method@ == method
    &&& request.url@ == url
    &&& fields::header_contents(request.headers) == fields::header_contents(headers)
    &&& request.body is None
}

/// A `GET` request for an absolute address is taken up: with range splitting its server is asked
/// about the resource first, and without it the resource is fetched at once, in both cases over
/// the interface of the connection and with the client's fields. Any other is answered with 400.
pub proof fn resources_are_asked_for_over_the_assigned_interface(
    state: &mut ProxyState,
    connection: &ConnectionContext,
    uri: &RequestUri,
    request_headers: &HeaderMap,
    now: Duration,
    step: GetStep,
    url: Result<String, String>,
    as_they_are: HeaderMap,
    unencoded: HeaderMap,
)
    requires
        call_ensures(handle_get, (state, connection, uri, request_headers, now), step),
        call_ensures(absolute_http_url, (uri,), url),
        call_ensures(upstream_headers, (request_headers, false), as_they_are),
        call_ensures(upstream_headers, (request_headers, true), unencoded),
        stats::is_kept(old(state).stats@),
        url is Err ==> old(state).stats@.can_fail(connection.id),
    ensures
        same_setup(*old(state), *final(state)),
        match url {
            Err(error) => {
                &&& step is Answer
                &&& reply_laws::tells_error(step->response, 400, "400 Bad Request"@, error@)
                &&& count_laws::fails(
                    old(state).stats@,
                    final(state).stats@,
                    connection.id,
                    error@,
                    now@,
                )
            },
            Ok(url) => {
                &&& old(state).options.range_split_enabled ==> step is Head && step->url@ == url@
                    && goes_out(step->request, connection.nic_index, "HEAD"@, url@, unencoded)
                &&& !old(state).options.range_split_enabled ==> step is Full && step->full.info is None
                    && step->full.note is None && goes_out(
                    step->full.request,
                    connection.nic_index,
                    "GET"@,
                    url@,
                    as_they_are,
                )
                &&& count_laws::takes_up(
                    old(state).stats@,
                    final(state).stats@,
                    connection.id,
                    connection.nic_index,
                    "HTTP GET"@,
                    url@,
                    if old(state).options.range_split_enabled {
                        "head"@
                    } else {
                        "full"@
                    },
                    now@,
                )
            },
        },
{
    let before = old(state).stats@;
    match url {
        Err(error) => {
            reply_laws::lemma_tells_error(step->response, 400, error@);
            count_laws::lemma_fails(before, connection.id, error@, now@);
        },
        Ok(url) => {
            count_laws::lemma_takes_up(
                before,
                connection.id,
                connection.nic_index,
                "HTTP GET"@,
                url@,
                if old(state).options.range_split_enabled {
                    "head"@
                } else {
                    "full"@
                },
                now@,
            );
        },
    }
}

/// A whole resource is fetched from where its server said it is, or else from the address in the
/// request, over the interface of the connection and with the client's fields.
pub proof fn whole_resources_come_from_where_they_are(
    state: &mut ProxyState,
    connection: &ConnectionContext,
    url: &str,
    info: Option<ServerInfo>,
    note: Option<String>,
    request_headers: &HeaderMap,
    step: GetStep,
    sent: HeaderMap,
)
    requires
        call_ensures(
            handle_full_get,
            (state, connection, url, info, note, request_headers),
            step,
        ),
        call_ensures(upstream_headers, (request_headers, false), sent),
    ensures
        same_setup(*old(state), *final(state)),
        step is Full,
        step->full.info == info,
        step->full.note == note,
        goes_out(
            step->full.request,
            connection.nic_index,
            "GET"@,
            match info {
                Some(info) => info.final_url@,
                None => url@,
            },
            sent,
        ),
        count_laws::moves(old(state).stats@, final(state).stats@, connection.id, "full"@),
{
    count_laws::lemma_moves(old(state).stats@, connection.id, "full"@);
}

/// Whether a step fetches a resource of `size` bytes in two parts that cover every byte of it once,
/// the first part over the first interface and the second over the second.
pub open spec fn covers(step: GetStep, url: Seq<char>, size: u64) -> bool {
    &&& step is Split
    &&& step->split.size == size
    &&& step->split.first.nic_index == 0 && step->split.second.nic_index == 1
    &&& step->split.first.method@ == "GET"@ && step->split.second.method@ == "GET"@
    &&& step->split.first.url@ == url && step->split.second.url@ == url
    &&& step->split.first.body is None && step->split.second.body is None
    &&& exists|middle: nat| 0 < middle < size && middle <= size - middle <= middle + 1
        && #[trigger] request_laws::demand_range(
        fields::header_contents(step->split.first.headers),
        0,
        (middle - 1) as nat,
    ) && request_laws::demand_range(
        fields::header_contents(step->split.second.headers),
        middle,
        (size - 1) as nat,
    )
}

/// Fetching the two halves covers the resource.
proof fn lemma_covers(
    step: GetStep,
    url: Seq<char>,
    size: u64,
    contents: Map<Seq<char>, Seq<(Seq<u8>, bool)>>,
)
    requires
        size >= 2,
        handler::fetches_halves(step, url, size, contents),
    ensures
        covers(step, url, size),
{
    let first = chunk::first_half(size);
    let second = chunk::second_half(size);
    request_laws::lemma_range_is_demanded(contents, first);
    request_laws::lemma_range_is_demanded(contents, second);
    let middle = second.start as nat;
    assert(request_laws::demand_range(
        fields::header_contents(step->split.first.headers),
        0,
        (middle - 1) as nat,
    ));
}

/// A resource that is split is fetched in two parts that cover every byte of it once, one over each
/// interface, from where its server said it is.
pub proof fn split_resources_are_covered(
    state: &mut ProxyState,
    connection: &ConnectionContext,
    original_url: &str,
    final_url: &str,
    size: u64,
    request_headers: &HeaderMap,
    now: Duration,
    step: GetStep,
)
    requires
        call_ensures(
            handle_range_get,
            (state, connection, original_url, final_url, size, request_headers, now),
            step,
        ),
        size >= 2,
        stats::is_kept(old(state).stats@),
    ensures
        same_setup(*old(state), *final(state)),
        covers(step, final_url@, size),
        takes_up_and_notes(
            old(state).stats@,
            final(state).stats@,
            *connection,
            original_url@,
            "GET #"@ + text::decimal(connection.id as nat) + " "@ + original_url@
                + " range split started"@,
            now@,
        ),
{
    lemma_covers(step, final_url@, size, fields::header_contents(*request_headers));
    lemma_takes_up_and_notes(
        old(state).stats@,
        *connection,
        original_url@,
        "GET #"@ + text::decimal(connection.id as nat) + " "@ + original_url@
            + " range split started"@,
        now@,
    );
}

/// Whether a connection took up the fetching of two parts, and an event was recorded behind that.
pub open spec fn takes_up_and_notes(
    before: StatsView,
    after: StatsView,
    connection: ConnectionContext,
    url: Seq<char>,
    event: Seq<char>,
    now: nat,
) -> bool {
    exists|between: StatsView|
        count_laws::takes_up(
            before,
            between,
            connection.id,
            connection.nic_index,
            "HTTP GET"@,
            url,
            "range"@,
            now,
        ) && #[trigger] count_laws::notes(between, after, event, now)
}

/// Taking up the fetching of two parts and recording it is what it says.
proof fn lemma_takes_up_and_notes(
    stats: StatsView,
    connection: ConnectionContext,
    url: Seq<char>,
    event: Seq<char>,
    now: nat,
)
    requires
        stats::is_kept(stats),
    ensures
        takes_up_and_notes(
            stats,
            stats.started(
                connection.id,
                connection.nic_index,
                "HTTP GET"@,
                url,
                "range"@,
                now,
            ).with_event(event, now),
            connection,
            url,
            event,
            now,
        ),
{
    let between = stats.started(
        connection.id,
        connection.nic_index,
        "HTTP GET"@,
        url,
        "range"@,
        now,
    );
    count_laws::lemma_takes_up(
        stats,
        connection.id,
        connection.nic_index,
        "HTTP GET"@,
        url,
        "range"@,
        now,
    );
    count_laws::lemma_notes(between, event, now);
    assert(count_laws::notes(between, between.with_event(event, now), event, now));
}

/// Whether an event was recorded and a connection moved to the fetching of a whole resource.
pub open spec fn notes_and_moves(
    before: StatsView,
    after: StatsView,
    event: Seq<char>,
    id: u64,
    now: nat,
) -> bool {
    exists|between: StatsView| #[trigger]
        count_laws::notes(before, between, event, now) && count_laws::moves(
            between,
            after,
            id,
            "full"@,
        )
}

/// Recording an event and moving on is what it says.
proof fn lemma_notes_and_moves(stats: StatsView, event: Seq<char>, id: u64, now: nat)
    ensures
        notes_and_moves(
            stats,
            stats.with_event(event, now).in_state(id, "full"@),
            event,
            id,
            now,
        ),
{
    count_laws::lemma_notes(stats, event, now);
    count_laws::lemma_moves(stats.with_event(event, now), id, "full"@);
    assert(count_laws::notes(stats, stats.with_event(event, now), event, now));
}

/// A resource is split exactly where that is wanted, its server serves ranges of it and it has at
/// least two bytes. It is then covered by the two parts.
pub proof fn resources_are_split_where_possible(
    state: &mut ProxyState,
    connection: &ConnectionContext,
    url: &str,
    outcome: Result<ServerInfo, String>,
    request_headers: &HeaderMap,
    now: Duration,
    step: GetStep,
)
    requires
        call_ensures(
            continue_get,
            (state, connection, url, outcome, request_headers, now),
            step,
        ),
        stats::is_kept(old(state).stats@),
    ensures
        same_setup(*old(state), *final(state)),
        step is Split <==> old(state).options.range_split_enabled && outcome is Ok
            && outcome->Ok_0.accepts_ranges && outcome->Ok_0.content_length is Some
            && outcome->Ok_0.content_length->0 > 1,
        step is Split ==> covers(
            step,
            outcome->Ok_0.final_url@,
            outcome->Ok_0.content_length->0,
        ) && takes_up_and_notes(
            old(state).stats@,
            final(state).stats@,
            *connection,
            url@,
            "GET #"@ + text::decimal(connection.id as nat) + " "@ + url@ + " range split started"@,
            now@,
        ),
        !(step is Split) ==> step is Full,
{
    if step is Split {
        lemma_covers(
            step,
            outcome->Ok_0.final_url@,
            outcome->Ok_0.content_length->0,
            fields::header_contents(*request_headers),
        );
        lemma_takes_up_and_notes(
            old(state).stats@,
            *connection,
            url@,
            "GET #"@ + text::decimal(connection.id as nat) + " "@ + url@ + " range split started"@,
            now@,
        );
    }
}

/// A resource that is not split is fetched as a whole over the interface of the connection: from
/// where its server said it is, or where the server could not be asked, from the address in the
/// request. Why it was not split although that was wanted is recorded.
pub proof fn unsplit_resources_are_fetched_whole(
    state: &mut ProxyState,
    connection: &ConnectionContext,
    url: &str,
    outcome: Result<ServerInfo, String>,
    request_headers: &HeaderMap,
    now: Duration,
    step: GetStep,
    sent: HeaderMap,
)
    requires
        call_ensures(
            continue_get,
            (state, connection, url, outcome, request_headers, now),
            step,
        ),
        call_ensures(upstream_headers, (request_headers, false), sent),
        step is Full,
    ensures
        match outcome {
            Ok(info) => {
                &&& goes_out(
                    step->full.request,
                    connection.nic_index,
                    "GET"@,
                    info.final_url@,
                    sent,
                )
                &&& step->full.info == Some(info)
                &&& step->full.note is None
                &&& old(state).options.range_split_enabled ==> notes_and_moves(
                    old(state).stats@,
                    final(state).stats@,
                    "GET #"@ + text::decimal(connection.id as nat) + " "@
                        + "range split not possible, falling back to single NIC"@,
                    connection.id,
                    now@,
                )
                &&& !old(state).options.range_split_enabled ==> count_laws::moves(
                    old(state).stats@,
                    final(state).stats@,
                    connection.id,
                    "full"@,
                )
            },
            Err(error) => {
                let why = "HEAD failed ("@ + error@ + "), falling back to single NIC"@;
                &&& goes_out(step->full.request, connection.nic_index, "GET"@, url@, sent)
                &&& step->full.info is None
                &&& step->full.note is Some && step->full.note->0@ == why
                &&& notes_and_moves(
                    old(state).stats@,
                    final(state).stats@,
                    "GET #"@ + text::decimal(connection.id as nat) + " "@ + why,
                    connection.id,
                    now@,
                )
            },
        },
{
    let before = old(state).stats@;
    let front = "GET #"@ + text::decimal(connection.id as nat) + " "@;
    lemma_notes_and_moves(
        before,
        front + "range split not possible, falling back to single NIC"@,
        connection.id,
        now@,
    );
    count_laws::lemma_moves(before, connection.id, "full"@);
    if let Err(error) = outcome {
        let why = "HEAD failed ("@ + error@ + "), falling back to single NIC"@;
        lemma_notes_and_moves(before, front + why, connection.id, now@);
    }
}

/// The body of a reply is counted for the connection that made the request and for the interface
/// over which the request went, piece by piece.
pub proof fn bodies_are_counted_where_they_come_in(
    connection: &ConnectionContext,
    request: &UpstreamRequest,
    expected: Reception,
    stats: &mut SharedStats,
    reception: &mut Reception,
    piece: &Bytes,
)
    requires
        call_ensures(expect_body, (connection, request), expected),
        old(reception).id == expected.id,
        old(reception).nic_index == expected.nic_index,
        call_ensures(receive_piece, (stats, reception, piece), ()),
        stats::is_kept(old(stats)@),
        request.nic_index < 2,
        handler::can_receive_piece(old(stats)@, *old(reception), *piece),
        body::bytes_contents(*piece).len() <= u64::MAX,
    ensures
        expected.body@.len() == 0,
        count_laws::counts(
            old(stats)@,
            final(stats)@,
            connection.id,
            request.nic_index,
            0,
            body::bytes_contents(*piece).len(),
        ),
        final(reception).id == old(reception).id,
        final(reception).nic_index == old(reception).nic_index,
        final(reception).body@.len() == old(reception).body@.len() + body::bytes_contents(
            *piece,
        ).len(),
        final(reception).body@.take(old(reception).body@.len() as int) == old(reception).body@,
        final(reception).body@.skip(old(reception).body@.len() as int) == body::bytes_contents(
            *piece,
        ),
{
    count_laws::lemma_counts(
        old(stats)@,
        connection.id,
        request.nic_index,
        body::bytes_contents(*piece).len() as u64,
    );
    assert(final(reception).body@.take(old(reception).body@.len() as int) =~= old(
        reception,
    ).body@);
    assert(final(reception).body@.skip(old(reception).body@.len() as int)
        =~= body::bytes_contents(*piece));
}

/// A piece is taken in where the body has room for it and its bytes can be counted.
pub proof fn pieces_are_taken_in_while_there_is_room(
    stats: &SharedStats,
    reception: &Reception,
    piece: &Bytes,
    accepts: bool,
    fits: bool,
    counted: bool,
)
    requires
        call_ensures(accepts_piece, (stats, reception, piece), accepts),
        call_ensures(
            crate::body::BodyCollector::accepts,
            (&reception.body, piece),
            fits,
        ),
        call_ensures(
            SharedStats::accepts_rx,
            (
                stats,
                reception.id,
                reception.nic_index,
                body::bytes_contents(*piece).len() as u64,
            ),
            counted,
        ),
    ensures
        accepts == (fits && counted),
{
}

/// Two halves that came are answered as the whole resource: with success, the fields of the first
/// half, and the bytes of the first half followed by those of the second. The connection is over.
pub proof fn halves_are_answered_as_one(
    state: &mut ProxyState,
    connection: &ConnectionContext,
    size: u64,
    first: ChunkResult,
    second: ChunkResult,
    now: Duration,
    response: ProxyResponse,
    headers: HeaderMap,
    chunks: [Chunk; 2],
    ends: (String, String),
    times: (String, String),
)
    requires
        call_ensures(
            finish_range_get,
            (
                state,
                connection,
                size,
                Ok::<ChunkResult, String>(first),
                Ok::<ChunkResult, String>(second),
                now,
            ),
            response,
        ),
        call_ensures(response_headers, (&first.headers, size), headers),
        call_ensures(split_in_half, (size,), chunks),
        call_ensures(range_text, (chunks[0],), ends.0),
        call_ensures(range_text, (chunks[1],), ends.1),
        call_ensures(seconds_text, (&first.duration,), times.0),
        call_ensures(seconds_text, (&second.duration,), times.1),
    ensures
        same_setup(*old(state), *final(state)),
        response.status == 200,
        fields::header_contents(response.headers) == fields::header_contents(headers),
        ({
            let one = body::bytes_contents(first.bytes);
            let all = body::bytes_contents(response.body);
            &&& all.len() == one.len() + body::bytes_contents(second.bytes).len()
            &&& all.take(one.len() as int) == one
            &&& all.skip(one.len() as int) == body::bytes_contents(second.bytes)
        }),
        count_laws::notes_and_ends(
            old(state).stats@,
            final(state).stats@,
            "GET #"@ + text::decimal(connection.id as nat) + " "@
                + "range split completed: NIC[0] "@ + ends.0@ + " in "@ + times.0@ + "s, NIC[1] "@
                + ends.1@ + " in "@ + times.1@ + "s"@,
            connection.id,
            "closed"@,
            now@,
        ),
{
    let one = body::bytes_contents(first.bytes);
    let all = body::bytes_contents(response.body);
    assert(all.take(one.len() as int) =~= one);
    assert(all.skip(one.len() as int) =~= body::bytes_contents(second.bytes));
    let event = "GET #"@ + text::decimal(connection.id as nat) + " "@
        + "range split completed: NIC[0] "@ + ends.0@ + " in "@ + times.0@ + "s, NIC[1] "@ + ends.1@
        + " in "@ + times.1@ + "s"@;
    assert(event =~= handler::split_event(
        connection.id,
        size,
        first.duration@,
        second.duration@,
    ));
    count_laws::lemma_notes_and_ends(old(state).stats@, event, connection.id, "closed"@, now@);
}

/// Where one of the halves did not come the client is told why, as a failure of the server, and the
/// failure is recorded with the interface of that half, the first one where both did not come.
pub proof fn missing_halves_are_answered_with_their_error(
    state: &mut ProxyState,
    connection: &ConnectionContext,
    size: u64,
    first: Result<ChunkResult, String>,
    second: Result<ChunkResult, String>,
    now: Duration,
    response: ProxyResponse,
)
    requires
        call_ensures(
            finish_range_get,
            (state, connection, size, first, second, now),
            response,
        ),
        first is Err || second is Err,
        stats::is_kept(old(state).stats@),
        old(state).stats@.can_fail(connection.id),
    ensures
        same_setup(*old(state), *final(state)),
        ({
            let error = if first is Err {
                first->Err_0@
            } else {
                second->Err_0@
            };
            let ip = if first is Err {
                old(state).config.nics@[0].ip
            } else {
                old(state).config.nics@[1].ip
            };
            &&& reply_laws::tells_error(response, 502, "502 Bad Gateway"@, error)
            &&& count_laws::fails(
                old(state).stats@,
                final(state).stats@,
                connection.id,
                "range GET via NIC "@ + ip.dotted() + " failed: "@ + error,
                now@,
            )
        }),
{
    let error = if first is Err {
        first->Err_0@
    } else {
        second->Err_0@
    };
    let ip = if first is Err {
        old(state).config.nics@[0].ip
    } else {
        old(state).config.nics@[1].ip
    };
    reply_laws::lemma_tells_error(response, 502, error);
    count_laws::lemma_fails(
        old(state).stats@,
        connection.id,
        "range GET via NIC "@ + ip.dotted() + " failed: "@ + error,
        now@,
    );
}

/// Whether a client is answered with a server's status and body, and with the given fields. What is
/// no status code is answered as a failure of the server.
pub open spec fn hands_back(
    response: ProxyResponse,
    result: TransferResult,
    headers: HeaderMap,
) -> bool {
    &&& response.status == if 100 <= result.status <= 999 {
        result.status
    } else {
        502
    }
    &&& fields::header_contents(response.headers) == fields::header_contents(headers)
    &&& body::bytes_contents(response.body) == body::bytes_contents(result.bytes)
}

/// A whole resource that came is handed back to the client, with the fields that are passed back.
/// The connection is over.
pub proof fn whole_resources_are_handed_back(
    state: &mut ProxyState,
    connection: &ConnectionContext,
    info: &Option<ServerInfo>,
    note: &str,
    result: TransferResult,
    now: Duration,
    response: ProxyResponse,
    headers: HeaderMap,
    time: String,
)
    requires
        call_ensures(
            complete_full_get,
            (state, connection, info, note, Ok::<TransferResult, String>(result), now),
            response,
        ),
        call_ensures(
            response_headers,
            (&result.headers, body::bytes_contents(result.bytes).len() as u64),
            headers,
        ),
        call_ensures(seconds_text, (&result.duration,), time),
    ensures
        same_setup(*old(state), *final(state)),
        hands_back(response, result, headers),
        count_laws::notes_and_ends(
            old(state).stats@,
            final(state).stats@,
            "GET #"@ + text::decimal(connection.id as nat) + " "@ + "completed via NIC "@ + old(
                state,
            ).config.nics@[connection.nic_index as int].ip.dotted() + " size "@ + match *info {
                Some(info) => match info.content_length {
                    Some(length) => "Some("@ + text::decimal(length as nat) + ")"@,
                    None => "None"@,
                },
                None => "None"@,
            } + " range "@ + if *info is Some && (*info)->0.accepts_ranges {
                "yes (no split)"@
            } else {
                "no"@
            } + " note "@ + note@ + " in "@ + time@ + "s"@,
            connection.id,
            "closed"@,
            now@,
        ),
{
    let ip = old(state).config.nics@[connection.nic_index as int].ip;
    let event = "GET #"@ + text::decimal(connection.id as nat) + " "@ + "completed via NIC "@
        + ip.dotted() + " size "@ + match *info {
        Some(info) => match info.content_length {
            Some(length) => "Some("@ + text::decimal(length as nat) + ")"@,
            None => "None"@,
        },
        None => "None"@,
    } + " range "@ + if *info is Some && (*info)->0.accepts_ranges {
        "yes (no split)"@
    } else {
        "no"@
    } + " note "@ + note@ + " in "@ + time@ + "s"@;
    assert(event == handler::full_event(connection.id, ip, *info, note@, result.duration@));
    count_laws::lemma_notes_and_ends(old(state).stats@, event, connection.id, "closed"@, now@);
}

/// A whole resource that did not come is told as a failure of the server.
pub proof fn missing_resources_are_answered_with_their_error(
    state: &mut ProxyState,
    connection: &ConnectionContext,
    info: &Option<ServerInfo>,
    note: &str,
    error: String,
    now: Duration,
    response: ProxyResponse,
)
    requires
        call_ensures(
            complete_full_get,
            (state, connection, info, note, Err::<TransferResult, String>(error), now),
            response,
        ),
        stats::is_kept(old(state).stats@),
        old(state).stats@.can_fail(connection.id),
    ensures
        same_setup(*old(state), *final(state)),
        reply_laws::tells_error(response, 502, "502 Bad Gateway"@, error@),
        count_laws::fails(
            old(state).stats@,
            final(state).stats@,
            connection.id,
            error@,
            now@,
        ),
{
    reply_laws::lemma_tells_error(response, 502, error@);
    count_laws::lemma_fails(old(state).stats@, connection.id, error@, now@);
}

/// The note on a whole resource is only recorded: the client is answered the same, and the same is
/// counted, as with the form of the note given.
pub proof fn notes_are_only_recorded(
    state: &mut ProxyState,
    other: &mut ProxyState,
    connection: &ConnectionContext,
    info: &Option<ServerInfo>,
    note: &Option<String>,
    form: &str,
    outcome: Result<TransferResult, String>,
    now: Duration,
    response: ProxyResponse,
    answer: ProxyResponse,
)
    requires
        call_ensures(
            finish_full_get,
            (state, connection, info, note, outcome, now),
            response,
        ),
        call_ensures(
            complete_full_get,
            (other, connection, info, form, outcome, now),
            answer,
        ),
        *old(other) == *old(state),
        form@ == match *note {
            Some(note) => "Some("@ + handler::quoted_form(note@) + ")"@,
            None => "None"@,
        },
    ensures
        final(state).stats@ == final(other).stats@,
        response.status == answer.status,
        fields::header_contents(response.headers) == fields::header_contents(answer.headers),
        body::bytes_contents(response.body) == body::bytes_contents(answer.body),
        same_setup(*old(state), *final(state)),
{
}

/// A tunnel is made to the target of the request, from the address of the interface of the
/// connection. Without a target the client is answered with 400.
pub proof fn tunnels_are_made_from_the_assigned_interface(
    state: &mut ProxyState,
    connection: &ConnectionContext,
    authority: Option<&str>,
    now: Duration,
    step: ConnectStep,
)
    requires
        call_ensures(handle_connect, (state, connection, authority, now), step),
        stats::is_kept(old(state).stats@),
        authority is None ==> old(state).stats@.can_fail(connection.id),
    ensures
        same_setup(*old(state), *final(state)),
        match authority {
            None => {
                &&& step is Answer
                &&& reply_laws::tells_error(
                    step->response,
                    400,
                    "400 Bad Request"@,
                    "CONNECT request missing authority"@,
                )
                &&& count_laws::fails(
                    old(state).stats@,
                    final(state).stats@,
                    connection.id,
                    "CONNECT request missing authority"@,
                    now@,
                )
            },
            Some(target) => {
                &&& step is Dial
                &&& step->target@ == target@
                &&& step->local_ip == old(state).config.nics@[connection.nic_index as int].ip
                &&& count_laws::takes_up(
                    old(state).stats@,
                    final(state).stats@,
                    connection.id,
                    connection.nic_index,
                    "CONNECT"@,
                    target@,
                    "connecting"@,
                    now@,
                )
            },
        },
{
    let before = old(state).stats@;
    match authority {
        None => {
            let error = "CONNECT request missing authority"@;
            reply_laws::lemma_tells_error(step->response, 400, error);
            count_laws::lemma_fails(before, connection.id, error, now@);
        },
        Some(target) => {
            count_laws::lemma_takes_up(
                before,
                connection.id,
                connection.nic_index,
                "CONNECT"@,
                target@,
                "connecting"@,
                now@,
            );
        },
    }
}

/// A client whose tunnel was made is answered with success, without fields and without a body. One
/// whose tunnel could not be made is told why, as a failure of the server.
pub proof fn tunnels_open_with_success(
    state: &mut ProxyState,
    connection: &ConnectionContext,
    target: &str,
    dialed: Result<(), String>,
    now: Duration,
    response: ProxyResponse,
)
    requires
        call_ensures(finish_connect, (state, connection, target, dialed, now), response),
        stats::is_kept(old(state).stats@),
        dialed is Err ==> old(state).stats@.can_fail(connection.id),
    ensures
        same_setup(*old(state), *final(state)),
        match dialed {
            Ok(_) => {
                &&& response.status == 200
                &&& fields::header_contents(response.headers).dom() =~= Set::empty()
                &&& body::bytes_contents(response.body).len() == 0
                &&& count_laws::takes_up(
                    old(state).stats@,
                    final(state).stats@,
                    connection.id,
                    connection.nic_index,
                    "CONNECT"@,
                    target@,
                    "open"@,
                    now@,
                )
            },
            Err(error) => {
                &&& reply_laws::tells_error(response, 502, "502 Bad Gateway"@, error@)
                &&& count_laws::fails(
                    old(state).stats@,
                    final(state).stats@,
                    connection.id,
                    error@,
                    now@,
                )
            },
        },
{
    let before = old(state).stats@;
    match dialed {
        Ok(_) => {
            count_laws::lemma_takes_up(
                before,
                connection.id,
                connection.nic_index,
                "CONNECT"@,
                target@,
                "open"@,
                now@,
            );
        },
        Err(error) => {
            reply_laws::lemma_tells_error(response, 502, error@);
            count_laws::lemma_fails(before, connection.id, error@, now@);
        },
    }
}

/// A tunnel that came to its end without a fault is closed. One that failed, or never became a
/// tunnel, is counted as a failure with its cause.
pub proof fn tunnels_end_as_they_went(
    state: &mut ProxyState,
    connection: &ConnectionContext,
    end: &TunnelEnd,
    now: Duration,
)
    requires
        call_ensures(tunnel_ended, (state, connection, end, now), ()),
        stats::is_kept(old(state).stats@),
        old(state).stats@.can_fail(connection.id),
    ensures
        same_setup(*old(state), *final(state)),
        ({
            let before = old(state).stats@;
            let after = final(state).stats@;
            let id = connection.id;
            match *end {
                TunnelEnd::NotUpgraded { error } => count_laws::fails(
                    before,
                    after,
                    id,
                    "upgrade failed: "@ + error@,
                    now@,
                ),
                TunnelEnd::Relayed { upstream, downstream } => {
                    let failed = if upstream is Failed {
                        upstream
                    } else {
                        downstream
                    };
                    match failed {
                        CopyPhase::Failed { fault } => count_laws::fails(
                            before,
                            after,
                            id,
                            if fault is Read {
                                "tunnel read failed"@
                            } else if fault is Write {
                                "tunnel write failed"@
                            } else {
                                "tunnel shutdown failed"@
                            },
                            now@,
                        ),
                        _ => count_laws::ends(before, after, id, "closed"@, now@),
                    }
                },
            }
        }),
{
    let before = old(state).stats@;
    count_laws::lemma_ends(before, connection.id, "closed"@, now@);
    if let Some(error) = end.fault() {
        count_laws::lemma_fails(before, connection.id, error, now@);
    }
}

/// Any other request for an absolute address is taken up over the interface of the connection, and
/// its body is read. Others are answered with 400.
pub proof fn other_requests_are_taken_up(
    state: &mut ProxyState,
    connection: &ConnectionContext,
    method: &str,
    uri: &RequestUri,
    now: Duration,
    step: PassthroughStep,
    url: Result<String, String>,
)
    requires
        call_ensures(handle_passthrough, (state, connection, method, uri, now), step),
        call_ensures(absolute_http_url, (uri,), url),
        stats::is_kept(old(state).stats@),
        url is Err ==> old(state).stats@.can_fail(connection.id),
    ensures
        same_setup(*old(state), *final(state)),
        match url {
            Err(error) => {
                &&& step is Answer
                &&& reply_laws::tells_error(step->response, 400, "400 Bad Request"@, error@)
                &&& count_laws::fails(
                    old(state).stats@,
                    final(state).stats@,
                    connection.id,
                    error@,
                    now@,
                )
            },
            Ok(url) => {
                &&& step is ReadBody
                &&& step->url@ == url@
                &&& count_laws::takes_up(
                    old(state).stats@,
                    final(state).stats@,
                    connection.id,
                    connection.nic_index,
                    method@,
                    url@,
                    "request"@,
                    now@,
                )
            },
        },
{
    let before = old(state).stats@;
    match url {
        Err(error) => {
            reply_laws::lemma_tells_error(step->response, 400, error@);
            count_laws::lemma_fails(before, connection.id, error@, now@);
        },
        Ok(url) => {
            count_laws::lemma_takes_up(
                before,
                connection.id,
                connection.nic_index,
                method@,
                url@,
                "request"@,
                now@,
            );
        },
    }
}

/// A request whose body was read goes out over the interface of the connection, with its method,
/// its fields and its body, and the bytes of the body are counted as sent. A body that could not be
/// read and a method that is none are answered with 400.
pub proof fn other_requests_go_out_as_they_are(
    state: &mut ProxyState,
    connection: &ConnectionContext,
    method: &str,
    url: &str,
    request_headers: &HeaderMap,
    body: Result<Bytes, String>,
    now: Duration,
    step: PassthroughStep,
    sent: HeaderMap,
)
    requires
        call_ensures(
            continue_passthrough,
            (state, connection, method, url, request_headers, body, now),
            step,
        ),
        call_ensures(upstream_headers, (request_headers, false), sent),
        stats::is_kept(old(state).stats@),
        connection.nic_index < 2,
        old(state).stats@.can_fail(connection.id),
        body is Ok ==> body::bytes_contents(body->Ok_0).len() <= u64::MAX && old(
            state,
        ).stats@.can_send(
            connection.id,
            connection.nic_index,
            body::bytes_contents(body->Ok_0).len() as u64,
        ),
    ensures
        same_setup(*old(state), *final(state)),
        match body {
            Err(error) => {
                let cause = "failed to read request body: "@ + error@;
                &&& step is Answer
                &&& reply_laws::tells_error(step->response, 400, "400 Bad Request"@, cause)
                &&& count_laws::fails(
                    old(state).stats@,
                    final(state).stats@,
                    connection.id,
                    cause,
                    now@,
                )
            },
            Ok(body) => if is_token(method@) {
                &&& step is Send
                &&& step->request.nic_index == connection.nic_index
                &&& step->request.method@ == method@
                &&& step->request.url@ == url@
                &&& fields::header_contents(step->request.headers) == fields::header_contents(sent)
                &&& step->request.body is None <==> body::bytes_contents(body).len() == 0
                &&& step->request.body is Some ==> body::bytes_contents(step->request.body->0)
                    == body::bytes_contents(body)
                &&& count_laws::counts(
                    old(state).stats@,
                    final(state).stats@,
                    connection.id,
                    connection.nic_index,
                    body::bytes_contents(body).len(),
                    0,
                )
            } else {
                let cause = "unsupported method "@ + method@ + ": invalid HTTP method"@;
                &&& step is Answer
                &&& reply_laws::tells_error(step->response, 400, "400 Bad Request"@, cause)
                &&& count_laws::fails(
                    old(state).stats@,
                    final(state).stats@,
                    connection.id,
                    cause,
                    now@,
                )
            },
        },
{
    let before = old(state).stats@;
    lemma_token(method@);
    if let Some(error) = handler::request_fault(method@, body) {
        reply_laws::lemma_tells_error(step->response, 400, error);
        count_laws::lemma_fails(before, connection.id, error, now@);
    }
    if let Ok(body) = body {
        count_laws::lemma_counts(
            before,
            connection.id,
            connection.nic_index,
            body::bytes_contents(body).len() as u64,
        );
    }
}

/// Whether a text is a token: letters, digits and the marks that may stand in one.
pub open spec fn is_token(text: Seq<char>) -> bool {
    text.len() > 0 && forall|i: int| 0 <= i < text.len() ==> is_token_char(#[trigger] text[i])
}

/// Whether a character may stand in a token.
pub open spec fn is_token_char(ch: char) -> bool {
    ||| 'a' <= ch && ch <= 'z'
    ||| 'A' <= ch && ch <= 'Z'
    ||| '0' <= ch && ch <= '9'
    ||| "!#$%&'*+-.^_`|~"@.contains(ch)
}

/// The names of methods are the tokens.
proof fn lemma_token(name: Seq<char>)
    ensures
        handler::is_method_name(name) == is_token(name),
{
    let marks = "!#$%&'*+-.^_`|~"@;
    reveal_strlit("!#$%&'*+-.^_`|~");
    assert(marks.len() == 15);
    assert forall|ch: char| #[trigger] handler::is_method_char(ch) == is_token_char(ch) by {
        if marks.contains(ch) {
            let i = marks.index_of(ch);
            assert(0 <= i < 15);
            assert(marks[i] == ch);
        }
        if handler::is_method_char(ch) && !is_token_char(ch) {
            assert(marks[0] == '!' && marks[1] == '#' && marks[2] == '$' && marks[3] == '%');
            assert(marks[4] == '&' && marks[5] == '\'' && marks[6] == '*' && marks[7] == '+');
            assert(marks[8] == '-' && marks[9] == '.' && marks[10] == '^' && marks[11] == '_');
            assert(marks[12] == '`' && marks[13] == '|' && marks[14] == '~');
        }
    }
    if handler::is_method_name(name) {
        assert forall|i: int| 0 <= i < name.len() implies is_token_char(#[trigger] name[i]) by {
            assert(handler::is_method_char(name[i]));
        }
    }
    if is_token(name) {
        assert forall|i: int| 0 <= i < name.len() implies handler::is_method_char(
            #[trigger] name[i],
        ) by {
            assert(is_token_char(name[i]));
            assert(handler::is_method_char(name[i]) == is_token_char(name[i]));
        }
    }
}

/// A reply to any other request is handed back as it is, with the fields that other replies keep,
/// where the length of what a `HEAD` request asks about is left as it is. The connection is over.
pub proof fn other_replies_are_handed_back(
    state: &mut ProxyState,
    connection: &ConnectionContext,
    method: &str,
    result: TransferResult,
    now: Duration,
    response: ProxyResponse,
    headers: HeaderMap,
    time: String,
)
    requires
        call_ensures(
            finish_passthrough,
            (state, connection, method, Ok::<TransferResult, String>(result), now),
            response,
        ),
        call_ensures(
            reply_headers,
            (
                &result.headers,
                method@ == "HEAD"@,
                body::bytes_contents(result.bytes).len() as u64,
            ),
            headers,
        ),
        call_ensures(seconds_text, (&result.duration,), time),
    ensures
        same_setup(*old(state), *final(state)),
        hands_back(response, result, headers),
        count_laws::notes_and_ends(
            old(state).stats@,
            final(state).stats@,
            method@ + " #"@ + text::decimal(connection.id as nat) + " completed via NIC "@ + old(
                state,
            ).config.nics@[connection.nic_index as int].ip.dotted() + " in "@ + time@ + "s"@,
            connection.id,
            "closed"@,
            now@,
        ),
{
    let event = method@ + " #"@ + text::decimal(connection.id as nat) + " completed via NIC "@
        + old(state).config.nics@[connection.nic_index as int].ip.dotted() + " in "@ + time@
        + "s"@;
    count_laws::lemma_notes_and_ends(old(state).stats@, event, connection.id, "closed"@, now@);
}

/// A reply to any other request that did not come is told as a failure of the server.
pub proof fn missing_replies_are_answered_with_their_error(
    state: &mut ProxyState,
    connection: &ConnectionContext,
    method: &str,
    error: String,
    now: Duration,
    response: ProxyResponse,
)
    requires
        call_ensures(
            finish_passthrough,
            (state, connection, method, Err::<TransferResult, String>(error), now),
            response,
        ),
        stats::is_kept(old(state).stats@),
        old(state).stats@.can_fail(connection.id),
    ensures
        same_setup(*old(state), *final(state)),
        reply_laws::tells_error(response, 502, "502 Bad Gateway"@, error@),
        count_laws::fails(
            old(state).stats@,
            final(state).stats@,
            connection.id,
            error@,
            now@,
        ),
{
    reply_laws::lemma_tells_error(response, 502, error@);
    count_laws::lemma_fails(old(state).stats@, connection.id, error@, now@);
}

} // verus!
