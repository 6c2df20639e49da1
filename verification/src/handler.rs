//! What the proxy does with a request.
//!
//! Handling a request takes several steps, with work outside of the library between them: a
//! request to a server, the reading of a body. Each step takes in how that work went, keeps the
//! statistics, and says what is to be done next or what the client is answered.

use bytes::Bytes;
use hyper::{HeaderMap, Method};
use vstd::prelude::*;

use crate::body;
use crate::body::{bytes_len, empty_bytes, join_bodies, BodyCollector};
use crate::chunk;
use crate::chunk::split_in_half;
use crate::clock::Duration;
use crate::fields;
use crate::fields::new_headers;
use crate::http;
use crate::http::{
    get_full, get_range, head, range_text, reply_headers, request_with_body, response_headers,
    ChunkResult, ServerInfo, TransferResult, UpstreamRequest,
};
use crate::net::Ipv4Addr;
use crate::proxy::{ConnectionContext, ProxyState};
use crate::rate;
use crate::rate::seconds_text;
use crate::response;
use crate::response::{error_response, response_with_headers, ProxyResponse};
use crate::stats::{SharedStats, StatsView};
use crate::status;
use crate::status::{status_from_reqwest, BAD_GATEWAY, BAD_REQUEST, OK};
use crate::text;
use crate::text::{decimal_text, same_text};
use crate::tunnel;
use crate::tunnel::{relay_tunnel, TunnelEnd};

verus! {

/// How a request is handled.
#[derive(Debug, Clone, Copy, PartialEq, Eq, Structural)]
pub enum Route {
    Connect,
    Get,
    Passthrough,
}

/// How requests with the given method are handled.
pub open spec fn route_of(method: Seq<char>) -> Route {
    if method == "CONNECT"@ {
        Route::Connect
    } else if method == "GET"@ {
        Route::Get
    } else {
        Route::Passthrough
    }
}

/// Decides how a request with the given method is handled.
pub fn route(method: &str) -> (route: Route)
    ensures
        route == route_of(method@),
{
    if same_text(method, "CONNECT") {
        Route::Connect
    } else if same_text(method, "GET") {
        Route::Get
    } else {
        Route::Passthrough
    }
}

/// The address in a request: its scheme and its authority, where it has them, and its text.
#[derive(Debug)]
pub struct RequestUri {
    pub scheme: Option<String>,
    pub authority: Option<String>,
    pub text: String,
}

impl RequestUri {
    /// Why the address is no absolute HTTP address, if it is none.
    pub open spec fn fault(self) -> Option<Seq<char>> {
        if !(self.scheme is Some && self.scheme->0@ == "http"@) {
            Some("only absolute HTTP URLs are supported: "@ + self.text@)
        } else if self.authority is None {
            Some("request URI is missing authority: "@ + self.text@)
        } else {
            None
        }
    }
}

/// The text of an absolute HTTP address.
pub fn absolute_http_url(uri: &RequestUri) -> (url: Result<String, String>)
    ensures
        match url {
            Ok(url) => uri.fault() is None && url@ == uri.text@,
            Err(error) => uri.fault() == Some(error@),
        },
{
    let http = match &uri.scheme {
        Some(scheme) => same_text(scheme.as_str(), "http"),
        None => false,
    };
    if !http {
        let mut error = "only absolute HTTP URLs are supported: ".to_owned();
        error.append(uri.text.as_str());
        return Err(error);
    }
    if uri.authority.is_none() {
        let mut error = "request URI is missing authority: ".to_owned();
        error.append(uri.text.as_str());
        return Err(error);
    }
    Ok(uri.text.clone())
}

/// Whether the connection was assigned one of the two interfaces that the proxy runs with.
pub open spec fn is_assigned(state: ProxyState, connection: ConnectionContext) -> bool {
    state.config.is_valid() && connection.nic_index < 2
}

/// Whether nothing but the statistics differs.
pub open spec fn keeps_setup(before: ProxyState, after: ProxyState) -> bool {
    &&& after.config == before.config
    &&& after.options == before.options
    &&& after.turns == before.turns
}

/// A whole resource that is to be fetched: what is known of it, why it is not split although that
/// was tried, and the request.
#[derive(Debug)]
pub struct FullGet {
    pub info: Option<ServerInfo>,
    pub note: Option<String>,
    pub request: UpstreamRequest,
}

/// A resource of `size` bytes that is to be fetched in two halves.
#[derive(Debug)]
pub struct SplitGet {
    pub size: u64,
    pub first: UpstreamRequest,
    pub second: UpstreamRequest,
}

/// What is to be done next for a `GET` request.
#[derive(Debug)]
pub enum GetStep {
    /// The client is answered.
    Answer { response: ProxyResponse },
    /// The server is asked about the resource.
    Head { url: String, request: UpstreamRequest },
    /// The whole resource is fetched.
    Full { full: FullGet },
    /// The two halves of the resource are fetched side by side.
    Split { split: SplitGet },
}

/// Whether a resource can be fetched in two halves.
pub open spec fn is_splittable(info: ServerInfo) -> bool {
    &&& info.accepts_ranges
    &&& info.content_length is Some
    &&& info.content_length->0 >= 2
}

/// Whether a step fetches the whole of `url` over the given interface for a client that sent the
/// given fields.
pub open spec fn fetches_whole(
    step: GetStep,
    nic_index: usize,
    url: Seq<char>,
    contents: Map<Seq<char>, Seq<(Seq<u8>, bool)>>,
) -> bool {
    step is Full && http::asks(
        step->full.request,
        nic_index,
        "GET"@,
        url,
        http::upstream_contents(contents, false),
    )
}

/// Whether a step fetches the two halves of `url` for a client that sent the given fields, the
/// first half over the first interface and the second half over the second.
pub open spec fn fetches_halves(
    step: GetStep,
    url: Seq<char>,
    size: u64,
    contents: Map<Seq<char>, Seq<(Seq<u8>, bool)>>,
) -> bool {
    &&& step is Split
    &&& step->split.size == size
    &&& http::asks(
        step->split.first,
        0,
        "GET"@,
        url,
        http::range_contents(contents, chunk::first_half(size)),
    )
    &&& http::asks(
        step->split.second,
        1,
        "GET"@,
        url,
        http::range_contents(contents, chunk::second_half(size)),
    )
}

/// Takes up a `GET` request.
pub fn handle_get(
    state: &mut ProxyState,
    connection: &ConnectionContext,
    uri: &RequestUri,
    request_headers: &HeaderMap,
    now: Duration,
) -> (step: GetStep)
    requires
        is_assigned(*old(state), *connection),
        http::has_few_names(*request_headers),
        uri.fault() is Some ==> old(state).stats@.can_fail(connection.id),
    ensures
        keeps_setup(*old(state), *final(state)),
        match uri.fault() {
            Some(error) => {
                &&& step is Answer
                &&& response::reports(step->response, BAD_REQUEST, error)
                &&& final(state).stats@ == old(state).stats@.failed(connection.id, error, now@)
            },
            None => if old(state).options.range_split_enabled {
                &&& step is Head
                &&& step->url@ == uri.text@
                &&& http::asks(
                    step->request,
                    connection.nic_index,
                    "HEAD"@,
                    uri.text@,
                    http::upstream_contents(fields::header_contents(*request_headers), true),
                )
                &&& final(state).stats@ == old(state).stats@.started(
                    connection.id,
                    connection.nic_index,
                    "HTTP GET"@,
                    uri.text@,
                    "head"@,
                    now@,
                )
            } else {
                &&& fetches_whole(
                    step,
                    connection.nic_index,
                    uri.text@,
                    fields::header_contents(*request_headers),
                )
                &&& step->full.info is None
                &&& step->full.note is None
                &&& final(state).stats@ == old(state).stats@.started(
                    connection.id,
                    connection.nic_index,
                    "HTTP GET"@,
                    uri.text@,
                    "full"@,
                    now@,
                )
            },
        },
{
    let url = match absolute_http_url(uri) {
        Ok(url) => url,
        Err(error) => {
            state.stats.fail_connection(connection.id, error.as_str(), now);
            return GetStep::Answer { response: error_response(BAD_REQUEST, error.as_str()) };
        },
    };
    let split = state.options.range_split_enabled;
    state.stats.start_connection(
        connection.id,
        connection.nic_index,
        "HTTP GET",
        url.as_str(),
        if split {
            "head"
        } else {
            "full"
        },
        now,
    );
    if !split {
        let ghost started = state.stats@;
        let step = handle_full_get(state, connection, url.as_str(), None, None, request_headers);
        assert(state.stats@ =~= started);
        return step;
    }
    let request = head(connection.nic_index, url.as_str(), request_headers);
    GetStep::Head { url, request }
}

/// Begins to fetch a whole resource: from where the server said it is, or else from `url`.
pub fn handle_full_get(
    state: &mut ProxyState,
    connection: &ConnectionContext,
    url: &str,
    info: Option<ServerInfo>,
    note: Option<String>,
    request_headers: &HeaderMap,
) -> (step: GetStep)
    requires
        http::has_few_names(*request_headers),
    ensures
        keeps_setup(*old(state), *final(state)),
        final(state).stats@ == old(state).stats@.in_state(connection.id, "full"@),
        fetches_whole(
            step,
            connection.nic_index,
            match info {
                Some(info) => info.final_url@,
                None => url@,
            },
            fields::header_contents(*request_headers),
        ),
        step->full.info == info,
        step->full.note == note,
{
    state.stats.set_state(connection.id, "full");
    let request = match &info {
        Some(info) => get_full(
            connection.nic_index,
            info.final_url.as_str(),
            request_headers,
        ),
        None => get_full(connection.nic_index, url, request_headers),
    };
    GetStep::Full { full: FullGet { info, note, request } }
}

/// What is noted where a resource is not split because the server could not be asked about it.
pub open spec fn fallback_note(error: Seq<char>) -> Seq<char> {
    "HEAD failed ("@ + error + "), falling back to single NIC"@
}

/// What is recorded where a resource is not split because its server serves no ranges of it, or
/// because it is too small.
pub open spec fn unsplit_note() -> Seq<char> {
    "range split not possible, falling back to single NIC"@
}

/// The beginning of an event about a `GET` request.
pub open spec fn get_event(id: u64) -> Seq<char> {
    "GET #"@ + text::decimal(id as nat) + " "@
}

/// Writes the beginning of an event about a `GET` request.
fn get_event_text(id: u64) -> (event: String)
    ensures
        event@ == get_event(id),
{
    let mut event = "GET #".to_owned();
    event.append(decimal_text(id).as_str());
    event.append(" ");
    event
}

/// Begins to fetch the two halves of a resource.
pub fn handle_range_get(
    state: &mut ProxyState,
    connection: &ConnectionContext,
    original_url: &str,
    final_url: &str,
    size: u64,
    request_headers: &HeaderMap,
    now: Duration,
) -> (step: GetStep)
    requires
        size >= 2,
        http::has_few_names(*request_headers),
    ensures
        keeps_setup(*old(state), *final(state)),
        final(state).stats@ == old(state).stats@.started(
            connection.id,
            connection.nic_index,
            "HTTP GET"@,
            original_url@,
            "range"@,
            now@,
        ).with_event(get_event(connection.id) + original_url@ + " range split started"@, now@),
        fetches_halves(step, final_url@, size, fields::header_contents(*request_headers)),
{
    let chunks = split_in_half(size);
    state.stats.start_connection(
        connection.id,
        connection.nic_index,
        "HTTP GET",
        original_url,
        "range",
        now,
    );
    let mut event = get_event_text(connection.id);
    event.append(original_url);
    event.append(" range split started");
    state.stats.record_event(event.as_str(), now);
    let first = get_range(0, final_url, request_headers, chunks[0]);
    let second = get_range(1, final_url, request_headers, chunks[1]);
    GetStep::Split { split: SplitGet { size, first, second } }
}

/// Goes on with a `GET` request for `url` once the server was asked about the resource. Where it
/// could not be asked the whole resource is fetched.
pub fn continue_get(
    state: &mut ProxyState,
    connection: &ConnectionContext,
    url: &str,
    outcome: Result<ServerInfo, String>,
    request_headers: &HeaderMap,
    now: Duration,
) -> (step: GetStep)
    requires
        http::has_few_names(*request_headers),
    ensures
        keeps_setup(*old(state), *final(state)),
        match outcome {
            Err(error) => {
                &&& fetches_whole(
                    step,
                    connection.nic_index,
                    url@,
                    fields::header_contents(*request_headers),
                )
                &&& step->full.info is None
                &&& step->full.note is Some
                &&& step->full.note->0@ == fallback_note(error@)
                &&& final(state).stats@ == old(state).stats@.with_event(
                    get_event(connection.id) + fallback_note(error@),
                    now@,
                ).in_state(connection.id, "full"@)
            },
            Ok(info) => if old(state).options.range_split_enabled && is_splittable(info) {
                &&& fetches_halves(
                    step,
                    info.final_url@,
                    info.content_length->0,
                    fields::header_contents(*request_headers),
                )
                &&& final(state).stats@ == old(state).stats@.started(
                    connection.id,
                    connection.nic_index,
                    "HTTP GET"@,
                    url@,
                    "range"@,
                    now@,
                ).with_event(get_event(connection.id) + url@ + " range split started"@, now@)
            } else {
                &&& fetches_whole(
                    step,
                    connection.nic_index,
                    info.final_url@,
                    fields::header_contents(*request_headers),
                )
                &&& step->full.info == Some(info)
                &&& step->full.note is None
                &&& final(state).stats@ == if old(state).options.range_split_enabled {
                    old(state).stats@.with_event(get_event(connection.id) + unsplit_note(), now@)
                } else {
                    old(state).stats@
                }.in_state(connection.id, "full"@)
            },
        },
{
    match outcome {
        Ok(info) => {
            if state.options.range_split_enabled && info.accepts_ranges {
                if let Some(size) = info.content_length {
                    if size >= 2 {
                        return handle_range_get(
                            state,
                            connection,
                            url,
                            info.final_url.as_str(),
                            size,
                            request_headers,
                            now,
                        );
                    }
                }
            }
            if state.options.range_split_enabled {
                let mut event = get_event_text(connection.id);
                event.append("range split not possible, falling back to single NIC");
                state.stats.record_event(event.as_str(), now);
            }
            handle_full_get(state, connection, url, Some(info), None, request_headers)
        },
        Err(error) => {
            let mut note = "HEAD failed (".to_owned();
            note.append(error.as_str());
            note.append("), falling back to single NIC");
            let mut event = get_event_text(connection.id);
            event.append(note.as_str());
            state.stats.record_event(event.as_str(), now);
            handle_full_get(state, connection, url, None, Some(note), request_headers)
        },
    }
}

/// The body of a reply that arrives: for which connection, over which interface, and what came of
/// it.
pub struct Reception {
    pub id: u64,
    pub nic_index: usize,
    pub body: BodyCollector,
}

/// Prepares for the body of the reply to `request`, which comes over the interface that the
/// request goes over.
pub fn expect_body(connection: &ConnectionContext, request: &UpstreamRequest) -> (reception:
    Reception)
    ensures
        reception.id == connection.id,
        reception.nic_index == request.nic_index,
        reception.body.is_whole(),
        reception.body@ == Seq::<u8>::empty(),
{
    Reception { id: connection.id, nic_index: request.nic_index, body: BodyCollector::new() }
}

/// Whether one more piece can be taken in and counted.
pub open spec fn can_receive_piece(stats: StatsView, reception: Reception, piece: Bytes) -> bool {
    &&& reception.body.has_room(piece)
    &&& stats.can_receive(
        reception.id,
        reception.nic_index,
        body::bytes_contents(piece).len() as u64,
    )
}

/// Whether one more piece can be taken in and counted.
pub fn accepts_piece(stats: &SharedStats, reception: &Reception, piece: &Bytes) -> (accepts: bool)
    ensures
        accepts == can_receive_piece(stats@, *reception, *piece),
{
    reception.body.accepts(piece) && stats.accepts_rx(
        reception.id,
        reception.nic_index,
        bytes_len(piece) as u64,
    )
}

/// Takes in a piece of a body, and counts it at once for the interface over which it came.
pub fn receive_piece(stats: &mut SharedStats, reception: &mut Reception, piece: &Bytes)
    requires
        old(reception).body.is_whole(),
        can_receive_piece(old(stats)@, *old(reception), *piece),
    ensures
        final(reception).id == old(reception).id,
        final(reception).nic_index == old(reception).nic_index,
        final(reception).body.is_whole(),
        final(reception).body@ == old(reception).body@ + body::bytes_contents(*piece),
        final(stats)@ == old(stats)@.received(
            old(reception).id,
            old(reception).nic_index,
            body::bytes_contents(*piece).len() as u64,
        ),
{
    let received: u64 = reception.body.push(piece);
    stats.add_rx(reception.id, reception.nic_index, received);
}

/// What is recorded where the two halves of a resource came, with the time that each took.
pub open spec fn split_event(id: u64, size: u64, first: nat, second: nat) -> Seq<char> {
    get_event(id) + "range split completed: NIC[0] "@ + http::range_ends(chunk::first_half(size))
        + " in "@ + rate::seconds_form(first) + "s, NIC[1] "@ + http::range_ends(
        chunk::second_half(size),
    ) + " in "@ + rate::seconds_form(second) + "s"@
}

/// What is recorded where one of the two halves did not come.
pub open spec fn half_failure(ip: Ipv4Addr, error: Seq<char>) -> Seq<char> {
    "range GET via NIC "@ + ip.dotted() + " failed: "@ + error
}

/// Records that one of the two halves did not come, and answers with the error.
fn fail_half(
    state: &mut ProxyState,
    connection: &ConnectionContext,
    ip: Ipv4Addr,
    error: &str,
    now: Duration,
) -> (response: ProxyResponse)
    requires
        old(state).stats@.can_fail(connection.id),
    ensures
        keeps_setup(*old(state), *final(state)),
        final(state).stats@ == old(state).stats@.failed(
            connection.id,
            half_failure(ip, error@),
            now@,
        ),
        response::reports(response, BAD_GATEWAY, error@),
{
    let mut failure = "range GET via NIC ".to_owned();
    failure.append(ip.to_text().as_str());
    failure.append(" failed: ");
    failure.append(error);
    state.stats.fail_connection(connection.id, failure.as_str(), now);
    error_response(BAD_GATEWAY, error)
}

/// Whether two halves that came can be put together in memory.
pub open spec fn halves_fit(
    size: u64,
    first: Result<ChunkResult, String>,
    second: Result<ChunkResult, String>,
) -> bool {
    first is Ok && second is Ok ==> size <= isize::MAX && body::fit_together(
        first->Ok_0.bytes,
        second->Ok_0.bytes,
    )
}

/// Answers a `GET` request whose resource of `size` bytes was fetched in two halves. Where a half
/// did not come the client gets its error, that of the first one where both did not.
pub fn finish_range_get(
    state: &mut ProxyState,
    connection: &ConnectionContext,
    size: u64,
    first: Result<ChunkResult, String>,
    second: Result<ChunkResult, String>,
    now: Duration,
) -> (response: ProxyResponse)
    requires
        is_assigned(*old(state), *connection),
        size >= 2,
        halves_fit(size, first, second),
        first is Err || second is Err ==> old(state).stats@.can_fail(connection.id),
    ensures
        keeps_setup(*old(state), *final(state)),
        match (first, second) {
            (Ok(first), Ok(second)) => {
                &&& response::answers(
                    response,
                    OK,
                    http::response_contents(fields::header_contents(first.headers), size),
                    body::bytes_contents(first.bytes) + body::bytes_contents(second.bytes),
                )
                &&& final(state).stats@ == old(state).stats@.with_event(
                    split_event(connection.id, size, first.duration@, second.duration@),
                    now@,
                ).finished(connection.id, "closed"@, now@)
            },
            (Err(error), _) => {
                &&& response::reports(response, BAD_GATEWAY, error@)
                &&& final(state).stats@ == old(state).stats@.failed(
                    connection.id,
                    half_failure(old(state).config.nics@[0].ip, error@),
                    now@,
                )
            },
            (Ok(_), Err(error)) => {
                &&& response::reports(response, BAD_GATEWAY, error@)
                &&& final(state).stats@ == old(state).stats@.failed(
                    connection.id,
                    half_failure(old(state).config.nics@[1].ip, error@),
                    now@,
                )
            },
        },
{
    let first = match first {
        Ok(first) => first,
        Err(error) => {
            let ip = state.config.nics[0].ip;
            return fail_half(state, connection, ip, error.as_str(), now);
        },
    };
    let second = match second {
        Ok(second) => second,
        Err(error) => {
            let ip = state.config.nics[1].ip;
            return fail_half(state, connection, ip, error.as_str(), now);
        },
    };
    let chunks = split_in_half(size);
    let body = join_bodies(&first.bytes, &second.bytes, size as usize);
    let headers = response_headers(&first.headers, size);
    let mut event = get_event_text(connection.id);
    event.append("range split completed: NIC[0] ");
    event.append(range_text(chunks[0]).as_str());
    event.append(" in ");
    event.append(seconds_text(&first.duration).as_str());
    event.append("s, NIC[1] ");
    event.append(range_text(chunks[1]).as_str());
    event.append(" in ");
    event.append(seconds_text(&second.duration).as_str());
    event.append("s");
    state.stats.record_event(event.as_str(), now);
    state.stats.finish_connection(connection.id, "closed", now);
    response_with_headers(OK, headers, body)
}

/// A text in quotation marks, with escapes for the characters that need one.
pub uninterp spec fn quoted_form(text: Seq<char>) -> Seq<char>;

/// The `Debug` form of `str`. What it is for any text is only given a name.
#[verifier::external_body]
pub(crate) fn quoted(text: &str) -> (form: String)
    ensures
        form@ == quoted_form(text@),
{
    format!("{text:?}")
}

/// A value that may be missing, as it is recorded in an event.
pub open spec fn optional_form(value: Option<Seq<char>>) -> Seq<char> {
    match value {
        Some(value) => "Some("@ + value + ")"@,
        None => "None"@,
    }
}

/// The length that a server announced, as it is recorded in an event.
pub open spec fn length_form(info: Option<ServerInfo>) -> Seq<char> {
    match info {
        Some(info) => optional_form(
            match info.content_length {
                Some(length) => Some(text::decimal(length as nat)),
                None => None,
            },
        ),
        None => optional_form(None),
    }
}

/// Whether a server serves ranges, as it is recorded in an event about a whole resource.
pub open spec fn range_label(info: Option<ServerInfo>) -> Seq<char> {
    if info is Some && info->0.accepts_ranges {
        "yes (no split)"@
    } else {
        "no"@
    }
}

/// What is recorded where a whole resource came.
pub open spec fn full_event(
    id: u64,
    ip: Ipv4Addr,
    info: Option<ServerInfo>,
    note: Seq<char>,
    duration: nat,
) -> Seq<char> {
    get_event(id) + "completed via NIC "@ + ip.dotted() + " size "@ + length_form(info)
        + " range "@ + range_label(info) + " note "@ + note + " in "@ + rate::seconds_form(
        duration,
    ) + "s"@
}

/// Writes a value that may be missing as it is recorded in an event.
fn optional_text(value: Option<&str>) -> (form: String)
    ensures
        form@ == optional_form(
            match value {
                Some(value) => Some(value@),
                None => None,
            },
        ),
{
    match value {
        Some(value) => {
            let mut form = "Some(".to_owned();
            form.append(value);
            form.append(")");
            form
        },
        None => "None".to_owned(),
    }
}

/// Writes the length that a server announced as it is recorded in an event.
fn length_text(info: &Option<ServerInfo>) -> (form: String)
    ensures
        form@ == length_form(*info),
{
    match info {
        Some(info) => match info.content_length {
            Some(length) => optional_text(Some(decimal_text(length).as_str())),
            None => optional_text(None),
        },
        None => optional_text(None),
    }
}

/// Whether a step answers the client with what the server sent.
pub open spec fn passes_back(response: ProxyResponse, result: TransferResult) -> bool {
    response::answers(
        response,
        if status::is_status(result.status) {
            result.status
        } else {
            BAD_GATEWAY
        },
        http::response_contents(
            fields::header_contents(result.headers),
            body::bytes_contents(result.bytes).len() as u64,
        ),
        body::bytes_contents(result.bytes),
    )
}

/// Answers the client with what the server sent.
fn pass_back(result: TransferResult) -> (response: ProxyResponse)
    ensures
        passes_back(response, result),
{
    let length: u64 = bytes_len(&result.bytes) as u64;
    let headers = response_headers(&result.headers, length);
    response_with_headers(status_from_reqwest(result.status), headers, result.bytes)
}

/// Answers a `GET` request whose resource was fetched as a whole, given the form in which the
/// note is recorded.
pub fn complete_full_get(
    state: &mut ProxyState,
    connection: &ConnectionContext,
    info: &Option<ServerInfo>,
    note: &str,
    outcome: Result<TransferResult, String>,
    now: Duration,
) -> (response: ProxyResponse)
    requires
        is_assigned(*old(state), *connection),
        outcome is Err ==> old(state).stats@.can_fail(connection.id),
    ensures
        keeps_setup(*old(state), *final(state)),
        match outcome {
            Ok(result) => {
                &&& passes_back(response, result)
                &&& final(state).stats@ == old(state).stats@.with_event(
                    full_event(
                        connection.id,
                        old(state).config.nics@[connection.nic_index as int].ip,
                        *info,
                        note@,
                        result.duration@,
                    ),
                    now@,
                ).finished(connection.id, "closed"@, now@)
            },
            Err(error) => {
                &&& response::reports(response, BAD_GATEWAY, error@)
                &&& final(state).stats@ == old(state).stats@.failed(connection.id, error@, now@)
            },
        },
{
    match outcome {
        Ok(result) => {
            let ip = state.config.nics[connection.nic_index].ip;
            let splittable = match info {
                Some(info) => info.accepts_ranges,
                None => false,
            };
            let mut event = get_event_text(connection.id);
            event.append("completed via NIC ");
            event.append(ip.to_text().as_str());
            event.append(" size ");
            event.append(length_text(info).as_str());
            event.append(" range ");
            event.append(
                if splittable {
                    "yes (no split)"
                } else {
                    "no"
                },
            );
            event.append(" note ");
            event.append(note);
            event.append(" in ");
            event.append(seconds_text(&result.duration).as_str());
            event.append("s");
            state.stats.record_event(event.as_str(), now);
            state.stats.finish_connection(connection.id, "closed", now);
            pass_back(result)
        },
        Err(error) => {
            state.stats.fail_connection(connection.id, error.as_str(), now);
            error_response(BAD_GATEWAY, error.as_str())
        },
    }
}

/// The form in which a note is recorded.
pub open spec fn note_form(note: Option<String>) -> Seq<char> {
    optional_form(
        match note {
            Some(note) => Some(quoted_form(note@)),
            None => None,
        },
    )
}

/// Answers a `GET` request whose resource was fetched as a whole.
pub fn finish_full_get(
    state: &mut ProxyState,
    connection: &ConnectionContext,
    info: &Option<ServerInfo>,
    note: &Option<String>,
    outcome: Result<TransferResult, String>,
    now: Duration,
) -> (response: ProxyResponse)
    requires
        is_assigned(*old(state), *connection),
        outcome is Err ==> old(state).stats@.can_fail(connection.id),
    ensures
        keeps_setup(*old(state), *final(state)),
        match outcome {
            Ok(result) => {
                &&& passes_back(response, result)
                &&& final(state).stats@ == old(state).stats@.with_event(
                    full_event(
                        connection.id,
                        old(state).config.nics@[connection.nic_index as int].ip,
                        *info,
                        note_form(*note),
                        result.duration@,
                    ),
                    now@,
                ).finished(connection.id, "closed"@, now@)
            },
            Err(error) => {
                &&& response::reports(response, BAD_GATEWAY, error@)
                &&& final(state).stats@ == old(state).stats@.failed(connection.id, error@, now@)
            },
        },
{
    let form = match note {
        Some(note) => optional_text(Some(quoted(note.as_str()).as_str())),
        None => optional_text(None),
    };
    complete_full_get(state, connection, info, form.as_str(), outcome, now)
}

/// What is to be done next for a `CONNECT` request.
#[derive(Debug)]
pub enum ConnectStep {
    /// The client is answered.
    Answer { response: ProxyResponse },
    /// A connection to the target is made from the address of the assigned interface.
    Dial { target: String, local_ip: Ipv4Addr },
}

/// What is reported where a `CONNECT` request names no target.
pub open spec fn missing_target() -> Seq<char> {
    "CONNECT request missing authority"@
}

/// Takes up a `CONNECT` request for the given authority.
pub fn handle_connect(
    state: &mut ProxyState,
    connection: &ConnectionContext,
    authority: Option<&str>,
    now: Duration,
) -> (step: ConnectStep)
    requires
        is_assigned(*old(state), *connection),
        authority is None ==> old(state).stats@.can_fail(connection.id),
    ensures
        keeps_setup(*old(state), *final(state)),
        match authority {
            None => {
                &&& step is Answer
                &&& response::reports(step->response, BAD_REQUEST, missing_target())
                &&& final(state).stats@ == old(state).stats@.failed(
                    connection.id,
                    missing_target(),
                    now@,
                )
            },
            Some(target) => {
                &&& step is Dial
                &&& step->target@ == target@
                &&& step->local_ip == old(state).config.nics@[connection.nic_index as int].ip
                &&& final(state).stats@ == old(state).stats@.started(
                    connection.id,
                    connection.nic_index,
                    "CONNECT"@,
                    target@,
                    "connecting"@,
                    now@,
                )
            },
        },
{
    match authority {
        None => {
            let error = "CONNECT request missing authority";
            state.stats.fail_connection(connection.id, error, now);
            ConnectStep::Answer { response: error_response(BAD_REQUEST, error) }
        },
        Some(target) => {
            let local_ip = state.config.nics[connection.nic_index].ip;
            state.stats.start_connection(
                connection.id,
                connection.nic_index,
                "CONNECT",
                target,
                "connecting",
                now,
            );
            ConnectStep::Dial { target: target.to_owned(), local_ip }
        },
    }
}

/// Answers a `CONNECT` request once the connection to `target` was made or has failed.
pub fn finish_connect(
    state: &mut ProxyState,
    connection: &ConnectionContext,
    target: &str,
    dialed: Result<(), String>,
    now: Duration,
) -> (response: ProxyResponse)
    requires
        dialed is Err ==> old(state).stats@.can_fail(connection.id),
    ensures
        keeps_setup(*old(state), *final(state)),
        match dialed {
            Ok(_) => {
                &&& response::answers(response, OK, fields::no_fields(), seq![])
                &&& final(state).stats@ == old(state).stats@.started(
                    connection.id,
                    connection.nic_index,
                    "CONNECT"@,
                    target@,
                    "open"@,
                    now@,
                )
            },
            Err(error) => {
                &&& response::reports(response, BAD_GATEWAY, error@)
                &&& final(state).stats@ == old(state).stats@.failed(connection.id, error@, now@)
            },
        },
{
    match dialed {
        Ok(_) => {
            state.stats.start_connection(
                connection.id,
                connection.nic_index,
                "CONNECT",
                target,
                "open",
                now,
            );
            ProxyResponse { status: OK, headers: new_headers(), body: empty_bytes() }
        },
        Err(error) => {
            state.stats.fail_connection(connection.id, error.as_str(), now);
            error_response(BAD_GATEWAY, error.as_str())
        },
    }
}

/// Records how a tunnel ended.
pub fn tunnel_ended(
    state: &mut ProxyState,
    connection: &ConnectionContext,
    end: &TunnelEnd,
    now: Duration,
)
    requires
        end.fault() is Some ==> old(state).stats@.can_fail(connection.id),
    ensures
        keeps_setup(*old(state), *final(state)),
        final(state).stats@ == tunnel::after_tunnel(old(state).stats@, *connection, *end, now@),
{
    match end {
        TunnelEnd::NotUpgraded { error } => {
            let mut failure = "upgrade failed: ".to_owned();
            failure.append(error.as_str());
            state.stats.fail_connection(connection.id, failure.as_str(), now);
        },
        TunnelEnd::Relayed { upstream, downstream } => {
            match relay_tunnel(*upstream, *downstream) {
                Ok(_) => {
                    state.stats.finish_connection(connection.id, "closed", now);
                },
                Err(fault) => {
                    state.stats.fail_connection(connection.id, fault.report().as_str(), now);
                },
            }
        },
    }
}

/// What is to be done next for a request that is passed on as it is.
#[derive(Debug)]
pub enum PassthroughStep {
    /// The client is answered.
    Answer { response: ProxyResponse },
    /// The body of the request is read.
    ReadBody { url: String },
    /// The request is passed on.
    Send { request: UpstreamRequest },
}

/// Takes up a request that is neither `GET` nor `CONNECT`.
pub fn handle_passthrough(
    state: &mut ProxyState,
    connection: &ConnectionContext,
    method: &str,
    uri: &RequestUri,
    now: Duration,
) -> (step: PassthroughStep)
    requires
        uri.fault() is Some ==> old(state).stats@.can_fail(connection.id),
    ensures
        keeps_setup(*old(state), *final(state)),
        match uri.fault() {
            Some(error) => {
                &&& step is Answer
                &&& response::reports(step->response, BAD_REQUEST, error)
                &&& final(state).stats@ == old(state).stats@.failed(connection.id, error, now@)
            },
            None => {
                &&& step is ReadBody
                &&& step->url@ == uri.text@
                &&& final(state).stats@ == old(state).stats@.started(
                    connection.id,
                    connection.nic_index,
                    method@,
                    uri.text@,
                    "request"@,
                    now@,
                )
            },
        },
{
    match absolute_http_url(uri) {
        Ok(url) => {
            state.stats.start_connection(
                connection.id,
                connection.nic_index,
                method,
                url.as_str(),
                "request",
                now,
            );
            PassthroughStep::ReadBody { url }
        },
        Err(error) => {
            state.stats.fail_connection(connection.id, error.as_str(), now);
            PassthroughStep::Answer { response: error_response(BAD_REQUEST, error.as_str()) }
        },
    }
}

/// Whether `ch` may stand in the name of a method: a token character.
pub open spec fn is_method_char(ch: char) -> bool {
    fields::is_name_char(ch) || 'A' <= ch && ch <= 'Z'
}

/// Whether `name` is the name of a method.
pub open spec fn is_method_name(name: Seq<char>) -> bool {
    name.len() > 0 && forall|i: int| 0 <= i < name.len() ==> is_method_char(#[trigger] name[i])
}

/// `Method::from_bytes`, with the name of the method or the text of the error: any token is a
/// method with that name, and nothing else is.
#[verifier::external_body]
pub(crate) fn parse_method(name: &str) -> (method: Result<String, String>)
    ensures
        match method {
            Ok(method) => is_method_name(name@) && method@ == name@,
            Err(error) => !is_method_name(name@) && error@ == "invalid HTTP method"@,
        },
{
    match Method::from_bytes(name.as_bytes()) {
        Ok(method) => Ok(method.as_str().to_string()),
        Err(error) => Err(error.to_string()),
    }
}

/// Why a request with the given method and body cannot be passed on, if it cannot.
pub open spec fn request_fault(method: Seq<char>, body: Result<Bytes, String>) -> Option<
    Seq<char>,
> {
    match body {
        Err(error) => Some("failed to read request body: "@ + error@),
        Ok(_) => if is_method_name(method) {
            None
        } else {
            Some("unsupported method "@ + method + ": invalid HTTP method"@)
        },
    }
}

/// Goes on with a request for `url` that is passed on, once its body was read or could not be
/// read. The body counts as sent over the assigned interface.
pub fn continue_passthrough(
    state: &mut ProxyState,
    connection: &ConnectionContext,
    method: &str,
    url: &str,
    request_headers: &HeaderMap,
    body: Result<Bytes, String>,
    now: Duration,
) -> (step: PassthroughStep)
    requires
        is_assigned(*old(state), *connection),
        http::has_few_names(*request_headers),
        match request_fault(method@, body) {
            Some(_) => old(state).stats@.can_fail(connection.id),
            None => old(state).stats@.can_send(
                connection.id,
                connection.nic_index,
                body::bytes_contents(body->Ok_0).len() as u64,
            ),
        },
    ensures
        keeps_setup(*old(state), *final(state)),
        match request_fault(method@, body) {
            Some(error) => {
                &&& step is Answer
                &&& response::reports(step->response, BAD_REQUEST, error)
                &&& final(state).stats@ == old(state).stats@.failed(connection.id, error, now@)
            },
            None => {
                &&& step is Send
                &&& step->request.nic_index == connection.nic_index
                &&& step->request.method@ == method@
                &&& step->request.url@ == url@
                &&& fields::header_contents(step->request.headers) == http::upstream_contents(
                    fields::header_contents(*request_headers),
                    false,
                )
                &&& step->request.body == if body::bytes_contents(body->Ok_0).len() == 0 {
                    None
                } else {
                    Some(body->Ok_0)
                }
                &&& final(state).stats@ == old(state).stats@.sent(
                    connection.id,
                    connection.nic_index,
                    body::bytes_contents(body->Ok_0).len() as u64,
                )
            },
        },
{
    let body = match body {
        Ok(body) => body,
        Err(cause) => {
            let mut error = "failed to read request body: ".to_owned();
            error.append(cause.as_str());
            state.stats.fail_connection(connection.id, error.as_str(), now);
            return PassthroughStep::Answer {
                response: error_response(BAD_REQUEST, error.as_str()),
            };
        },
    };
    let upstream_method = match parse_method(method) {
        Ok(upstream_method) => upstream_method,
        Err(cause) => {
            let mut error = "unsupported method ".to_owned();
            error.append(method);
            error.append(": ");
            error.append(cause.as_str());
            proof {
                reveal_strlit(": ");
                reveal_strlit("invalid HTTP method");
                reveal_strlit(": invalid HTTP method");
                assert(": "@ + "invalid HTTP method"@ =~= ": invalid HTTP method"@);
                assert(error@ =~= "unsupported method "@ + method@ + ": invalid HTTP method"@);
            }
            state.stats.fail_connection(connection.id, error.as_str(), now);
            return PassthroughStep::Answer {
                response: error_response(BAD_REQUEST, error.as_str()),
            };
        },
    };
    let length: u64 = bytes_len(&body) as u64;
    state.stats.add_tx(connection.id, connection.nic_index, length);
    let request = request_with_body(
        connection.nic_index,
        upstream_method.as_str(),
        url,
        request_headers,
        body,
    );
    PassthroughStep::Send { request }
}

/// Whether the client is answered with what the server sent, as it is: the status, every field that
/// does not concern only the server's connection, with all its values, and the body.
pub open spec fn returns_reply(
    response: ProxyResponse,
    method: Seq<char>,
    result: TransferResult,
) -> bool {
    response::answers(
        response,
        if status::is_status(result.status) {
            result.status
        } else {
            BAD_GATEWAY
        },
        http::reply_contents(
            fields::header_contents(result.headers),
            method == "HEAD"@,
            body::bytes_contents(result.bytes).len() as u64,
        ),
        body::bytes_contents(result.bytes),
    )
}

/// What is recorded where a request that was passed on came back answered.
pub open spec fn passthrough_event(
    method: Seq<char>,
    id: u64,
    ip: Ipv4Addr,
    duration: nat,
) -> Seq<char> {
    method + " #"@ + text::decimal(id as nat) + " completed via NIC "@ + ip.dotted() + " in "@
        + rate::seconds_form(duration) + "s"@
}

/// Answers a request that was passed on.
pub fn finish_passthrough(
    state: &mut ProxyState,
    connection: &ConnectionContext,
    method: &str,
    outcome: Result<TransferResult, String>,
    now: Duration,
) -> (response: ProxyResponse)
    requires
        is_assigned(*old(state), *connection),
        match outcome {
            Ok(result) => http::has_few_names(result.headers),
            Err(_) => old(state).stats@.can_fail(connection.id),
        },
    ensures
        keeps_setup(*old(state), *final(state)),
        match outcome {
            Ok(result) => {
                &&& returns_reply(response, method@, result)
                &&& final(state).stats@ == old(state).stats@.with_event(
                    passthrough_event(
                        method@,
                        connection.id,
                        old(state).config.nics@[connection.nic_index as int].ip,
                        result.duration@,
                    ),
                    now@,
                ).finished(connection.id, "closed"@, now@)
            },
            Err(error) => {
                &&& response::reports(response, BAD_GATEWAY, error@)
                &&& final(state).stats@ == old(state).stats@.failed(connection.id, error@, now@)
            },
        },
{
    match outcome {
        Ok(result) => {
            let ip = state.config.nics[connection.nic_index].ip;
            let mut event = method.to_owned();
            event.append(" #");
            event.append(decimal_text(connection.id).as_str());
            event.append(" completed via NIC ");
            event.append(ip.to_text().as_str());
            event.append(" in ");
            event.append(seconds_text(&result.duration).as_str());
            event.append("s");
            state.stats.record_event(event.as_str(), now);
            state.stats.finish_connection(connection.id, "closed", now);
            let length: u64 = bytes_len(&result.bytes) as u64;
            let headers = reply_headers(&result.headers, same_text(method, "HEAD"), length);
            response_with_headers(status_from_reqwest(result.status), headers, result.bytes)
        },
        Err(error) => {
            state.stats.fail_connection(connection.id, error.as_str(), now);
            error_response(BAD_GATEWAY, error.as_str())
        },
    }
}

} // verus!
