use bytes::Bytes;
use hyper::header::{HeaderName, HeaderValue};
use hyper::HeaderMap;
use mnic_cli::cli::RuntimeOptions;
use mnic_cli::clock::Duration;
use mnic_cli::config::{Config, NicConfig, ProxyConfig};
use mnic_cli::handler::{
    absolute_http_url, accepts_piece, complete_full_get, continue_get, continue_passthrough,
    expect_body, finish_connect, finish_full_get, finish_passthrough, finish_range_get,
    handle_connect, handle_get, handle_passthrough, receive_piece, route, tunnel_ended, ConnectStep,
    FullGet, GetStep, PassthroughStep, RequestUri, Route, SplitGet,
};
use mnic_cli::http::{get_full, ChunkResult, ServerInfo, TransferResult};
use mnic_cli::net::{Ipv4Addr, SocketAddr};
use mnic_cli::proxy::{ConnectionContext, ProxyState};
use mnic_cli::response::{error_response, response_with_headers, ProxyResponse};
use mnic_cli::stats::StatsSnapshot;
use mnic_cli::tunnel::{CopyFault, CopyPhase, TunnelEnd};

fn now() -> Duration {
    Duration::from_secs(60)
}

fn new_state(range_split_enabled: bool) -> ProxyState {
    let config = Config {
        nics: vec![
            NicConfig { ip: Ipv4Addr::new(192, 168, 1, 10) },
            NicConfig { ip: Ipv4Addr::new(192, 168, 1, 11) },
        ],
        proxy: ProxyConfig {
            listen: SocketAddr::V4 { ip: Ipv4Addr::new(127, 0, 0, 1), port: 8080 },
        },
    };
    ProxyState::new(config, RuntimeOptions { range_split_enabled }, Duration::from_secs(58))
}

/// A state whose second client, on the second interface, is being served.
fn second_client(range_split_enabled: bool) -> (ProxyState, ConnectionContext) {
    let mut state = new_state(range_split_enabled);
    let peer = SocketAddr::V4 { ip: Ipv4Addr::new(127, 0, 0, 1), port: 5000 };
    let first = state.next_connection(peer.duplicate(), now());
    state.connection_ended(&first, None, now());
    let second = state.next_connection(peer, now());
    (state, second)
}

fn view(state: &mut ProxyState) -> StatsSnapshot {
    state.stats.snapshot(now())
}

fn last_event(state: &mut ProxyState) -> String {
    view(state).recent_events.last().unwrap().clone()
}

fn header_map(fields: &[(&str, &str)]) -> HeaderMap {
    let mut headers = HeaderMap::new();
    for (name, value) in fields {
        headers.append(
            HeaderName::from_bytes(name.as_bytes()).unwrap(),
            HeaderValue::from_str(value).unwrap(),
        );
    }
    headers
}

fn all<'a>(headers: &'a HeaderMap, name: &str) -> Vec<&'a str> {
    headers.get_all(name).iter().map(|value| value.to_str().unwrap()).collect()
}

fn uri(text: &str) -> RequestUri {
    let uri: hyper::Uri = text.parse().unwrap();
    RequestUri {
        scheme: uri.scheme_str().map(|scheme| scheme.to_string()),
        authority: uri.authority().map(|authority| authority.to_string()),
        text: uri.to_string(),
    }
}

fn info(content_length: Option<u64>, accepts_ranges: bool) -> ServerInfo {
    ServerInfo { content_length, accepts_ranges, final_url: "http://h/final".to_string() }
}

fn chunk_result(bytes: &'static [u8], nanos: u32) -> ChunkResult {
    ChunkResult {
        bytes: Bytes::from_static(bytes),
        duration: Duration::new(0, nanos),
        headers: header_map(&[("etag", "e"), ("content-range", "bytes 0-4/11")]),
    }
}

fn transfer_result(status: u16, bytes: &'static [u8]) -> TransferResult {
    TransferResult {
        bytes: Bytes::from_static(bytes),
        duration: Duration::new(1, 500_000_000),
        status,
        headers: header_map(&[("content-type", "text/html"), ("x-other", "o")]),
    }
}

fn assert_error(response: &ProxyResponse, status: u16, line: &str) {
    assert_eq!(response.status, status);
    assert_eq!(response.headers.len(), 1);
    assert_eq!(response.headers.get("content-type").unwrap(), "text/plain; charset=utf-8");
    assert_eq!(response.body, Bytes::from(line.to_string()));
}

fn head_step(step: GetStep) -> (String, mnic_cli::http::UpstreamRequest) {
    match step {
        GetStep::Head { url, request } => (url, request),
        _ => panic!("the server is not asked"),
    }
}

fn full_step(step: GetStep) -> FullGet {
    match step {
        GetStep::Full { full: plan } => plan,
        _ => panic!("the resource is not fetched as a whole"),
    }
}

fn split_step(step: GetStep) -> SplitGet {
    match step {
        GetStep::Split { split: plan } => plan,
        _ => panic!("the resource is not split"),
    }
}

#[test]
fn routes_by_method() {
    assert_eq!(route("CONNECT"), Route::Connect);
    assert_eq!(route("GET"), Route::Get);
    for method in ["POST", "HEAD", "get", "PUT", ""] {
        assert_eq!(route(method), Route::Passthrough);
    }
}

#[test]
fn accepts_absolute_http_addresses() {
    assert_eq!(absolute_http_url(&uri("http://h:81/a?b")), Ok("http://h:81/a?b".to_string()));
    assert_eq!(absolute_http_url(&uri("http://h")), Ok("http://h/".to_string()));
    assert_eq!(
        absolute_http_url(&uri("https://h/")),
        Err("only absolute HTTP URLs are supported: https://h/".to_string())
    );
    assert_eq!(
        absolute_http_url(&uri("/path")),
        Err("only absolute HTTP URLs are supported: /path".to_string())
    );
    let odd = RequestUri {
        scheme: Some("http".to_string()),
        authority: None,
        text: "http:/x".to_string(),
    };
    assert_eq!(
        absolute_http_url(&odd),
        Err("request URI is missing authority: http:/x".to_string())
    );
}

#[test]
fn reports_errors_as_plain_text() {
    assert_error(&error_response(400, "bad"), 400, "400 Bad Request: bad\n");
    assert_error(&error_response(502, "gone"), 502, "502 Bad Gateway: gone\n");
}

#[test]
fn replies_with_all_values_of_each_field() {
    let headers = header_map(&[("set-cookie", "a=1"), ("etag", "e"), ("set-cookie", "b=2")]);
    let response = response_with_headers(204, headers, Bytes::from_static(b"x"));
    assert_eq!(response.status, 204);
    assert_eq!(response.headers.len(), 3);
    assert_eq!(all(&response.headers, "set-cookie"), ["a=1", "b=2"]);
    assert_eq!(all(&response.headers, "etag"), ["e"]);
    assert_eq!(response.body, Bytes::from_static(b"x"));
}

#[test]
fn fetches_as_a_whole_without_asking_when_split_is_off() {
    let (mut state, connection) = second_client(false);
    assert_eq!(connection.nic_index, 1);
    let headers = header_map(&[("accept-encoding", "gzip")]);
    let step = handle_get(&mut state, &connection, &uri("http://h/a"), &headers, now());
    let plan = full_step(step);
    assert_eq!((plan.request.method.as_str(), plan.request.url.as_str()), ("GET", "http://h/a"));
    assert_eq!(plan.request.nic_index, 1);
    assert_eq!(plan.request.headers.get("accept-encoding").unwrap(), "gzip");
    assert!(plan.info.is_none() && plan.note.is_none());
    assert_eq!(last_event(&mut state), "+00:02  HTTP GET #2 http://h/a full via NIC[1]");
    assert_eq!(view(&mut state).active_connections[0].state, "full");
}

#[test]
fn asks_the_server_first_when_split_is_on() {
    let (mut state, connection) = second_client(true);
    let step =
        handle_get(&mut state, &connection, &uri("http://h/a"), &HeaderMap::new(), now());
    let (url, request) = head_step(step);
    assert_eq!(url, "http://h/a");
    assert_eq!((request.method.as_str(), request.nic_index), ("HEAD", 1));
    assert_eq!(request.headers.get("accept-encoding").unwrap(), "identity");
    assert_eq!(last_event(&mut state), "+00:02  HTTP GET #2 http://h/a head via NIC[1]");
}

#[test]
fn refuses_get_requests_for_other_addresses() {
    let (mut state, connection) = second_client(true);
    let step =
        handle_get(&mut state, &connection, &uri("https://h/"), &HeaderMap::new(), now());
    match step {
        GetStep::Answer { response } => assert_error(
            &response,
            400,
            "400 Bad Request: only absolute HTTP URLs are supported: https://h/\n",
        ),
        _ => panic!("the request is taken up"),
    }
    let shown = view(&mut state);
    assert_eq!(shown.nics[1].failed_connections, 1);
    assert!(shown.active_connections.is_empty());
    assert_eq!(
        last_event(&mut state),
        "+00:02  TCP #2 failed after 00:00 tx 0 B rx 0 B: only absolute HTTP URLs are supported: \
         https://h/"
    );
}

#[test]
fn splits_resources_that_can_be_split() {
    let (mut state, connection) = second_client(true);
    let headers = header_map(&[("x-a", "1")]);
    let step = continue_get(
        &mut state,
        &connection,
        "http://h/a",
        Ok(info(Some(11), true)),
        &headers,
        now(),
    );
    let plan = split_step(step);
    assert_eq!(plan.size, 11);
    assert_eq!(plan.first.url, "http://h/final");
    assert_eq!((plan.first.nic_index, plan.second.nic_index), (0, 1));
    assert_eq!(plan.first.headers.get("range").unwrap(), "bytes=0-4");
    assert_eq!(plan.second.headers.get("range").unwrap(), "bytes=5-10");
    assert_eq!(plan.second.headers.get("accept-encoding").unwrap(), "identity");
    assert_eq!(plan.second.headers.get("x-a").unwrap(), "1");
    let events = view(&mut state).recent_events;
    assert_eq!(
        events[events.len() - 2..],
        [
            "+00:02  HTTP GET #2 http://h/a range via NIC[1]",
            "+00:02  GET #2 http://h/a range split started",
        ]
    );
}

#[test]
fn fetches_as_a_whole_what_cannot_be_split() {
    for told in [info(None, true), info(Some(11), false), info(Some(1), true), info(Some(0), true)]
    {
        let (mut state, connection) = second_client(true);
        let length = told.content_length;
        let step = continue_get(
            &mut state,
            &connection,
            "http://h/a",
            Ok(told),
            &HeaderMap::new(),
            now(),
        );
        let plan = full_step(step);
        assert_eq!(plan.request.url, "http://h/final");
        assert_eq!(plan.request.nic_index, 1);
        assert_eq!(plan.info.unwrap().content_length, length);
        assert!(plan.note.is_none());
        assert_eq!(
            last_event(&mut state),
            "+00:02  GET #2 range split not possible, falling back to single NIC"
        );
        assert_eq!(view(&mut state).active_connections[0].state, "full");
    }
    let (mut state, connection) = second_client(true);
    let smallest = continue_get(
        &mut state,
        &connection,
        "http://h/a",
        Ok(info(Some(2), true)),
        &HeaderMap::new(),
        now(),
    );
    assert_eq!(split_step(smallest).size, 2);
    let (mut state, connection) = second_client(false);
    let off = continue_get(
        &mut state,
        &connection,
        "http://h/a",
        Ok(info(Some(20), true)),
        &HeaderMap::new(),
        now(),
    );
    assert!(full_step(off).info.is_some());
    assert!(last_event(&mut state).contains("inbound #2"));
}

#[test]
fn falls_back_when_the_server_cannot_be_asked() {
    let (mut state, connection) = second_client(true);
    let step = continue_get(
        &mut state,
        &connection,
        "http://h/a",
        Err("HEAD failed: 404 Not Found".to_string()),
        &HeaderMap::new(),
        now(),
    );
    let plan = full_step(step);
    assert_eq!(plan.request.url, "http://h/a");
    assert_eq!(
        plan.note.unwrap(),
        "HEAD failed (HEAD failed: 404 Not Found), falling back to single NIC"
    );
    assert_eq!(
        last_event(&mut state),
        "+00:02  GET #2 HEAD failed (HEAD failed: 404 Not Found), falling back to single NIC"
    );
    assert_eq!(view(&mut state).nics[1].failed_connections, 0);
}

#[test]
fn puts_halves_together() {
    let (mut state, connection) = second_client(true);
    let response = finish_range_get(
        &mut state,
        &connection,
        11,
        Ok(chunk_result(b"hello", 100_000_000)),
        Ok(chunk_result(b" world", 200_000_000)),
        now(),
    );
    assert_eq!(response.status, 200);
    assert_eq!(response.body, Bytes::from_static(b"hello world"));
    assert_eq!(response.headers.get("content-length").unwrap(), "11");
    assert_eq!(response.headers.get("etag").unwrap(), "e");
    assert!(!response.headers.contains_key("content-range"));
    let events = view(&mut state).recent_events;
    assert_eq!(
        events[events.len() - 2..],
        [
            "+00:02  GET #2 range split completed: NIC[0] 0-4 in 0.10s, NIC[1] 5-10 in 0.20s",
            "+00:02  TCP #2 closed after 00:00 tx 0 B rx 0 B",
        ]
    );
}

#[test]
fn a_missing_half_is_a_gateway_error() {
    let (mut state, connection) = second_client(true);
    let response = finish_range_get(
        &mut state,
        &connection,
        11,
        Ok(chunk_result(b"hello", 100_000_000)),
        Err("range GET failed for bytes 5-10".to_string()),
        now(),
    );
    assert_error(&response, 502, "502 Bad Gateway: range GET failed for bytes 5-10\n");
    assert!(last_event(&mut state)
        .ends_with(": range GET via NIC 192.168.1.11 failed: range GET failed for bytes 5-10"));
    assert_eq!(view(&mut state).nics[1].failed_connections, 1);

    let (mut state, connection) = second_client(true);
    let response = finish_range_get(
        &mut state,
        &connection,
        11,
        Err("one".to_string()),
        Err("two".to_string()),
        now(),
    );
    assert_error(&response, 502, "502 Bad Gateway: one\n");
    assert!(last_event(&mut state).ends_with(": range GET via NIC 192.168.1.10 failed: one"));
}

#[test]
fn passes_whole_resources_back() {
    let (mut state, connection) = second_client(true);
    let response = finish_full_get(
        &mut state,
        &connection,
        &Some(info(Some(5), true)),
        &None,
        Ok(transfer_result(404, b"gone!")),
        now(),
    );
    assert_eq!(response.status, 404);
    assert_eq!(response.body, Bytes::from_static(b"gone!"));
    assert_eq!(response.headers.len(), 2);
    assert_eq!(response.headers.get("content-length").unwrap(), "5");
    assert_eq!(response.headers.get("content-type").unwrap(), "text/html");
    let events = view(&mut state).recent_events;
    assert_eq!(
        events[events.len() - 2],
        "+00:02  GET #2 completed via NIC 192.168.1.11 size Some(5) range yes (no split) note None \
         in 1.50s"
    );
    assert!(view(&mut state).active_connections.is_empty());
}

#[test]
fn records_notes_in_quotation_marks() {
    let (mut state, connection) = second_client(true);
    finish_full_get(
        &mut state,
        &connection,
        &None,
        &Some("a \"b\"\n".to_string()),
        Ok(transfer_result(200, b"")),
        now(),
    );
    let events = view(&mut state).recent_events;
    assert_eq!(
        events[events.len() - 2],
        "+00:02  GET #2 completed via NIC 192.168.1.11 size None range no note \
         Some(\"a \\\"b\\\"\\n\") in 1.50s"
    );
}

#[test]
fn records_notes_as_they_are_given() {
    let (mut state, connection) = second_client(true);
    complete_full_get(
        &mut state,
        &connection,
        &Some(info(None, false)),
        "given",
        Ok(transfer_result(1000, b"")),
        now(),
    );
    let events = view(&mut state).recent_events;
    assert_eq!(
        events[events.len() - 2],
        "+00:02  GET #2 completed via NIC 192.168.1.11 size None range no note given in 1.50s"
    );
}

#[test]
fn failed_fetches_are_gateway_errors() {
    let (mut state, connection) = second_client(false);
    let response = finish_full_get(
        &mut state,
        &connection,
        &None,
        &None,
        Err("upstream request failed for http://h/".to_string()),
        now(),
    );
    assert_error(&response, 502, "502 Bad Gateway: upstream request failed for http://h/\n");
    assert_eq!(view(&mut state).nics[1].failed_connections, 1);
}

#[test]
fn odd_status_codes_become_gateway_errors() {
    let (mut state, connection) = second_client(false);
    let response = finish_passthrough(
        &mut state,
        &connection,
        "PUT",
        Ok(transfer_result(1000, b"b")),
        now(),
    );
    assert_eq!(response.status, 502);
    assert_eq!(response.body, Bytes::from_static(b"b"));
}

#[test]
fn counts_received_pieces_at_once() {
    let (mut state, connection) = second_client(true);
    let mut first = expect_body(&connection, &get_full(0, "http://h/", &HeaderMap::new()));
    let mut second = expect_body(&connection, &get_full(1, "http://h/", &HeaderMap::new()));
    receive_piece(&mut state.stats, &mut first, &Bytes::from("abc"));
    receive_piece(&mut state.stats, &mut second, &Bytes::from("f"));
    assert!(accepts_piece(&state.stats, &first, &Bytes::from("de")));
    receive_piece(&mut state.stats, &mut first, &Bytes::from("de"));
    let shown = view(&mut state);
    assert_eq!((shown.nics[0].total_rx, shown.nics[1].total_rx), (5, 1));
    assert_eq!(shown.active_connections[0].rx, 6);
    assert_eq!(first.body.finish(), Bytes::from("abcde"));
    assert_eq!(second.body.finish(), Bytes::from("f"));
}

#[test]
fn refuses_pieces_that_cannot_be_counted() {
    let (mut state, connection) = second_client(true);
    let elsewhere = expect_body(&connection, &get_full(2, "http://h/", &HeaderMap::new()));
    assert!(!accepts_piece(&state.stats, &elsewhere, &Bytes::from("a")));
    assert!(accepts_piece(&state.stats, &elsewhere, &Bytes::new()));
    state.stats.add_rx(connection.id, 1, u64::MAX);
    let full = expect_body(&connection, &get_full(1, "http://h/", &HeaderMap::new()));
    assert!(!accepts_piece(&state.stats, &full, &Bytes::from("a")));
}

#[test]
fn dials_from_the_assigned_interface() {
    let (mut state, connection) = second_client(false);
    match handle_connect(&mut state, &connection, Some("example.com:443"), now()) {
        ConnectStep::Dial { target, local_ip } => {
            assert_eq!(target, "example.com:443");
            assert_eq!(local_ip.to_text(), "192.168.1.11");
        }
        _ => panic!("no connection is made"),
    }
    assert_eq!(
        last_event(&mut state),
        "+00:02  CONNECT #2 example.com:443 connecting via NIC[1]"
    );
    let response =
        finish_connect(&mut state, &connection, "example.com:443", Ok(()), now());
    assert_eq!(response.status, 200);
    assert!(response.headers.is_empty() && response.body.is_empty());
    assert_eq!(last_event(&mut state), "+00:02  CONNECT #2 example.com:443 open via NIC[1]");
}

#[test]
fn refuses_connect_requests_without_a_target() {
    let (mut state, connection) = second_client(false);
    match handle_connect(&mut state, &connection, None, now()) {
        ConnectStep::Answer { response } => assert_error(
            &response,
            400,
            "400 Bad Request: CONNECT request missing authority\n",
        ),
        _ => panic!("a connection is made"),
    }
}

#[test]
fn failed_dials_are_gateway_errors() {
    let (mut state, connection) = second_client(false);
    let response = finish_connect(
        &mut state,
        &connection,
        "h:1",
        Err("CONNECT timed out for h:1".to_string()),
        now(),
    );
    assert_error(&response, 502, "502 Bad Gateway: CONNECT timed out for h:1\n");
    assert_eq!(view(&mut state).nics[1].failed_connections, 1);
}

#[test]
fn records_how_tunnels_end() {
    let done = TunnelEnd::Relayed { upstream: CopyPhase::Done, downstream: CopyPhase::Done };
    let (mut state, connection) = second_client(false);
    tunnel_ended(&mut state, &connection, &done, now());
    assert_eq!(last_event(&mut state), "+00:02  TCP #2 closed after 00:00 tx 0 B rx 0 B");
    assert_eq!(view(&mut state).nics[1].failed_connections, 0);

    let broken = TunnelEnd::Relayed {
        upstream: CopyPhase::Done,
        downstream: CopyPhase::Failed { fault: CopyFault::Write },
    };
    let (mut state, connection) = second_client(false);
    tunnel_ended(&mut state, &connection, &broken, now());
    assert!(last_event(&mut state).ends_with(": tunnel write failed"));

    let half_closed =
        TunnelEnd::Relayed { upstream: CopyPhase::Reading, downstream: CopyPhase::Done };
    let (mut state, connection) = second_client(false);
    tunnel_ended(&mut state, &connection, &half_closed, now());
    assert_eq!(last_event(&mut state), "+00:02  TCP #2 closed after 00:00 tx 0 B rx 0 B");

    let refused = TunnelEnd::NotUpgraded { error: "no upgrade".to_string() };
    let (mut state, connection) = second_client(false);
    tunnel_ended(&mut state, &connection, &refused, now());
    assert!(last_event(&mut state).ends_with(": upgrade failed: no upgrade"));
    assert_eq!(view(&mut state).nics[1].failed_connections, 1);
}

#[test]
fn passes_other_requests_on() {
    let (mut state, connection) = second_client(true);
    let url = match handle_passthrough(&mut state, &connection, "POST", &uri("http://h/p"), now())
    {
        PassthroughStep::ReadBody { url } => url,
        _ => panic!("the body is not read"),
    };
    assert_eq!(url, "http://h/p");
    assert_eq!(last_event(&mut state), "+00:02  POST #2 http://h/p request via NIC[1]");
    let headers = header_map(&[("content-length", "4"), ("x-a", "1")]);
    let body = Ok(Bytes::from_static(b"data"));
    let request = match continue_passthrough(
        &mut state,
        &connection,
        "POST",
        &url,
        &headers,
        body,
        now(),
    ) {
        PassthroughStep::Send { request } => request,
        _ => panic!("the request is not passed on"),
    };
    assert_eq!((request.method.as_str(), request.url.as_str()), ("POST", "http://h/p"));
    assert_eq!(request.nic_index, 1);
    assert_eq!(request.body.unwrap(), Bytes::from_static(b"data"));
    assert_eq!(request.headers.len(), 1);
    let shown = view(&mut state);
    assert_eq!((shown.nics[0].total_tx, shown.nics[1].total_tx), (0, 4));
    assert_eq!(shown.active_connections[0].tx, 4);

    let response = finish_passthrough(
        &mut state,
        &connection,
        "POST",
        Ok(transfer_result(201, b"made")),
        now(),
    );
    assert_eq!(response.status, 201);
    assert_eq!(response.headers.get("content-length").unwrap(), "4");
    assert_eq!(response.headers.get("x-other").unwrap(), "o");
    let events = view(&mut state).recent_events;
    assert_eq!(
        events[events.len() - 2],
        "+00:02  POST #2 completed via NIC 192.168.1.11 in 1.50s"
    );
    assert_eq!(
        events[events.len() - 1],
        "+00:02  POST #2 closed after 00:00 tx 4 B rx 0 B"
    );
}

#[test]
fn returns_other_replies_as_they_are() {
    let (mut state, connection) = second_client(false);
    let result = TransferResult {
        bytes: Bytes::from_static(b"made"),
        duration: Duration::from_secs(1),
        status: 201,
        headers: header_map(&[
            ("set-cookie", "a=1"),
            ("set-cookie", "b=2"),
            ("x-request-id", "7"),
            ("connection", "close"),
            ("transfer-encoding", "chunked"),
            ("www-authenticate", "Basic"),
        ]),
    };
    let response = finish_passthrough(&mut state, &connection, "POST", Ok(result), now());
    assert_eq!(response.status, 201);
    assert_eq!(all(&response.headers, "set-cookie"), ["a=1", "b=2"]);
    assert_eq!(all(&response.headers, "x-request-id"), ["7"]);
    assert_eq!(all(&response.headers, "www-authenticate"), ["Basic"]);
    assert_eq!(all(&response.headers, "content-length"), ["4"]);
    assert_eq!(response.headers.keys_len(), 4);
    assert_eq!(response.body, Bytes::from_static(b"made"));
}

#[test]
fn head_replies_keep_the_length_of_the_resource() {
    let (mut state, connection) = second_client(false);
    let result = TransferResult {
        bytes: Bytes::new(),
        duration: Duration::from_secs(1),
        status: 200,
        headers: header_map(&[("content-length", "1234"), ("keep-alive", "1")]),
    };
    let response = finish_passthrough(&mut state, &connection, "HEAD", Ok(result), now());
    assert_eq!(all(&response.headers, "content-length"), ["1234"]);
    assert_eq!(response.headers.len(), 1);
    assert!(response.body.is_empty());
}

#[test]
fn refuses_requests_that_cannot_be_passed_on() {
    let (mut state, connection) = second_client(false);
    match handle_passthrough(&mut state, &connection, "POST", &uri("/p"), now()) {
        PassthroughStep::Answer { response } => assert_error(
            &response,
            400,
            "400 Bad Request: only absolute HTTP URLs are supported: /p\n",
        ),
        _ => panic!("the request is taken up"),
    }

    let (mut state, connection) = second_client(false);
    match continue_passthrough(
        &mut state,
        &connection,
        "POST",
        "http://h/p",
        &HeaderMap::new(),
        Err("early eof".to_string()),
        now(),
    ) {
        PassthroughStep::Answer { response } => assert_error(
            &response,
            400,
            "400 Bad Request: failed to read request body: early eof\n",
        ),
        _ => panic!("the request is passed on"),
    }

    for method in ["", "PO ST", "Ä", "A{"] {
        let (mut state, connection) = second_client(false);
        match continue_passthrough(
            &mut state,
            &connection,
            method,
            "http://h/p",
            &HeaderMap::new(),
            Ok(Bytes::new()),
            now(),
        ) {
            PassthroughStep::Answer { response } => assert_error(
                &response,
                400,
                &format!("400 Bad Request: unsupported method {method}: invalid HTTP method\n"),
            ),
            _ => panic!("the request is passed on"),
        }
        assert_eq!(view(&mut state).nics[1].failed_connections, 1);
    }
}

#[test]
fn passes_any_token_on_as_a_method() {
    for method in ["PUT", "delete", "M-SEARCH", "A!#$%&'*+-.^_`|~09", "ALONGMETHODNAMEOFMANYLETTERS"]
    {
        let (mut state, connection) = second_client(false);
        match continue_passthrough(
            &mut state,
            &connection,
            method,
            "http://h/p",
            &HeaderMap::new(),
            Ok(Bytes::new()),
            now(),
        ) {
            PassthroughStep::Send { request } => {
                assert_eq!(request.method, method);
                assert!(request.body.is_none());
            }
            _ => panic!("the request is not passed on"),
        }
    }
}
