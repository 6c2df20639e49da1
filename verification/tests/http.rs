use bytes::Bytes;
use hyper::header::{HeaderName, HeaderValue};
use hyper::HeaderMap;
use mnic_cli::body::{bodies_fit, join_bodies, BodyCollector};
use mnic_cli::chunk::{split_in_half, Chunk};
use mnic_cli::clock::Duration;
use mnic_cli::http::{
    accepts_ranges, follow_redirect, get_full, get_range, head, head_reply, is_connection_header,
    names_fit, parse_content_length, range_body, range_reply, range_text, reply_headers,
    request_with_body, response_headers, should_skip_request_header, transfer, upstream_headers,
    validate_content_range, Exchange, Reply,
};
use mnic_cli::status::{line_text, status_from_reqwest, status_text};

fn header_map(fields: &[(&str, &str)]) -> HeaderMap {
    let mut headers = HeaderMap::new();
    for (name, value) in fields {
        headers.append(
            HeaderName::from_bytes(name.as_bytes()).unwrap(),
            HeaderValue::from_str(value).unwrap(),
        );
    }
    headers
}

fn reply(status: u16, fields: &[(&str, &str)]) -> Reply {
    Reply { status, headers: header_map(fields), url: "http://h/final".to_string() }
}

fn all<'a>(headers: &'a HeaderMap, name: &str) -> Vec<&'a str> {
    headers.get_all(name).iter().map(|value| value.to_str().unwrap()).collect()
}

#[test]
fn forwards_only_end_to_end_fields() {
    let source = header_map(&[
        ("Connection", "keep-alive"),
        ("Proxy-Connection", "keep-alive"),
        ("Transfer-Encoding", "chunked"),
        ("Keep-Alive", "1"),
        ("Upgrade", "x"),
        ("TE", "x"),
        ("Trailer", "x"),
        ("Host", "h"),
        ("Content-Length", "3"),
        ("Proxy-Authorization", "x"),
        ("Proxy-Authenticate", "x"),
        ("Accept", "a"),
        ("X-Twice", "one"),
        ("Accept-Encoding", "gzip"),
        ("X-Twice", "two"),
    ]);
    let plain = upstream_headers(&source, false);
    assert_eq!(plain.keys_len(), 3);
    assert_eq!(all(&plain, "accept"), ["a"]);
    assert_eq!(all(&plain, "x-twice"), ["one", "two"]);
    assert_eq!(all(&plain, "accept-encoding"), ["gzip"]);
    let identity = upstream_headers(&source, true);
    assert_eq!(identity.keys_len(), 3);
    assert_eq!(all(&identity, "accept-encoding"), ["identity"]);
    assert_eq!(all(&identity, "x-twice"), ["one", "two"]);
}

#[test]
fn keeps_sensitive_marks_and_raw_bytes() {
    let mut source = HeaderMap::new();
    let mut secret = HeaderValue::from_bytes(&[0xff, 0x41]).unwrap();
    secret.set_sensitive(true);
    source.insert("x-secret", secret);
    let sent = upstream_headers(&source, false);
    assert_eq!(sent.get("x-secret").unwrap().as_bytes(), &[0xff, 0x41]);
    assert!(sent.get("x-secret").unwrap().is_sensitive());
}

#[test]
fn forwards_names_with_quotation_marks() {
    let mut source = HeaderMap::new();
    source.append(HeaderName::from_static("a\"b"), HeaderValue::from_static("1"));
    source.append(HeaderName::from_static("a\"b"), HeaderValue::from_static("2"));
    assert!(names_fit(&source));
    let sent = upstream_headers(&source, true);
    assert_eq!(all(&sent, "accept-encoding"), ["identity"]);
    let values: Vec<&HeaderValue> = sent.get_all(HeaderName::from_static("a\"b")).iter().collect();
    assert_eq!(values, ["1", "2"]);
    let returned = reply_headers(&source, true, 0);
    assert_eq!(returned, source);
}

/// A map whose only name ends in NUL, which a long static name with a parenthesis becomes.
fn odd_map() -> HeaderMap {
    let mut headers = HeaderMap::new();
    let name = "aaaaaaaaaaaaaaaaaaaaaaaaaaaaaaaaaaaaaaaaaaaaaaaaaaaaaaaaaaaaaaaa(";
    headers.append(name, HeaderValue::from_static("1"));
    headers.append(name, HeaderValue::from_static("2"));
    headers
}

#[test]
fn passes_odd_names_on_as_they_are() {
    let source = odd_map();
    let name = source.keys().next().unwrap();
    assert_eq!(name.as_str(), format!("{}\0", "a".repeat(64)));
    assert!(names_fit(&source));
    assert_eq!(upstream_headers(&source, false), source);
    assert_eq!(reply_headers(&source, true, 0), source);
    let sent = upstream_headers(&source, true);
    assert_eq!(sent.keys_len(), 2);
    let values: Vec<&HeaderValue> = sent.get_all(name).iter().collect();
    assert_eq!(values, ["1", "2"]);
    let returned = reply_headers(&source, false, 3);
    assert_eq!(returned.keys_len(), 2);
    assert_eq!(all(&returned, "content-length"), ["3"]);
    assert_eq!(get_range(0, "http://h/", &source, Chunk { start: 0, end: 1 }).headers.len(), 4);
}

#[test]
fn passes_odd_values_on_as_they_are() {
    let odd = HeaderValue::from(odd_map().keys().next().unwrap().clone());
    assert_eq!(odd.as_bytes()[64], 0);
    let mut source = HeaderMap::new();
    for name in ["content-length", "accept-ranges", "content-range", "etag", "x-odd"] {
        source.insert(name, odd.clone());
    }
    assert_eq!(upstream_headers(&source, false).get("x-odd").unwrap(), odd);
    assert_eq!(reply_headers(&source, true, 0), source);
    let passed_back = response_headers(&source, 2);
    assert_eq!(passed_back.get("etag").unwrap(), odd);
    assert_eq!(all(&passed_back, "content-length"), ["2"]);
    assert_eq!(parse_content_length(&source), None);
    assert!(!accepts_ranges(&source));
    assert_eq!(
        validate_content_range(&source, Chunk { start: 0, end: 1 }, 2),
        Err("missing Content-Range header in 206 response".to_string())
    );
}

#[test]
fn returns_every_end_to_end_field() {
    let source = header_map(&[
        ("Connection", "close"),
        ("Proxy-Connection", "close"),
        ("Transfer-Encoding", "chunked"),
        ("Keep-Alive", "1"),
        ("Upgrade", "x"),
        ("TE", "x"),
        ("Trailer", "x"),
        ("Set-Cookie", "a=1"),
        ("Content-Length", "99"),
        ("X-Other", "o"),
        ("Set-Cookie", "b=2"),
        ("Host", "h"),
    ]);
    let headers = reply_headers(&source, false, 7);
    assert_eq!(headers.keys_len(), 4);
    assert_eq!(all(&headers, "set-cookie"), ["a=1", "b=2"]);
    assert_eq!(all(&headers, "content-length"), ["7"]);
    assert_eq!(all(&headers, "x-other"), ["o"]);
    assert_eq!(all(&headers, "host"), ["h"]);
    let asked = reply_headers(&source, true, 0);
    assert_eq!(asked.keys_len(), 4);
    assert_eq!(all(&asked, "content-length"), ["99"]);
}

#[test]
fn knows_the_fields_of_one_connection() {
    for name in ["Connection", "proxy-connection", "TRANSFER-encoding", "Keep-Alive", "Upgrade"] {
        assert!(is_connection_header(name));
    }
    assert!(is_connection_header("TE") && is_connection_header("trailer"));
    for name in ["host", "content-length", "proxy-authorization", "trailers", ""] {
        assert!(!is_connection_header(name));
    }
}

#[test]
fn forces_identity_without_an_encoding() {
    let sent = upstream_headers(&HeaderMap::new(), true);
    assert_eq!(all(&sent, "accept-encoding"), ["identity"]);
    assert_eq!(sent.len(), 1);
}

#[test]
fn skips_fields_in_any_case() {
    assert!(should_skip_request_header("KEEP-alive"));
    assert!(should_skip_request_header("proxy-authenticate"));
    assert!(!should_skip_request_header("accept"));
    assert!(!should_skip_request_header("te2"));
}

#[test]
fn passes_back_only_known_fields() {
    let source = header_map(&[
        ("Content-Type", "text/html"),
        ("Content-Encoding", "gzip"),
        ("ETag", "e"),
        ("Last-Modified", "l"),
        ("Cache-Control", "c"),
        ("Expires", "x"),
        ("Accept-Ranges", "bytes"),
        ("Set-Cookie", "a=1"),
        ("Set-Cookie", "b=2"),
        ("Location", "/"),
        ("Via", "v"),
        ("Content-Length", "5"),
        ("Content-Range", "bytes 0-4/10"),
        ("Transfer-Encoding", "chunked"),
        ("Connection", "close"),
        ("X-Other", "o"),
    ]);
    let headers = response_headers(&source, 10);
    assert_eq!(headers.keys_len(), 11);
    assert_eq!(all(&headers, "set-cookie"), ["a=1", "b=2"]);
    assert_eq!(all(&headers, "content-length"), ["10"]);
    assert_eq!(all(&headers, "via"), ["v"]);
    assert!(!headers.contains_key("content-range"));
    assert!(!headers.contains_key("x-other"));
    assert_eq!(parse_content_length(&headers), Some(10));
}

#[test]
fn reads_announced_lengths() {
    assert_eq!(parse_content_length(&header_map(&[("content-length", "123")])), Some(123));
    assert_eq!(
        parse_content_length(&header_map(&[("content-length", "1"), ("content-length", "2")])),
        Some(1)
    );
    assert_eq!(parse_content_length(&header_map(&[("content-length", "+7")])), Some(7));
    assert_eq!(parse_content_length(&header_map(&[("content-length", "x")])), None);
    assert_eq!(parse_content_length(&header_map(&[("content-length", "-1")])), None);
    assert_eq!(parse_content_length(&HeaderMap::new()), None);
    let mut raw = HeaderMap::new();
    raw.insert("content-length", HeaderValue::from_bytes(&[0xff]).unwrap());
    assert_eq!(parse_content_length(&raw), None);
}

#[test]
fn reads_range_support() {
    assert!(accepts_ranges(&header_map(&[("accept-ranges", "bytes")])));
    assert!(accepts_ranges(&header_map(&[("accept-ranges", "Bytes")])));
    assert!(!accepts_ranges(&header_map(&[("accept-ranges", "none")])));
    assert!(!accepts_ranges(&HeaderMap::new()));
}

#[test]
fn checks_content_ranges() {
    let chunk = Chunk { start: 5, end: 9 };
    let right = header_map(&[("content-range", "bytes 5-9/10")]);
    assert_eq!(validate_content_range(&right, chunk, 10), Ok(()));
    assert_eq!(
        validate_content_range(&right, chunk, 11),
        Err("unexpected Content-Range: expected bytes 5-9/11, got bytes 5-9/10".to_string())
    );
    assert_eq!(
        validate_content_range(&right, Chunk { start: 0, end: 4 }, 10),
        Err("unexpected Content-Range: expected bytes 0-4/10, got bytes 5-9/10".to_string())
    );
    assert_eq!(
        validate_content_range(&HeaderMap::new(), chunk, 10),
        Err("missing Content-Range header in 206 response".to_string())
    );
    assert_eq!(range_text(chunk), "5-9");
}

#[test]
fn builds_upstream_requests() {
    let source = header_map(&[("host", "h"), ("range", "bytes=0-0"), ("x-a", "1")]);
    assert!(names_fit(&source));

    let asked = head(1, "http://h/a", &source);
    assert_eq!(asked.nic_index, 1);
    assert_eq!((asked.method.as_str(), asked.url.as_str()), ("HEAD", "http://h/a"));
    assert_eq!(all(&asked.headers, "accept-encoding"), ["identity"]);
    assert!(asked.body.is_none());

    let part = get_range(0, "http://h/b", &source, Chunk { start: 3, end: 7 });
    assert_eq!(part.nic_index, 0);
    assert_eq!((part.method.as_str(), part.url.as_str()), ("GET", "http://h/b"));
    assert_eq!(all(&part.headers, "range"), ["bytes=3-7"]);
    assert_eq!(all(&part.headers, "x-a"), ["1"]);
    assert_eq!(all(&part.headers, "accept-encoding"), ["identity"]);
    assert!(!part.headers.contains_key("host"));

    let full = get_full(1, "http://h/c", &source);
    assert_eq!(full.nic_index, 1);
    assert_eq!(full.method, "GET");
    assert_eq!(all(&full.headers, "range"), ["bytes=0-0"]);
    assert!(!full.headers.contains_key("accept-encoding"));
    assert!(full.body.is_none());

    let posted = request_with_body(1, "POST", "http://h/d", &source, Bytes::from_static(b"xy"));
    assert_eq!(posted.nic_index, 1);
    assert_eq!(posted.method, "POST");
    assert_eq!(posted.body.unwrap(), Bytes::from_static(b"xy"));
}

#[test]
fn refuses_headers_with_too_many_names() {
    let mut many = HeaderMap::new();
    for number in 0..6552 {
        many.insert(
            HeaderName::from_bytes(format!("x-{number}").as_bytes()).unwrap(),
            HeaderValue::from_static("v"),
        );
    }
    assert!(names_fit(&many));
    assert_eq!(upstream_headers(&many, true).keys_len(), 6553);
    many.insert("x-more", HeaderValue::from_static("v"));
    assert!(!names_fit(&many));
}

#[test]
fn follows_redirects_over_plain_http_only() {
    assert!(follow_redirect(0, "http"));
    assert!(follow_redirect(1, "http"));
    assert!(follow_redirect(10, "http"));
    assert!(!follow_redirect(11, "http"));
    assert!(!follow_redirect(0, "https"));
}

#[test]
fn reads_what_a_server_tells() {
    let info = head_reply(
        "http://h/",
        Some(reply(200, &[("content-length", "10"), ("accept-ranges", "bytes")])),
    )
    .unwrap();
    assert_eq!(info.content_length, Some(10));
    assert!(info.accepts_ranges);
    assert_eq!(info.final_url, "http://h/final");
    assert_eq!(head_reply("http://h/", None).unwrap_err(), "HEAD failed for http://h/");
    assert_eq!(
        head_reply("http://h/", Some(reply(404, &[]))).unwrap_err(),
        "HEAD failed: 404 Not Found"
    );
    assert_eq!(
        head_reply("http://h/", Some(reply(599, &[]))).unwrap_err(),
        "HEAD failed: 599 <unknown status code>"
    );
    let bare = head_reply("http://h/", Some(reply(299, &[]))).unwrap();
    assert_eq!((bare.content_length, bare.accepts_ranges), (None, false));
}

#[test]
fn checks_range_replies() {
    let chunk = Chunk { start: 0, end: 4 };
    let good = range_reply(chunk, 10, Some(reply(206, &[("content-range", "bytes 0-4/10")])));
    assert!(good.is_ok());
    assert_eq!(
        range_reply(chunk, 10, None).err().unwrap(),
        "range GET failed for bytes 0-4"
    );
    assert_eq!(
        range_reply(chunk, 10, Some(reply(200, &[]))).err().unwrap(),
        "unexpected range status for bytes 0-4: 200 OK"
    );
    assert_eq!(
        range_reply(chunk, 10, Some(reply(206, &[]))).err().unwrap(),
        "missing Content-Range header in 206 response"
    );
}

#[test]
fn checks_range_bodies() {
    let [chunk, _] = split_in_half(10);
    let good = range_body(
        chunk,
        reply(206, &[("etag", "e")]),
        Some(Bytes::from_static(b"01234")),
        Duration::new(0, 250_000_000),
    )
    .ok()
    .unwrap();
    assert_eq!(good.bytes, Bytes::from_static(b"01234"));
    assert_eq!(good.duration.subsec_nanos(), 250_000_000);
    assert_eq!(all(&good.headers, "etag"), ["e"]);
    assert_eq!(
        range_body(chunk, reply(206, &[]), None, Duration::from_secs(0)).err().unwrap(),
        "failed to read range body 0-4"
    );
    assert_eq!(
        range_body(chunk, reply(206, &[]), Some(Bytes::from_static(b"0123")), Duration::from_secs(0))
            .err()
            .unwrap(),
        "range body length mismatch for bytes 0-4: expected 5, got 4"
    );
}

#[test]
fn reports_broken_exchanges() {
    assert_eq!(
        transfer("http://h/", Exchange::Unanswered).err().unwrap(),
        "upstream request failed for http://h/"
    );
    assert_eq!(
        transfer("http://h/", Exchange::Broken).err().unwrap(),
        "failed to read upstream body for http://h/"
    );
    let complete = Exchange::Complete {
        reply: reply(201, &[("etag", "e")]),
        body: Bytes::from_static(b"b"),
        duration: Duration::from_secs(3),
    };
    let result = transfer("http://h/", complete).ok().unwrap();
    assert_eq!((result.status, result.duration.as_secs()), (201, 3));
    assert_eq!(result.bytes, Bytes::from_static(b"b"));
    assert_eq!(all(&result.headers, "etag"), ["e"]);
}

#[test]
fn writes_status_lines() {
    assert_eq!(status_text(200), "200 OK");
    assert_eq!(status_text(400), "400 Bad Request");
    assert_eq!(status_text(502), "502 Bad Gateway");
    assert_eq!(status_text(999), "999 <unknown status code>");
    assert_eq!(line_text(7, Some("Given".to_string())), "7 Given");
    assert_eq!(line_text(65535, None), "65535 <unknown status code>");
    for code in 100..1000_u16 {
        assert_eq!(status_text(code), hyper::StatusCode::from_u16(code).unwrap().to_string());
    }
}

#[test]
fn answers_with_the_servers_status() {
    assert_eq!(status_from_reqwest(304), 304);
    assert_eq!(status_from_reqwest(999), 999);
    assert_eq!(status_from_reqwest(99), 502);
    assert_eq!(status_from_reqwest(1000), 502);
}

#[test]
fn collects_bodies_piece_by_piece() {
    let mut collector = BodyCollector::new();
    for piece in ["one", "", " two"] {
        let piece = Bytes::from(piece);
        assert!(collector.accepts(&piece));
        assert_eq!(collector.push(&piece), piece.len() as u64);
    }
    assert_eq!(collector.finish(), Bytes::from_static(b"one two"));
    assert_eq!(BodyCollector::new().finish(), Bytes::new());
}

#[test]
fn joins_bodies_in_order() {
    let first = Bytes::from_static(b"abc");
    let second = Bytes::from_static(b"de");
    assert!(bodies_fit(&first, &second));
    for capacity in [0, 5, 100] {
        assert_eq!(join_bodies(&first, &second, capacity), Bytes::from_static(b"abcde"));
    }
}
