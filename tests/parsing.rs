use hostname_registry::framing::{frame_request, parse_length, Frame};
use hostname_registry::request::{
    parse_form_params, parse_http_request, parse_key_value_list, parse_query_params, HttpRequest,
    HttpRequestMethod, ParseError,
};
use hostname_registry::strmap::StrMap;

fn s(x: &str) -> String {
    x.to_string()
}

fn get(m: &StrMap, k: &str) -> Option<String> {
    m.get(&s(k)).cloned()
}

#[test]
fn query_params_later_duplicate_wins() {
    let m = parse_query_params("/x?a=1&b=2&b=3");
    assert_eq!(get(&m, "a"), Some(s("1")));
    assert_eq!(get(&m, "b"), Some(s("3")));
    assert_eq!(get(&m, "c"), None);
}

#[test]
fn query_params_after_last_question_mark() {
    let m = parse_query_params("/a?x=1?y=2");
    assert_eq!(get(&m, "y"), Some(s("2")));
    assert_eq!(get(&m, "x"), None);
}

#[test]
fn query_params_without_question_mark_are_empty() {
    let m = parse_query_params("/hostname=a");
    assert_eq!(get(&m, "hostname"), None);
}

#[test]
fn key_value_list_skips_pieces_without_equals() {
    let m = parse_key_value_list("a&b=&c=x=y&=z");
    assert_eq!(get(&m, "a"), None);
    assert_eq!(get(&m, "b"), Some(s("")));
    assert_eq!(get(&m, "c"), Some(s("x=y")));
    assert_eq!(get(&m, ""), Some(s("z")));
}

#[test]
fn key_value_list_keeps_percent_escapes() {
    let m = parse_key_value_list("k%20=v%21");
    assert_eq!(get(&m, "k%20"), Some(s("v%21")));
}

fn request(method: HttpRequestMethod, content_type: Option<&str>, body: &[u8]) -> HttpRequest {
    let mut headers = StrMap::new();
    if let Some(t) = content_type {
        headers.insert(s("content-type"), s(t));
    }
    HttpRequest {
        method,
        uri: s("/"),
        version: s("HTTP/1.1"),
        headers,
        content: body.to_vec(),
    }
}

#[test]
fn form_params_of_form_post() {
    let q = request(
        HttpRequestMethod::POST,
        Some("application/x-www-form-urlencoded"),
        b"hostname=a&host_value=v1",
    );
    let m = parse_form_params(&q);
    assert_eq!(get(&m, "hostname"), Some(s("a")));
    assert_eq!(get(&m, "host_value"), Some(s("v1")));
}

#[test]
fn form_params_empty_for_non_post() {
    for method in [HttpRequestMethod::GET, HttpRequestMethod::DELETE] {
        let q = request(method, Some("application/x-www-form-urlencoded"), b"hostname=a");
        assert_eq!(get(&parse_form_params(&q), "hostname"), None);
    }
}

#[test]
fn form_params_empty_for_other_content_type() {
    for t in [Some("text/plain"), Some("application/x-www-form-urlencoded; charset=utf-8"), None] {
        let q = request(HttpRequestMethod::POST, t, b"hostname=a");
        assert_eq!(get(&parse_form_params(&q), "hostname"), None);
    }
}

#[test]
fn form_params_decode_invalid_utf8_lossily() {
    let q = request(
        HttpRequestMethod::POST,
        Some("application/x-www-form-urlencoded"),
        b"hostname=a\xff",
    );
    assert_eq!(get(&parse_form_params(&q), "hostname"), Some(s("a\u{fffd}")));
}

#[test]
fn parses_request_head() {
    let q = parse_http_request(
        "POST /path?x=1 HTTP/1.1\r\nContent-Type:  application/x-www-form-urlencoded \r\nHost: a:80",
    )
    .unwrap();
    assert_eq!(q.method, HttpRequestMethod::POST);
    assert_eq!(q.uri, "/path?x=1");
    assert_eq!(q.version, "HTTP/1.1");
    assert_eq!(get(&q.headers, "content-type"), Some(s("application/x-www-form-urlencoded")));
    assert_eq!(get(&q.headers, "Content-Type"), None);
    assert_eq!(get(&q.headers, "host"), Some(s("a:80")));
    assert!(q.content.is_empty());
}

#[test]
fn stops_at_first_empty_line_and_leaves_body_empty() {
    let q = parse_http_request("GET / HTTP/1.1\r\nA: 1\r\n\r\nbody\r\nmore").unwrap();
    assert_eq!(q.method, HttpRequestMethod::GET);
    assert!(q.content.is_empty());
    assert_eq!(get(&q.headers, "a"), Some(s("1")));
    assert_eq!(get(&q.headers, "body"), None);
}

#[test]
fn header_block_ending_in_single_line_break() {
    let q = parse_http_request("GET / HTTP/1.1\r\n").unwrap();
    assert_eq!(q.uri, "/");
    let q = parse_http_request("GET / HTTP/1.1\r\nHost: x\r\n").unwrap();
    assert_eq!(get(&q.headers, "host"), Some(s("x")));
}

#[test]
fn try_from_string_parses() {
    let q = HttpRequest::try_from(s("DELETE /?hostname=a HTTP/1.1\r\nA: b")).unwrap();
    assert_eq!(q.method, HttpRequestMethod::DELETE);
    assert_eq!(get(&q.headers, "a"), Some(s("b")));
    assert_eq!(HttpRequest::try_from(s("GET /")).unwrap_err(), ParseError::MalformedStartLine);
}

#[test]
fn later_header_wins() {
    let q = parse_http_request("DELETE / HTTP/1.1\r\nX: 1\r\nx: 2").unwrap();
    assert_eq!(q.method, HttpRequestMethod::DELETE);
    assert_eq!(get(&q.headers, "x"), Some(s("2")));
}

#[test]
fn bare_line_feed_is_not_a_line_break() {
    let q = parse_http_request("GET / HTTP/1.1\r\nA: 1\nB: 2").unwrap();
    assert_eq!(get(&q.headers, "a"), Some(s("1\nB: 2")));
    assert_eq!(get(&q.headers, "b"), None);
}

#[test]
fn malformed_start_line() {
    assert_eq!(parse_http_request("GET /").unwrap_err(), ParseError::MalformedStartLine);
    assert_eq!(parse_http_request("GET / HTTP/1.1 extra").unwrap_err(), ParseError::MalformedStartLine);
    assert_eq!(parse_http_request("").unwrap_err(), ParseError::MalformedStartLine);
}

#[test]
fn unknown_method() {
    for m in ["get", "PUT", "HEAD", "POSTS"] {
        let text = format!("{} / HTTP/1.1", m);
        assert_eq!(parse_http_request(&text).unwrap_err(), ParseError::UnknownMethod);
    }
}

#[test]
fn header_line_without_colon() {
    let text = "GET /?hostname=a HTTP/1.1\r\nno colon here";
    assert_eq!(parse_http_request(text).unwrap_err(), ParseError::MalformedHeaderLine);
    assert_eq!(parse_http_request(text).unwrap_err(), ParseError::MalformedHeaderLine);
    let q = parse_http_request("GET /?hostname=a HTTP/1.1\r\nA: b").unwrap();
    assert_eq!(q.uri, "/?hostname=a");
}

#[test]
fn content_length_values() {
    let c = |x: &str| parse_length(&x.chars().collect());
    assert_eq!(c("12"), Some(12));
    assert_eq!(c("+7"), Some(7));
    assert_eq!(c("0"), Some(0));
    assert_eq!(c(""), None);
    assert_eq!(c("+"), None);
    assert_eq!(c("1a"), None);
    assert_eq!(c("-1"), None);
    assert_eq!(c(&usize::MAX.to_string()), Some(usize::MAX));
    assert_eq!(c("99999999999999999999999"), None);
}

#[test]
fn frame_needs_blank_line() {
    assert!(matches!(frame_request(&b"GET / HTTP/1.1\r\n".to_vec(), false), Frame::Incomplete));
    assert!(matches!(frame_request(&b"GET / HTTP/1.1\r\n".to_vec(), true), Frame::Abandoned));
}

#[test]
fn frame_without_length_takes_rest() {
    match frame_request(&b"GET /?hostname=a HTTP/1.1\r\nA: b\r\n\r\nxyz".to_vec(), false) {
        Frame::Complete(q) => {
            assert_eq!(q.uri, "/?hostname=a");
            assert_eq!(q.content, b"xyz".to_vec());
        },
        _ => panic!("expected a complete request"),
    }
}

#[test]
fn frame_truncates_to_declared_length() {
    let buf = b"POST / HTTP/1.1\r\nContent-Length: 3\r\n\r\nabcdef".to_vec();
    match frame_request(&buf, false) {
        Frame::Complete(q) => assert_eq!(q.content, b"abc".to_vec()),
        _ => panic!("expected a complete request"),
    }
}

#[test]
fn frame_short_body_then_close_is_abandoned() {
    let buf = b"POST / HTTP/1.1\r\ncontent-length: 10\r\n\r\nabc".to_vec();
    assert!(matches!(frame_request(&buf, false), Frame::Incomplete));
    assert!(matches!(frame_request(&buf, true), Frame::Abandoned));
}

#[test]
fn frame_invalid_length_or_head_is_abandoned() {
    let buf = b"POST / HTTP/1.1\r\ncontent-length: ten\r\n\r\nabc".to_vec();
    assert!(matches!(frame_request(&buf, false), Frame::Abandoned));
    let buf = b"POST / HTTP/1.1\r\nbroken\r\n\r\n".to_vec();
    assert!(matches!(frame_request(&buf, false), Frame::Abandoned));
}

#[test]
fn frame_body_bytes_kept_verbatim() {
    let buf = b"POST / HTTP/1.1\r\nContent-Length: 2\r\n\r\n\xff\x00".to_vec();
    match frame_request(&buf, true) {
        Frame::Complete(q) => assert_eq!(q.content, vec![0xffu8, 0u8]),
        _ => panic!("expected a complete request"),
    }
}

#[test]
fn map_insert_overwrites() {
    let mut m = StrMap::new();
    assert_eq!(get(&m, "k"), None);
    m.insert(s("k"), s("1"));
    m.insert(s("j"), s("2"));
    m.insert(s("k"), s("3"));
    assert_eq!(get(&m, "k"), Some(s("3")));
    assert_eq!(get(&m, "j"), Some(s("2")));
}

#[test]
fn header_values_trimmed_of_unicode_whitespace() {
    let q = parse_http_request("GET / HTTP/1.1\r\nA:\t\u{3000} v w \u{a0}").unwrap();
    assert_eq!(get(&q.headers, "a"), Some(s("v w")));
}

#[test]
fn start_line_split_on_any_whitespace() {
    let q = parse_http_request("  GET \t /p\u{2003}HTTP/1.1  ").unwrap();
    assert_eq!(q.method, HttpRequestMethod::GET);
    assert_eq!(q.uri, "/p");
    assert_eq!(q.version, "HTTP/1.1");
}
