use hostname_registry::handler::HostnameHandler;
use hostname_registry::request::{parse_http_request, HttpRequest};
use hostname_registry::response::{decimal_chars, HttpResponse};

fn req(text: &str) -> HttpRequest {
    parse_http_request(text).unwrap()
}

fn post(body: &str) -> HttpRequest {
    let mut q = req(
        "POST / HTTP/1.1\r\ncontent-type: application/x-www-form-urlencoded",
    );
    q.content = body.as_bytes().to_vec();
    q
}

#[test]
fn get_missing_host_is_not_found() {
    let mut h = HostnameHandler::new();
    let r = h.handle_request(&req("GET /?hostname=missing HTTP/1.1"));
    assert_eq!(r.status, 404);
    assert_eq!(r.reason, "Not Found");
    assert!(r.content.is_empty());
    assert!(r.headers.is_empty());
}

#[test]
fn post_overwrites_then_get_returns_latest() {
    let mut h = HostnameHandler::new();
    assert_eq!(h.handle_request(&post("hostname=a&host_value=v1")).status, 200);
    let r = h.handle_request(&post("hostname=a&host_value=v2"));
    assert_eq!(r.status, 200);
    assert_eq!(r.reason, "OK");
    assert!(r.content.is_empty());
    let r = h.handle_request(&req("GET /?hostname=a HTTP/1.1"));
    assert_eq!(r.status, 200);
    assert_eq!(r.content, b"v2".to_vec());
    assert_eq!(
        r.headers,
        vec![
            ("content-type".to_string(), "text/plain".to_string()),
            ("content-length".to_string(), "2".to_string()),
        ]
    );
}

#[test]
fn get_without_hostname_is_bad_request() {
    let mut h = HostnameHandler::new();
    h.handle_request(&post("hostname=a&host_value=v1"));
    for text in ["GET / HTTP/1.1", "GET /?host=a HTTP/1.1", "GET /?hostname HTTP/1.1"] {
        let r = h.handle_request(&req(text));
        assert_eq!(r.status, 400);
        assert_eq!(r.reason, "Bad Request");
        assert!(r.content.is_empty());
    }
}

#[test]
fn post_missing_parameter_is_bad_request() {
    let mut h = HostnameHandler::new();
    assert_eq!(h.handle_request(&post("hostname=a")).status, 400);
    assert_eq!(h.handle_request(&post("host_value=v")).status, 400);
    let mut q = req("POST / HTTP/1.1\r\ncontent-type: text/plain");
    q.content = b"hostname=a&host_value=v".to_vec();
    assert_eq!(h.handle_request(&q).status, 400);
    assert_eq!(h.handle_request(&req("GET /?hostname=a HTTP/1.1")).status, 404);
}

#[test]
fn delete_is_not_implemented() {
    let mut h = HostnameHandler::default();
    h.handle_request(&post("hostname=a&host_value=v1"));
    let r = h.handle_request(&req("DELETE /?hostname=a HTTP/1.1"));
    assert_eq!(r.status, 501);
    assert_eq!(r.reason, "Not Implemented");
    assert_eq!(h.handle_request(&req("DELETE / HTTP/1.1")).status, 400);
    assert_eq!(h.handle_request(&req("GET /?hostname=a HTTP/1.1")).content, b"v1".to_vec());
}

#[test]
fn content_length_counts_bytes() {
    let mut h = HostnameHandler::new();
    h.handle_post("h".to_string(), "é€".to_string());
    let r = h.handle_get(&"h".to_string());
    assert_eq!(r.headers[1].1, "5");
    assert_eq!(r.content, "é€".as_bytes().to_vec());
}

#[test]
fn failed_parse_leaves_registry_alone() {
    let mut h = HostnameHandler::new();
    h.handle_request(&post("hostname=a&host_value=v1"));
    assert!(parse_http_request("GET /?hostname=a HTTP/1.1\r\nbad").is_err());
    let r = h.handle_request(&req("GET /?hostname=a HTTP/1.1"));
    assert_eq!(r.content, b"v1".to_vec());
}

#[test]
fn canned_responses() {
    let b = HttpResponse::bad_request();
    assert_eq!((b.version.as_str(), b.status, b.reason.as_str()), ("HTTP/1.1", 400, "Bad Request"));
    let n = HttpResponse::not_found();
    assert_eq!((n.version.as_str(), n.status, n.reason.as_str()), ("HTTP/1.1", 404, "Not Found"));
    assert!(n.headers.is_empty() && n.content.is_empty());
}

#[test]
fn serializes_response() {
    let r = HttpResponse {
        version: "HTTP/1.1".to_string(),
        status: 200,
        reason: "OK".to_string(),
        headers: vec![
            ("content-type".to_string(), "text/plain".to_string()),
            ("content-length".to_string(), "2".to_string()),
        ],
        content: b"v2".to_vec(),
    };
    assert_eq!(
        r.to_bytes(),
        b"HTTP/1.1 200 OK\r\ncontent-type: text/plain\r\ncontent-length: 2\r\n\r\nv2\r\n".to_vec()
    );
    assert_eq!(HttpResponse::bad_request().to_bytes(), b"HTTP/1.1 400 Bad Request\r\n\r\n\r\n".to_vec());
}

#[test]
fn serialized_head_reparses() {
    let r = HttpResponse {
        version: "HTTP/1.0".to_string(),
        status: 404,
        reason: "Not Found".to_string(),
        headers: vec![("b".to_string(), "1".to_string()), ("a".to_string(), "x y".to_string())],
        content: vec![],
    };
    let bytes = r.to_bytes();
    let text = String::from_utf8(bytes).unwrap();
    let head = text.split("\r\n\r\n").next().unwrap();
    let mut lines = head.split("\r\n");
    let start: Vec<&str> = lines.next().unwrap().splitn(3, ' ').collect();
    assert_eq!(start, vec!["HTTP/1.0", "404", "Not Found"]);
    let hs: Vec<(String, String)> = lines
        .map(|l| {
            let (k, v) = l.split_once(": ").unwrap();
            (k.to_string(), v.to_string())
        })
        .collect();
    assert_eq!(hs, r.headers);
}

#[test]
fn decimal_notation() {
    let d = |n: u64| decimal_chars(n).into_iter().collect::<String>();
    assert_eq!(d(0), "0");
    assert_eq!(d(7), "7");
    assert_eq!(d(404), "404");
    assert_eq!(d(u64::MAX), u64::MAX.to_string());
}

use hostname_registry::connection::{serve_step, Step};

#[test]
fn step_short_body_then_close_sends_nothing() {
    let mut h = HostnameHandler::new();
    let buf = b"POST / HTTP/1.1\r\ncontent-type: application/x-www-form-urlencoded\r\nContent-Length: 30\r\n\r\nhostname=a".to_vec();
    assert!(matches!(serve_step(&mut h, &buf, false), Step::ReadMore));
    assert!(matches!(serve_step(&mut h, &buf, true), Step::Close));
    let get = b"GET /?hostname=a HTTP/1.1\r\n\r\n".to_vec();
    match serve_step(&mut h, &get, false) {
        Step::Respond(b) => assert_eq!(b, b"HTTP/1.1 404 Not Found\r\n\r\n\r\n".to_vec()),
        _ => panic!("expected a response"),
    }
}

#[test]
fn step_bad_header_then_later_request_served() {
    let mut h = HostnameHandler::new();
    let bad = b"POST / HTTP/1.1\r\nno colon\r\n\r\nhostname=a&host_value=v".to_vec();
    assert!(matches!(serve_step(&mut h, &bad, false), Step::Close));
    let body = "hostname=a&host_value=v";
    let post = format!(
        "POST / HTTP/1.1\r\nContent-Type: application/x-www-form-urlencoded\r\nContent-Length: {}\r\n\r\n{}",
        body.len(),
        body
    );
    match serve_step(&mut h, &post.into_bytes(), false) {
        Step::Respond(b) => assert_eq!(b, b"HTTP/1.1 200 OK\r\n\r\n\r\n".to_vec()),
        _ => panic!("expected a response"),
    }
    match serve_step(&mut h, &b"GET /?hostname=a HTTP/1.1\r\n\r\n".to_vec(), true) {
        Step::Respond(b) => assert_eq!(
            b,
            b"HTTP/1.1 200 OK\r\ncontent-type: text/plain\r\ncontent-length: 1\r\n\r\nv\r\n".to_vec()
        ),
        _ => panic!("expected a response"),
    }
}
