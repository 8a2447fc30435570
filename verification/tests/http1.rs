use bytes::BytesMut;
use ners::http::parser::{HttpParser, ParseError};
use ners::http::response::HttpResponse;

#[test]
fn test_parse_get_request() {
    let mut parser = HttpParser::new();
    let buf = BytesMut::from("GET / HTTP/1.1\r\nHost: localhost\r\n\r\n");

    let (req, consumed) = parser.parse(&buf).unwrap();

    assert_eq!(req.method, "GET");
    assert_eq!(req.path, "/");
    assert_eq!(req.version, "HTTP/1.1");
    assert_eq!(consumed, 35);
}

#[test]
fn test_parse_post_request() {
    let mut parser = HttpParser::new();
    let buf = BytesMut::from("POST /api HTTP/1.1\r\nHost: localhost\r\nContent-Length: 11\r\n\r\nHello World");

    let (req, consumed) = parser.parse(&buf).unwrap();

    assert_eq!(req.method, "POST");
    assert_eq!(req.path, "/api");
    assert_eq!(req.body.as_ref(), b"Hello World");
    assert_eq!(consumed, 70);
}

#[test]
fn test_incomplete_request() {
    let mut parser = HttpParser::new();
    let buf = BytesMut::from("GET / HTTP/1.1\r\n");

    assert!(matches!(parser.parse(&buf), Err(ParseError::Incomplete)));
}

#[test]
fn parse_headers_lowercased_trimmed_and_replaced() {
    let mut parser = HttpParser::default();
    let buf = BytesMut::from("GET /x HTTP/1.0\r\nX-One:  a \r\nHOST: h\r\nbad line\r\nx-one: b\r\n\r\nextra");
    let (req, consumed) = parser.parse(&buf).unwrap();
    assert_eq!(consumed, buf.len() - 5);
    assert_eq!(
        req.headers,
        vec![("x-one".to_string(), "b".to_string()), ("host".to_string(), "h".to_string())]
    );
    assert!(req.body.is_empty());
}

#[test]
fn parse_words_split_on_unicode_whitespace() {
    let mut parser = HttpParser::new();
    let buf = BytesMut::from("GET\u{3000}/p\tHTTP/1.1 extra\r\nA: b\r\n\r\n");
    let (req, _) = parser.parse(&buf).unwrap();
    assert_eq!(req.method, "GET");
    assert_eq!(req.path, "/p");
    assert_eq!(req.version, "HTTP/1.1");
}

#[test]
fn parse_errors() {
    let mut parser = HttpParser::new();
    let bad = BytesMut::from(&b"GET / HTTP/1.1\r\nA: \xff\r\n\r\n"[..]);
    assert!(matches!(parser.parse(&bad), Err(ParseError::Invalid(ref m)) if m == "Invalid UTF-8"));
    let short = BytesMut::from("GET /\r\nA: b\r\n\r\n");
    assert!(matches!(parser.parse(&short), Err(ParseError::Invalid(ref m)) if m == "Invalid request line"));
    // Body not yet arrived.
    let partial = BytesMut::from("POST / HTTP/1.1\r\nContent-Length: 5\r\n\r\nab");
    assert!(matches!(parser.parse(&partial), Err(ParseError::Incomplete)));
    // A length that does not parse counts as no body.
    let junk = BytesMut::from("POST / HTTP/1.1\r\nContent-Length: 5x\r\n\r\nabcde");
    let (req, n) = parser.parse(&junk).unwrap();
    assert!(req.body.is_empty());
    assert_eq!(n, junk.len() - 5);
    // A '+' sign is accepted.
    let plus = BytesMut::from("POST / HTTP/1.1\r\nContent-Length: +2\r\n\r\nabc");
    let (req, n) = parser.parse(&plus).unwrap();
    assert_eq!(req.body.as_ref(), b"ab");
    assert_eq!(n, plus.len() - 1);
}

#[test]
fn parse_checked_refuses_overflowing_length() {
    let mut parser = HttpParser::new();
    let huge = BytesMut::from(format!("POST / HTTP/1.1\r\nContent-Length: {}\r\n\r\n", usize::MAX).as_str());
    assert!(parser.parse_checked(&huge).is_none());
    let ok = BytesMut::from("GET / HTTP/1.1\r\nHost: a\r\n\r\n");
    assert!(matches!(parser.parse_checked(&ok), Some(Ok((_, 27)))));
}

#[test]
fn test_ok_response() {
    let resp = HttpResponse::ok("Hello, World!");
    let bytes = resp.to_bytes();
    let text = std::str::from_utf8(&bytes).unwrap();

    assert!(text.contains("HTTP/1.1 200 OK"));
    assert!(text.contains("Hello, World!"));
}

#[test]
fn test_json_response() {
    let resp = HttpResponse::ok(r#"{"status":"ok"}"#).json();
    let bytes = resp.to_bytes();
    let text = std::str::from_utf8(&bytes).unwrap();

    assert!(text.contains("application/json"));
}

#[test]
fn test_not_found() {
    let resp = HttpResponse::not_found();
    let bytes = resp.to_bytes();
    let text = std::str::from_utf8(&bytes).unwrap();

    assert!(text.contains("HTTP/1.1 404 Not Found"));
}

#[test]
fn response_exact_bytes() {
    let resp = HttpResponse::new(201, "héllo").with_header("X-A", "1");
    assert_eq!(
        &resp.to_bytes()[..],
        "HTTP/1.1 201 Created\r\nContent-Length: 6\r\nContent-Type: text/plain\r\nX-A: 1\r\n\r\nhéllo".as_bytes()
    );
    let resp = HttpResponse::internal_error().html();
    assert_eq!(
        &resp.to_bytes()[..],
        "HTTP/1.1 500 Internal Server Error\r\nContent-Length: 25\r\nContent-Type: text/html; charset=utf-8\r\n\r\n500 Internal Server Error"
            .as_bytes()
    );
    assert_eq!(HttpResponse::new(418, "").status_text, "Unknown");
    assert_eq!(HttpResponse::new(204, "").status_text, "No Content");
    assert_eq!(HttpResponse::new(400, "").status_text, "Bad Request");
}

#[test]
fn request_without_headers_is_complete() {
    let mut parser = HttpParser::new();
    let buf = BytesMut::from("GET / HTTP/1.0\r\n\r\n");
    let (req, consumed) = parser.parse(&buf).unwrap();
    assert_eq!(req.method, "GET");
    assert_eq!(req.path, "/");
    assert_eq!(req.version, "HTTP/1.0");
    assert!(req.headers.is_empty());
    assert!(req.body.is_empty());
    assert_eq!(consumed, 18);
}
