use http_server::request::{request_complete, ParseError, Request};

fn header<'a>(req: &'a Request, name: &str) -> Option<&'a str> {
    req.headers.iter().find(|(n, _)| n == name).map(|(_, v)| v.as_str())
}

#[test]
fn parses_request_line_and_headers() {
    let raw = b"GET /user-agent HTTP/1.1\r\nHost: localhost:4221\r\nUser-Agent: foobar/1.2.3\r\n\r\n";
    let req = Request::new(raw).unwrap();
    assert_eq!(req.method, "GET");
    assert_eq!(req.path, "/user-agent");
    assert_eq!(req.headers.len(), 2);
    assert_eq!(req.headers[0], (String::from("Host"), String::from("localhost:4221")));
    assert_eq!(header(&req, "User-Agent"), Some("foobar/1.2.3"));
    assert!(req.path_parameters.is_empty());
    assert_eq!(req.body, None);
}

#[test]
fn zero_content_length_gives_no_body() {
    let raw = b"POST /files/a HTTP/1.1\r\nContent-Length: 0\r\n\r\n";
    let req = Request::new(raw).unwrap();
    assert_eq!(req.body, None);
    assert_eq!(req.method, "POST");
}

#[test]
fn body_takes_exactly_content_length_bytes() {
    let raw = b"POST /files/a HTTP/1.1\r\nContent-Length: 5\r\n\r\nhello world";
    let req = Request::new(raw).unwrap();
    assert_eq!(req.body, Some(String::from("hello")));
}

#[test]
fn body_may_hold_line_breaks() {
    let raw = b"POST /x HTTP/1.1\r\nContent-Length: 4\r\n\r\na\r\nb";
    let req = Request::new(raw).unwrap();
    assert_eq!(req.body, Some(String::from("a\r\nb")));
}

#[test]
fn short_body_is_absent() {
    let raw = b"POST /x HTTP/1.1\r\nContent-Length: 10\r\n\r\nabc";
    let req = Request::new(raw).unwrap();
    assert_eq!(req.body, None);
}

#[test]
fn first_content_length_governs() {
    let raw = b"POST /x HTTP/1.1\r\nContent-Length: 2\r\nContent-Length: 4\r\n\r\nabcd";
    let req = Request::new(raw).unwrap();
    assert_eq!(req.body, Some(String::from("ab")));
    assert_eq!(req.headers.len(), 2);
}

#[test]
fn unreadable_content_length_counts_as_zero() {
    let raw = b"POST /x HTTP/1.1\r\nContent-Length: abc\r\n\r\nabcd";
    let req = Request::new(raw).unwrap();
    assert_eq!(req.body, None);
    let raw = b"POST /x HTTP/1.1\r\nContent-Length: +3\r\n\r\nabcd";
    let req = Request::new(raw).unwrap();
    assert_eq!(req.body, Some(String::from("abc")));
}

#[test]
fn header_names_keep_their_case_and_duplicates() {
    let raw = b"GET / HTTP/1.1\r\naccept: a\r\nAccept: b\r\nno-colon-line\r\nAccept: c\r\n\r\n";
    let req = Request::new(raw).unwrap();
    let names: Vec<&str> = req.headers.iter().map(|(n, _)| n.as_str()).collect();
    assert_eq!(names, vec!["accept", "Accept", "Accept"]);
    assert_eq!(req.headers[2].1, "c");
}

#[test]
fn missing_path_is_malformed() {
    assert_eq!(Request::new(b"GET\r\n\r\n").err(), Some(ParseError::MalformedRequestLine));
    assert_eq!(Request::new(b"").err(), Some(ParseError::MalformedRequestLine));
    assert_eq!(Request::new(b"\r\nGET / HTTP/1.1\r\n\r\n").err(), Some(ParseError::MalformedRequestLine));
}

#[test]
fn version_is_optional_and_head_may_end_without_blank_line() {
    let req = Request::new(b"GET /echo/abc").unwrap();
    assert_eq!(req.method, "GET");
    assert_eq!(req.path, "/echo/abc");
    assert!(req.headers.is_empty());
}

#[test]
fn invalid_utf8_is_replaced() {
    let req = Request::new(b"GET /\xff HTTP/1.1\r\n\r\n").unwrap();
    assert_eq!(req.path, "/\u{fffd}");
}

#[test]
fn completeness_waits_for_head_and_body() {
    assert!(!request_complete(b"GET / HTTP/1.1\r\nHost: x\r\n"));
    assert!(request_complete(b"GET / HTTP/1.1\r\nHost: x\r\n\r\n"));
    assert!(!request_complete(b"POST /a HTTP/1.1\r\nContent-Length: 5\r\n\r\nabc"));
    assert!(request_complete(b"POST /a HTTP/1.1\r\nContent-Length: 5\r\n\r\nabcde"));
    assert!(request_complete(b"POST /a HTTP/1.1\r\nContent-Length: 0\r\n\r\n"));
}
