use http_server::http::StatusCodes;
use http_server::response::Response;

#[test]
fn test_complete_build_response() {
    let body = String::from("test response");
    let response = Response::new(
        StatusCodes::OK,
        Some(String::from("text/plain")),
        Some(body.clone()),
    );

    let expected_response = format!(
        "HTTP/1.1 200 OK\r\nContent-Type: text/plain\r\nContent-Length: {}\r\n\r\n{}\r\n",
        body.len(),
        body,
    );

    assert_eq!(response.build(), expected_response.as_bytes());
}

#[test]
fn test_build_response_without_body() {
    let response = Response::new(StatusCodes::OK, None, None);

    let expected_response = b"HTTP/1.1 200 OK\r\n\r\n";

    assert_eq!(response.build(), expected_response);
}

#[test]
fn test_build_response_without_content_type() {
    let response = Response::new(StatusCodes::OK, None, Some(String::from("Hello, world!")));

    let expected_response = b"HTTP/1.1 200 OK\r\nContent-Length: 13\r\n\r\nHello, world!\r\n";

    assert_eq!(response.build(), expected_response);
}

#[test]
fn build_with_body_and_content_type_is_exact() {
    let response = Response::new(
        StatusCodes::OK,
        Some(String::from("text/plain")),
        Some(String::from("abc")),
    );
    assert_eq!(
        response.build(),
        b"HTTP/1.1 200 OK\r\nContent-Type: text/plain\r\nContent-Length: 3\r\n\r\nabc\r\n".to_vec()
    );
}

#[test]
fn build_not_found_without_headers() {
    let response = Response::new(StatusCodes::NotFound, None, None);
    assert_eq!(response.build(), b"HTTP/1.1 404 Not Found\r\n\r\n".to_vec());
}

#[test]
fn build_created_and_server_error_status_lines() {
    let created = Response::new(StatusCodes::Created, Some(String::from("text/plain")), None);
    assert_eq!(
        created.build(),
        b"HTTP/1.1 201 Created\r\nContent-Type: text/plain\r\n\r\n".to_vec()
    );
    let failed = Response::new(StatusCodes::InternalServerError, None, None);
    assert_eq!(
        failed.build(),
        b"HTTP/1.1 500 Internal Server Error\r\n\r\n".to_vec()
    );
}

#[test]
fn content_length_counts_bytes_not_chars() {
    let response = Response::new(StatusCodes::OK, None, Some(String::from("héllo")));
    let mut expected = b"HTTP/1.1 200 OK\r\nContent-Length: 6\r\n\r\n".to_vec();
    expected.extend_from_slice("héllo".as_bytes());
    expected.extend_from_slice(b"\r\n");
    assert_eq!(response.build(), expected);
}

#[test]
fn content_length_of_empty_and_long_bodies() {
    let empty = Response::new(StatusCodes::OK, None, Some(String::new()));
    assert_eq!(
        empty.build(),
        b"HTTP/1.1 200 OK\r\nContent-Length: 0\r\n\r\n\r\n".to_vec()
    );
    let body = "x".repeat(1234);
    let long = Response::new(StatusCodes::OK, None, Some(body.clone()));
    let expected = format!("HTTP/1.1 200 OK\r\nContent-Length: 1234\r\n\r\n{}\r\n", body);
    assert_eq!(long.build(), expected.as_bytes().to_vec());
}
