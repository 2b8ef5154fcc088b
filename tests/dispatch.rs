use http_server::dispatch::{prepare, respond, Outcome};
use http_server::request::Request;
use http_server::response::Response;
use http_server::http::{HttpMethod, StatusCodes};
use http_server::router::Router;

#[test]
fn malformed_request_gets_server_error() {
    let router: Router<u32> = Router::new();
    match prepare(&router, b"NONSENSE\r\n\r\n") {
        Outcome::Reply(resp) => {
            assert_eq!(resp.status_code, StatusCodes::InternalServerError);
            assert_eq!(resp.content_type, None);
            assert_eq!(resp.body, None);
        }
        Outcome::Invoke { .. } => panic!("expected a reply"),
    }
}

#[test]
fn routed_request_carries_its_parameters() {
    let mut router: Router<u32> = Router::new();
    router.add_route(HttpMethod::Get, String::from("/echo/:value"), 7);
    match prepare(&router, b"GET /echo/abc HTTP/1.1\r\nHost: x\r\n\r\n") {
        Outcome::Invoke { handler, request, route_key } => {
            assert_eq!(*handler, 7);
            assert_eq!(route_key, (String::from("GET"), String::from("/echo/:value")));
            assert_eq!(
                request.get_path_parameter(&String::from("value")),
                Some(&String::from("abc"))
            );
            assert_eq!(request.path, "/echo/abc");
        }
        Outcome::Reply(_) => panic!("expected a handler"),
    }
}

#[test]
fn distinct_requests_get_their_own_routes() {
    let mut router: Router<usize> = Router::new();
    let names = ["a", "b", "c", "d"];
    for (i, n) in names.iter().enumerate() {
        router.add_route(HttpMethod::Get, format!("/{}/:value", n), i);
    }
    for (i, n) in names.iter().enumerate() {
        let raw = format!("GET /{}/v{} HTTP/1.1\r\n\r\n", n, i);
        match prepare(&router, raw.as_bytes()) {
            Outcome::Invoke { handler, request, .. } => {
                assert_eq!(*handler, i);
                assert_eq!(request.path_parameters, vec![(String::from("value"), format!("v{}", i))]);
            }
            Outcome::Reply(_) => panic!("expected a handler"),
        }
    }
}

fn echo(request: Request) -> Response {
    let value = request
        .get_path_parameter(&String::from("value"))
        .cloned()
        .unwrap_or_default();
    Response::new(StatusCodes::OK, Some(String::from("text/plain")), Some(value))
}

fn root(_request: Request) -> Response {
    Response::new(StatusCodes::OK, None, None)
}

fn echo_table() -> Router<fn(Request) -> Response> {
    let mut router: Router<fn(Request) -> Response> = Router::new();
    router.add_route(HttpMethod::Get, String::from("/"), root as fn(Request) -> Response);
    router.add_route(HttpMethod::Get, String::from("/echo/:value"), echo as fn(Request) -> Response);
    router
}

#[test]
fn respond_runs_the_handler_and_serializes() {
    let router = echo_table();
    assert_eq!(
        respond(&router, b"GET /echo/hello/world HTTP/1.1\r\n\r\n"),
        b"HTTP/1.1 200 OK\r\nContent-Type: text/plain\r\nContent-Length: 11\r\n\r\nhello/world\r\n".to_vec()
    );
    assert_eq!(
        respond(&router, b"GET / HTTP/1.1\r\n\r\n"),
        b"HTTP/1.1 200 OK\r\n\r\n".to_vec()
    );
}

#[test]
fn respond_answers_not_found_and_server_error() {
    let router = echo_table();
    assert_eq!(
        respond(&router, b"GET /missing HTTP/1.1\r\n\r\n"),
        b"HTTP/1.1 404 Not Found\r\n\r\n".to_vec()
    );
    assert_eq!(
        respond(&router, b"GET\r\n\r\n"),
        b"HTTP/1.1 500 Internal Server Error\r\n\r\n".to_vec()
    );
}

#[test]
fn distinct_echo_requests_get_their_own_values() {
    let router = echo_table();
    let values = ["one", "two", "three", "four", "five"];
    let answers: Vec<Vec<u8>> = values
        .iter()
        .map(|v| respond(&router, format!("GET /echo/{} HTTP/1.1\r\n\r\n", v).as_bytes()))
        .collect();
    for (v, a) in values.iter().zip(answers.iter()) {
        let expected = format!(
            "HTTP/1.1 200 OK\r\nContent-Type: text/plain\r\nContent-Length: {}\r\n\r\n{}\r\n",
            v.len(),
            v
        );
        assert_eq!(a, &expected.into_bytes());
    }
}
